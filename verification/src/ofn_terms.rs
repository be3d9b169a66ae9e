//! OWL functional-syntax renderings of IRIs and literals for supplement ontologies.
use vstd::prelude::*;

use crate::text::{at_lit, chars_of, copy, last_index_of, last_index_of_exec, lemma_rfind_bounds, push_all, push_str, replace_all, replace_lit, rfind, slice, starts_with};
use crate::xml::vec_eq;

verus! {

/// What `char::is_alphanumeric` answers for `c` (Unicode `Alphabetic` or `Numeric`).
pub uninterp spec fn unicode_alphanumeric(c: char) -> bool;

/// `char::is_alphanumeric`: the answer is `unicode_alphanumeric(c)`; the Unicode tables behind
/// it are not stated here.
#[verifier::external_body]
fn char_is_alphanumeric(c: char) -> (b: bool)
    ensures
        b == unicode_alphanumeric(c),
{
    c.is_alphanumeric()
}

/// The escape of one character inside an OFN string literal.
pub open spec fn escape_char(c: char) -> Seq<char> {
    if c == '\\' {
        seq!['\\', '\\']
    } else if c == '"' {
        seq!['\\', '"']
    } else if c == '\n' {
        seq!['\\', 'n']
    } else if c == '\r' {
        seq!['\\', 'r']
    } else if c == '\t' {
        seq!['\\', 't']
    } else {
        seq![c]
    }
}

/// `escape_ofn_string`: backslash, quote, newline, carriage return and tab escaped.
pub open spec fn escape_ofn(s: Seq<char>) -> Seq<char>
    decreases s.len(),
{
    if s.len() == 0 {
        Seq::empty()
    } else {
        escape_ofn(s.drop_last()) + escape_char(s.last())
    }
}

/// Escape a string for an OFN string literal.
pub fn escape_ofn_string(s: &Vec<char>) -> (r: Vec<char>)
    ensures
        r@ == escape_ofn(s@),
{
    let mut out: Vec<char> = Vec::new();
    let mut i: usize = 0;
    while i < s.len()
        invariant
            i <= s.len(),
            out@ == escape_ofn(s@.take(i as int)),
        decreases s.len() - i,
    {
        let c = s[i];
        let ghost before = out@;
        if c == '\\' {
            out.push('\\');
            out.push('\\');
        } else if c == '"' {
            out.push('\\');
            out.push('"');
        } else if c == '\n' {
            out.push('\\');
            out.push('n');
        } else if c == '\r' {
            out.push('\\');
            out.push('r');
        } else if c == '\t' {
            out.push('\\');
            out.push('t');
        } else {
            out.push(c);
        }
        proof {
            assert(s@.take(i + 1).drop_last() =~= s@.take(i as int));
            assert(out@ =~= before + escape_char(c));
        }
        i += 1;
    }
    assert(s@.take(s.len() as int) =~= s@);
    out
}

/// `ofn_entity_ref`: `owl:Thing` and `owl:Nothing` by name, any other IRI in angle brackets
/// with `#` written `%23`.
pub open spec fn entity_ref(iri: Seq<char>) -> Seq<char> {
    if iri == "http://www.w3.org/2002/07/owl#Thing"@ {
        "owl:Thing"@
    } else if iri == "http://www.w3.org/2002/07/owl#Nothing"@ {
        "owl:Nothing"@
    } else {
        seq!['<'] + replace_all(iri, seq!['#'], "%23"@) + seq!['>']
    }
}

/// `ofn_entity_ref`.
pub fn ofn_entity_ref(iri: &Vec<char>) -> (r: Vec<char>)
    ensures
        r@ == entity_ref(iri@),
{
    if vec_eq(iri, &chars_of("http://www.w3.org/2002/07/owl#Thing")) {
        return chars_of("owl:Thing");
    }
    if vec_eq(iri, &chars_of("http://www.w3.org/2002/07/owl#Nothing")) {
        return chars_of("owl:Nothing");
    }
    proof {
        reveal_strlit("#");
        assert("#"@ =~= seq!['#']);
    }
    let escaped = replace_lit(iri, "#", "%23");
    let mut out: Vec<char> = vec!['<'];
    push_all(&mut out, &escaped);
    out.push('>');
    assert(out@ =~= seq!['<'] + escaped@ + seq!['>']);
    out
}

/// The part of `s` after its last `#` (all of `s` when it has none).
pub open spec fn after_last_hash(s: Seq<char>) -> Seq<char> {
    match last_index_of(s, '#') {
        Some(h) => s.subrange(h + 1, s.len() as int),
        None => s,
    }
}

pub fn after_last_hash_exec(s: &Vec<char>) -> (r: Vec<char>)
    ensures
        r@ == after_last_hash(s@),
{
    match last_index_of_exec(s, '#') {
        Some(h) => {
            proof {
                lemma_rfind_bounds(s@, seq!['#']);
                assert(h < s.len());
            }
            slice(s, h + 1, s.len())
        },
        None => copy(s),
    }
}

/// `owl:local` or `rdf:local` for a datatype in the OWL or
/// RDF namespace with a non-empty local name.
pub open spec fn known_datatype_qname(n: Seq<char>) -> Option<Seq<char>> {
    if starts_with(n, "http://www.w3.org/2002/07/owl#"@) && after_last_hash(n).len() > 0 {
        Some("owl:"@ + after_last_hash(n))
    } else if starts_with(n, "http://www.w3.org/1999/02/22-rdf-syntax-ns#"@) && after_last_hash(
        n,
    ).len() > 0 {
        Some("rdf:"@ + after_last_hash(n))
    } else {
        None
    }
}

fn known_datatype_qname_exec(n: &Vec<char>) -> (r: Option<Vec<char>>)
    ensures
        match r {
            Some(v) => known_datatype_qname(n@) == Some(v@),
            None => known_datatype_qname(n@) is None,
        },
{
    let local = after_last_hash_exec(n);
    if at_lit(n, 0, "http://www.w3.org/2002/07/owl#") && local.len() > 0 {
        let mut out = chars_of("owl:");
        push_all(&mut out, &local);
        return Some(out);
    }
    if at_lit(n, 0, "http://www.w3.org/1999/02/22-rdf-syntax-ns#") && local.len() > 0 {
        let mut out = chars_of("rdf:");
        push_all(&mut out, &local);
        return Some(out);
    }
    None
}

/// Every character of `s` is alphanumeric or `_`.
pub open spec fn all_word_chars(s: Seq<char>) -> bool {
    forall|i: int| 0 <= i < s.len() ==> #[trigger] unicode_alphanumeric(s[i]) || s[i] == '_'
}

fn all_word_chars_exec(s: &Vec<char>) -> (b: bool)
    ensures
        b == all_word_chars(s@),
{
    let mut i: usize = 0;
    while i < s.len()
        invariant
            i <= s.len(),
            forall|k: int| 0 <= k < i ==> #[trigger] unicode_alphanumeric(s@[k]) || s@[k] == '_',
        decreases s.len() - i,
    {
        if !(char_is_alphanumeric(s[i]) || s[i] == '_') {
            return false;
        }
        i += 1;
    }
    true
}

/// `qualify_typed_literal_for_supplement`: the prefix declarations, the literal and the
/// datatype declaration with which a supplement ontology writes `"lexical"^^datatype`.
pub open spec fn qualified_typed_literal(lexical: Seq<char>, datatype_iri: Seq<char>) -> (
    Seq<char>,
    Seq<char>,
    Option<Seq<char>>,
) {
    let normalized = replace_all(datatype_iri, "%23"@, seq!['#']);
    if starts_with(normalized, "http://www.w3.org/2001/XMLSchema#"@) {
        (
            Seq::empty(),
            seq!['"'] + lexical + "\"^^xsd:"@ + after_last_hash(normalized),
            None,
        )
    } else if normalized == "rdf:PlainLiteral"@ || normalized
        == "http://www.w3.org/1999/02/22-rdf-syntax-ns#PlainLiteral"@ {
        (Seq::empty(), seq!['"'] + escape_ofn(lexical) + "\"^^rdf:PlainLiteral"@, None)
    } else if normalized == "rdf:XMLLiteral"@ || normalized
        == "http://www.w3.org/1999/02/22-rdf-syntax-ns#XMLLiteral"@ {
        (Seq::empty(), seq!['"'] + escape_ofn(lexical) + "\"^^rdf:XMLLiteral"@, None)
    } else if known_datatype_qname(normalized) is Some {
        let q = known_datatype_qname(normalized)->0;
        (
            Seq::empty(),
            seq!['"'] + escape_ofn(lexical) + "\"^^"@ + q,
            if starts_with(q, "owl:"@) {
                Some("Declaration(Datatype("@ + q + "))"@)
            } else {
                None
            },
        )
    } else {
        match last_index_of(normalized, '#') {
            None => (
                Seq::empty(),
                seq!['"'] + escape_ofn(lexical) + "\"^^"@ + entity_ref(datatype_iri),
                None,
            ),
            Some(p) => {
                let ns = normalized.subrange(0, p + 1);
                let local = normalized.subrange(p + 1, normalized.len() as int);
                if local.len() == 0 || !all_word_chars(local) {
                    (Seq::empty(), seq!['"'] + lexical + "\"^^"@ + entity_ref(datatype_iri), None)
                } else {
                    (
                        "Prefix(dtlit1:=<"@ + ns + ">)"@,
                        seq!['"'] + lexical + "\"^^dtlit1:"@ + local,
                        Some("Declaration(Datatype(dtlit1:"@ + local + "))"@),
                    )
                }
            },
        }
    }
}

/// QName-qualify typed literals for supplement ontologies: the prefix declarations, the
/// literal, and the datatype declaration it needs.
pub fn qualify_typed_literal_for_supplement(lexical: &Vec<char>, datatype_iri: &Vec<char>) -> (r: (
    Vec<char>,
    Vec<char>,
    Option<Vec<char>>,
))
    ensures
        (r.0@, r.1@, match r.2 {
            Some(d) => Some(d@),
            None => None,
        }) == qualified_typed_literal(lexical@, datatype_iri@),
{
    proof {
        reveal_strlit("%23");
    }
    let normalized = replace_lit(datatype_iri, "%23", "#");
    proof {
        reveal_strlit("#");
        assert("#"@ =~= seq!['#']);
    }
    if at_lit(&normalized, 0, "http://www.w3.org/2001/XMLSchema#") {
        let mut lit: Vec<char> = vec!['"'];
        push_all(&mut lit, lexical);
        push_str(&mut lit, "\"^^xsd:");
        let local = after_last_hash_exec(&normalized);
        push_all(&mut lit, &local);
        assert(lit@ =~= seq!['"'] + lexical@ + "\"^^xsd:"@ + local@);
        return (Vec::new(), lit, None);
    }
    if vec_eq(&normalized, &chars_of("rdf:PlainLiteral")) || vec_eq(
        &normalized,
        &chars_of("http://www.w3.org/1999/02/22-rdf-syntax-ns#PlainLiteral"),
    ) {
        let mut lit: Vec<char> = vec!['"'];
        push_all(&mut lit, &escape_ofn_string(lexical));
        push_str(&mut lit, "\"^^rdf:PlainLiteral");
        return (Vec::new(), lit, None);
    }
    if vec_eq(&normalized, &chars_of("rdf:XMLLiteral")) || vec_eq(
        &normalized,
        &chars_of("http://www.w3.org/1999/02/22-rdf-syntax-ns#XMLLiteral"),
    ) {
        let mut lit: Vec<char> = vec!['"'];
        push_all(&mut lit, &escape_ofn_string(lexical));
        push_str(&mut lit, "\"^^rdf:XMLLiteral");
        return (Vec::new(), lit, None);
    }
    if let Some(q) = known_datatype_qname_exec(&normalized) {
        let mut lit: Vec<char> = vec!['"'];
        push_all(&mut lit, &escape_ofn_string(lexical));
        push_str(&mut lit, "\"^^");
        push_all(&mut lit, &q);
        let decl = if at_lit(&q, 0, "owl:") {
            let mut d = chars_of("Declaration(Datatype(");
            push_all(&mut d, &q);
            push_str(&mut d, "))");
            Some(d)
        } else {
            None
        };
        return (Vec::new(), lit, decl);
    }
    match last_index_of_exec(&normalized, '#') {
        None => {
            let mut lit: Vec<char> = vec!['"'];
            push_all(&mut lit, &escape_ofn_string(lexical));
            push_str(&mut lit, "\"^^");
            push_all(&mut lit, &ofn_entity_ref(datatype_iri));
            (Vec::new(), lit, None)
        },
        Some(p) => {
            proof {
                lemma_rfind_bounds(normalized@, seq!['#']);
                assert(p < normalized.len());
            }
            let ns = slice(&normalized, 0, p + 1);
            let local = slice(&normalized, p + 1, normalized.len());
            if local.len() == 0 || !all_word_chars_exec(&local) {
                let mut lit: Vec<char> = vec!['"'];
                push_all(&mut lit, lexical);
                push_str(&mut lit, "\"^^");
                push_all(&mut lit, &ofn_entity_ref(datatype_iri));
                return (Vec::new(), lit, None);
            }
            let mut prefixes = chars_of("Prefix(dtlit1:=<");
            push_all(&mut prefixes, &ns);
            push_str(&mut prefixes, ">)");
            let mut lit: Vec<char> = vec!['"'];
            push_all(&mut lit, lexical);
            push_str(&mut lit, "\"^^dtlit1:");
            push_all(&mut lit, &local);
            let mut decl = chars_of("Declaration(Datatype(dtlit1:");
            push_all(&mut decl, &local);
            push_str(&mut decl, "))");
            (prefixes, lit, Some(decl))
        },
    }
}

/// The literal part of `qualified_typed_literal`.
pub open spec fn typed_literal(lexical: Seq<char>, datatype_iri: Seq<char>) -> Seq<char> {
    qualified_typed_literal(lexical, datatype_iri).1
}

/// An escaped OFN string holds no raw newline, carriage return or tab.
pub proof fn lemma_escaped_has_no_control_breaks(s: Seq<char>)
    ensures
        forall|k: int|
            0 <= k < escape_ofn(s).len() ==> escape_ofn(s)[k] != '\n' && escape_ofn(s)[k] != '\r'
                && escape_ofn(s)[k] != '\t',
    decreases s.len(),
{
    if s.len() > 0 {
        lemma_escaped_has_no_control_breaks(s.drop_last());
        let a = escape_ofn(s.drop_last());
        let b = escape_char(s.last());
        assert(escape_ofn(s) == a + b);
        assert forall|k: int| 0 <= k < (a + b).len() implies (a + b)[k] != '\n' && (a + b)[k]
            != '\r' && (a + b)[k] != '\t' by {
            if k >= a.len() {
                assert((a + b)[k] == b[k - a.len()]);
            } else {
                assert((a + b)[k] == a[k]);
            }
        }
    }
}

} // verus!

verus! {

/// The prefix declaration and the reference with which a supplement ontology names a
/// datatype: `xsd:local` for XML Schema, `owl:` / `rdf:` names, a `dtsame1:` prefix for a
/// namespace ending in `#` with a word-character local name, else the IRI in brackets.
pub open spec fn qualified_datatype_ref(datatype_iri: Seq<char>) -> (Seq<char>, Seq<char>) {
    let normalized = replace_all(datatype_iri, "%23"@, seq!['#']);
    if starts_with(normalized, "http://www.w3.org/2001/XMLSchema#"@) {
        (Seq::empty(), "xsd:"@ + after_last_hash(normalized))
    } else if known_datatype_qname(normalized) is Some {
        (Seq::empty(), known_datatype_qname(normalized)->0)
    } else {
        match last_index_of(normalized, '#') {
            None => (Seq::empty(), entity_ref(datatype_iri)),
            Some(p) => {
                let local = normalized.subrange(p + 1, normalized.len() as int);
                if local.len() == 0 || !all_word_chars(local) {
                    (Seq::empty(), entity_ref(datatype_iri))
                } else {
                    (
                        "Prefix(dtsame1:=<"@ + normalized.subrange(0, p + 1) + ">)"@,
                        "dtsame1:"@ + local,
                    )
                }
            },
        }
    }
}

/// The prefix declaration and the reference for a datatype, as `qualified_datatype_ref`
/// says.
pub fn qualify_datatype_ref_for_supplement(datatype_iri: &Vec<char>) -> (r: (Vec<char>, Vec<char>))
    ensures
        (r.0@, r.1@) == qualified_datatype_ref(datatype_iri@),
{
    proof {
        reveal_strlit("%23");
        reveal_strlit("#");
        assert("#"@ =~= seq!['#']);
    }
    let normalized = replace_lit(datatype_iri, "%23", "#");
    if at_lit(&normalized, 0, "http://www.w3.org/2001/XMLSchema#") {
        let mut r = chars_of("xsd:");
        push_all(&mut r, &after_last_hash_exec(&normalized));
        return (Vec::new(), r);
    }
    if let Some(q) = known_datatype_qname_exec(&normalized) {
        return (Vec::new(), q);
    }
    match last_index_of_exec(&normalized, '#') {
        None => (Vec::new(), ofn_entity_ref(datatype_iri)),
        Some(p) => {
            let n = normalized.len();
            proof {
                lemma_rfind_bounds(normalized@, seq!['#']);
                assert(rfind(normalized@, seq!['#']) == Some(p as int));
                assert(p < n);
            }
            let local = slice(&normalized, p + 1, n);
            if local.len() == 0 || !all_word_chars_exec(&local) {
                return (Vec::new(), ofn_entity_ref(datatype_iri));
            }
            let mut prefixes = chars_of("Prefix(dtsame1:=<");
            push_all(&mut prefixes, &slice(&normalized, 0, p + 1));
            push_str(&mut prefixes, ">)");
            let mut r = chars_of("dtsame1:");
            push_all(&mut r, &local);
            (prefixes, r)
        },
    }
}

} // verus!

verus! {

/// The single operand of `ObjectUnionOf(X)` or `ObjectIntersectionOf(X)` (one without spaces),
/// or the expression itself.
pub open spec fn singleton_operand(ce: Seq<char>) -> Seq<char> {
    if starts_with(ce, "ObjectUnionOf("@) && ce.len() > 15 && ce[ce.len() - 1] == ')'
        && !crate::text::contains(ce.subrange(14, ce.len() - 1), seq![' ']) {
        ce.subrange(14, ce.len() - 1)
    } else if starts_with(ce, "ObjectIntersectionOf("@) && ce.len() > 22 && ce[ce.len() - 1] == ')'
        && !crate::text::contains(ce.subrange(21, ce.len() - 1), seq![' ']) {
        ce.subrange(21, ce.len() - 1)
    } else {
        ce
    }
}

/// A boolean class expression with a single operand written as that operand.
pub fn normalize_supplement_boolean_ce(ce: &Vec<char>) -> (r: Vec<char>)
    ensures
        r@ == singleton_operand(ce@),
{
    proof {
        reveal_strlit("ObjectUnionOf(");
        reveal_strlit("ObjectIntersectionOf(");
    }
    let space: Vec<char> = vec![' '];
    assert(space@ =~= seq![' ']);
    let n = ce.len();
    if at_lit(ce, 0, "ObjectUnionOf(") && n > 15 && ce[n - 1] == ')' {
        let inner = slice(ce, 14, n - 1);
        if !crate::text::contains_exec(&inner, &space) {
            return inner;
        }
    }
    if at_lit(ce, 0, "ObjectIntersectionOf(") && n > 22 && ce[n - 1] == ')' {
        let inner = slice(ce, 21, n - 1);
        if !crate::text::contains_exec(&inner, &space) {
            return inner;
        }
    }
    copy(ce)
}

/// The walk that names the bracketed IRIs of `t` by prefixes: each `<iri>` (other than
/// `owl:Thing` and `owl:Nothing`) whose IRI, with `%23` read as `#`, has a `#` followed by a
/// local name gets the next prefix `ns{n}` for the part up to that `#`, and is written
/// `ns{n}:local` when the local name is made of word characters, else in brackets with `#`
/// as `%23`.  The prefix declarations and the rewritten text.
pub open spec fn qualify_walk(t: Seq<char>, counter: nat) -> (Seq<Seq<char>>, Seq<char>)
    decreases t.len(),
{
    match crate::text::index_of(t, '<') {
        None => (Seq::empty(), t),
        Some(st) => match crate::text::find_from(t, st + 1, seq!['>']) {
            None => (Seq::empty(), t),
            Some(end) => if !(0 <= st < end < t.len()) {
                (Seq::empty(), t)
            } else {
                let iri = t.subrange(st + 1, end);
                let rest = t.subrange(end + 1, t.len() as int);
                let d = replace_all(iri, "%23"@, seq!['#']);
                let hash = crate::text::index_of(d, '#');
                if iri == "http://www.w3.org/2002/07/owl#Thing"@ || iri
                    == "http://www.w3.org/2002/07/owl#Nothing"@ || hash is None || hash->0 + 1
                    >= d.len() {
                    let (p, o) = qualify_walk(rest, counter);
                    (p, t.subrange(0, end + 1) + o)
                } else {
                    let h = hash->0;
                    let local = d.subrange(h + 1, d.len() as int);
                    let n = counter + 1;
                    let prefix = "ns"@ + crate::text::decimal(n);
                    let q = if all_word_chars(local) {
                        prefix + seq![':'] + local
                    } else {
                        seq!['<'] + replace_all(d, seq!['#'], "%23"@) + seq!['>']
                    };
                    let (p, o) = qualify_walk(rest, n);
                    (
                        seq!["Prefix("@ + prefix + ":=<"@ + d.subrange(0, h + 1) + ">)"@] + p,
                        t.subrange(0, st) + q + o,
                    )
                }
            },
        },
    }
}

/// The items of `l` joined by newlines.
pub open spec fn join_lines(l: Seq<Seq<char>>) -> Seq<char>
    decreases l.len(),
{
    if l.len() == 0 {
        Seq::empty()
    } else if l.len() == 1 {
        l[0]
    } else {
        join_lines(l.drop_last()) + seq!['\n'] + l.last()
    }
}

/// The prefix declarations and the class expression with which a supplement ontology writes
/// A single operand unwrapped, then its IRIs named by prefixes as `qualify_walk` says.
pub open spec fn qualified_ce(ce: Seq<char>) -> (Seq<char>, Seq<char>) {
    let (p, o) = qualify_walk(singleton_operand(ce), 0);
    (join_lines(p), o)
}

/// The prefix declarations and the class expression for `ce`, as `qualified_ce` says.
pub fn qualify_ce_ofn_for_supplement(ce: &Vec<char>) -> (r: (Vec<char>, Vec<char>))
    ensures
        (r.0@, r.1@) == qualified_ce(ce@),
{
    proof {
        reveal_strlit("%23");
        reveal_strlit("#");
        assert("#"@ =~= seq!['#']);
    }
    let start = normalize_supplement_boolean_ce(ce);
    let mut cur = copy(&start);
    let mut prefixes: Vec<Vec<char>> = Vec::new();
    let mut out: Vec<char> = Vec::new();
    let mut counter: usize = 0;
    assert(crate::ids::views(prefixes@) =~= Seq::<Seq<char>>::empty());
    assert(qualify_walk(start@, 0) == ({
        let (p, o) = qualify_walk(cur@, counter as nat);
        (crate::ids::views(prefixes@) + p, out@ + o)
    })) by {
        let (p, o) = qualify_walk(cur@, 0);
        assert(crate::ids::views(prefixes@) + p =~= p);
        assert(out@ + o =~= o);
    }
    loop
        invariant_except_break
            "#"@ == seq!['#'],
            "%23"@.len() == 3,
            counter + cur.len() <= start.len(),
            start@ == singleton_operand(ce@),
            qualify_walk(start@, 0) == ({
                let (p, o) = qualify_walk(cur@, counter as nat);
                (crate::ids::views(prefixes@) + p, out@ + o)
            }),
        ensures
            start@ == singleton_operand(ce@),
            qualify_walk(start@, 0) == (crate::ids::views(prefixes@), out@),
        decreases cur.len(),
    {
        let ghost pv = crate::ids::views(prefixes@);
        let ghost ov = out@;
        let st = match crate::text::index_of_exec(&cur, '<') {
            None => {
                push_all(&mut out, &cur);
                assert(crate::ids::views(prefixes@) =~= pv + Seq::<Seq<char>>::empty());
                assert(qualify_walk(cur@, counter as nat) == (Seq::<Seq<char>>::empty(), cur@));
                break;
            },
            Some(st) => st,
        };
        proof {
            crate::text::lemma_find_from_bounds(cur@, 0, seq!['<']);
        }
        let gt: Vec<char> = vec!['>'];
        assert(gt@ =~= seq!['>']);
        let end = match crate::text::find(&cur, st + 1, &gt) {
            None => {
                push_all(&mut out, &cur);
                assert(crate::ids::views(prefixes@) =~= pv + Seq::<Seq<char>>::empty());
                assert(qualify_walk(cur@, counter as nat) == (Seq::<Seq<char>>::empty(), cur@));
                break;
            },
            Some(e) => e,
        };
        proof {
            crate::text::lemma_find_from_bounds(cur@, st + 1, gt@);
        }
        if end >= cur.len() {
            push_all(&mut out, &cur);
            assert(crate::ids::views(prefixes@) =~= pv + Seq::<Seq<char>>::empty());
            assert(qualify_walk(cur@, counter as nat) == (Seq::<Seq<char>>::empty(), cur@));
            break;
        }
        let iri = slice(&cur, st + 1, end);
        let rest = slice(&cur, end + 1, cur.len());
        let d = replace_lit(&iri, "%23", "#");
        let hash = crate::text::index_of_exec(&d, '#');
        let dn = d.len();
        proof {
            crate::text::lemma_find_from_bounds(d@, 0, seq!['#']);
        }
        let keep = vec_eq(&iri, &chars_of("http://www.w3.org/2002/07/owl#Thing")) || vec_eq(
            &iri,
            &chars_of("http://www.w3.org/2002/07/owl#Nothing"),
        ) || match hash {
            None => true,
            Some(h) => h + 1 >= dn,
        };
        if keep {
            push_range_to(&mut out, &cur, 0, end + 1);
        } else {
            let h = match hash {
                Some(h) => h,
                None => 0,
            };
            proof {
                crate::text::lemma_find_from_bounds(d@, 0, seq!['#']);
            }
            let local = slice(&d, h + 1, d.len());
            counter = counter + 1;
            let mut prefix = chars_of("ns");
            crate::text::push_decimal(&mut prefix, counter);
            let mut decl = chars_of("Prefix(");
            push_all(&mut decl, &prefix);
            push_str(&mut decl, ":=<");
            push_all(&mut decl, &slice(&d, 0, h + 1));
            push_str(&mut decl, ">)");
            let q = if all_word_chars_exec(&local) {
                let mut q = copy(&prefix);
                q.push(':');
                push_all(&mut q, &local);
                q
            } else {
                let mut q: Vec<char> = vec!['<'];
                push_all(&mut q, &replace_lit(&d, "#", "%23"));
                q.push('>');
                q
            };
            push_range_to(&mut out, &cur, 0, st);
            push_all(&mut out, &q);
            let ghost dv = decl@;
            prefixes.push(decl);
            assert(crate::ids::views(prefixes@) =~= pv.push(dv));
            proof {
                let (p2, o2) = qualify_walk(rest@, counter as nat);
                assert(pv.push(dv) + p2 =~= pv + (seq![dv] + p2));
                assert(out@ + o2 =~= ov + (cur@.subrange(0, st as int) + q@ + o2));
            }
        }
        proof {
            if keep {
                let (p2, o2) = qualify_walk(rest@, counter as nat);
                assert(out@ + o2 =~= ov + (cur@.subrange(0, end + 1) + o2));
            }
        }
        cur = rest;
    }
    let mut joined: Vec<char> = Vec::new();
    let mut i: usize = 0;
    let ghost pv = crate::ids::views(prefixes@);
    while i < prefixes.len()
        invariant
            i <= prefixes.len(),
            pv == crate::ids::views(prefixes@),
            joined@ == join_lines(pv.take(i as int)),
        decreases prefixes.len() - i,
    {
        let ghost before = joined@;
        if i > 0 {
            joined.push('\n');
        }
        push_all(&mut joined, &prefixes[i]);
        proof {
            assert(pv[i as int] == prefixes@[i as int]@);
            assert(pv.take(i + 1).drop_last() =~= pv.take(i as int));
            assert(pv.take(i + 1).last() == pv[i as int]);
            if i == 0 {
                assert(pv.take(0) =~= Seq::<Seq<char>>::empty());
                assert(joined@ =~= pv[0]);
            } else {
                assert(joined@ =~= before + seq!['\n'] + pv[i as int]);
            }
        }
        i += 1;
    }
    assert(pv.take(prefixes.len() as int) =~= pv);
    (joined, out)
}

fn push_range_to(out: &mut Vec<char>, s: &Vec<char>, a: usize, b: usize)
    requires
        a <= b <= s.len(),
    ensures
        final(out)@ == old(out)@ + s@.subrange(a as int, b as int),
{
    crate::text::push_range(out, s, a, b);
}

} // verus!

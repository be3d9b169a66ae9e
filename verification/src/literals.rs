//! Data property values written directly on individuals: literal bodies of user properties,
//! typed by `rdf:datatype` or given as XML literals.
use vstd::prelude::*;

use crate::ofn_terms::{escape_ofn, escape_ofn_string, qualify_typed_literal_for_supplement, typed_literal};
use crate::reified::{qname_prefix, qname_prefix_exec};
use crate::restrictions::text_content;
use crate::scan::PairView;
use crate::text::{at_lit, char_is_whitespace, chars_of, contains, contains_lit, ends_with, ends_with_exec, find, find_from, find_lit, index_of, index_of_exec, is_whitespace, lemma_find_from_bounds, matches_at, push_all, push_str, slice, string_of, trim, trim_end, trim_end_exec, trim_exec};
use crate::xml::{attribute, close_of, element_qname, element_qname_exec, expand_qname, expand_qname_exec, extract_attribute, is_builtin_prefix, is_builtin_prefix_exec, open_close, resolve_iri, resolve_relative_iri, Namespaces};

verus! {

/// The part of `text` after the first `marker` (ten characters long) up to the next `quote`;
/// nothing where `marker` does not occur or the value does not close.
pub open spec fn quoted_after(text: Seq<char>, marker: Seq<char>, quote: char) -> Option<
    Seq<char>,
> {
    match find_from(text, 0, marker) {
        None => None,
        Some(st) => {
            let rest = text.subrange(st + 10, text.len() as int);
            match index_of(rest, quote) {
                Some(e) => Some(rest.subrange(0, e)),
                None => None,
            }
        },
    }
}

/// The language of the first `xml:lang="..."` of `text`, or, where there is none, of the
/// first `xml:lang='...'`.
pub open spec fn xml_lang(text: Seq<char>) -> Option<Seq<char>> {
    if find_from(text, 0, "xml:lang=\""@) is Some {
        quoted_after(text, "xml:lang=\""@, '"')
    } else {
        quoted_after(text, "xml:lang='"@, '\'')
    }
}

fn quoted_after_exec(text: &Vec<char>, marker: &Vec<char>, quote: char) -> (r: Option<Vec<char>>)
    requires
        marker@.len() == 10,
    ensures
        match r {
            Some(v) => quoted_after(text@, marker@, quote) == Some(v@),
            None => quoted_after(text@, marker@, quote) is None,
        },
{
    let st = match find(text, 0, marker) {
        None => return None,
        Some(st) => st,
    };
    proof {
        lemma_find_from_bounds(text@, 0, marker@);
        assert(find_from(text@, 0, marker@) == Some(st as int));
        assert(matches_at(text@, st as int, marker@));
        assert(st + 10 <= text.len());
    }
    let rest = slice(text, st + 10, text.len());
    match index_of_exec(&rest, quote) {
        Some(e) => {
            proof {
                lemma_find_from_bounds(rest@, 0, seq![quote]);
            }
            Some(slice(&rest, 0, e))
        },
        None => None,
    }
}

pub fn extract_xml_lang(text: &Vec<char>) -> (r: Option<Vec<char>>)
    ensures
        match r {
            Some(v) => xml_lang(text@) == Some(v@),
            None => xml_lang(text@) is None,
        },
{
    proof {
        reveal_strlit("xml:lang=\"");
        reveal_strlit("xml:lang='");
    }
    let dq = chars_of("xml:lang=\"");
    if find(text, 0, &dq).is_some() {
        quoted_after_exec(text, &dq, '"')
    } else {
        quoted_after_exec(text, &chars_of("xml:lang='"), '\'')
    }
}

/// The characters of `t` from `i` on that lie outside tags (`<` opens a tag, `>` closes it),
/// with `in_tag` telling whether a tag is open at `i`.
pub open spec fn untagged(t: Seq<char>, i: int, in_tag: bool) -> Seq<char>
    decreases t.len() - i,
{
    if i < 0 || i >= t.len() {
        Seq::empty()
    } else if t[i] == '<' {
        untagged(t, i + 1, true)
    } else if t[i] == '>' {
        untagged(t, i + 1, false)
    } else if in_tag {
        untagged(t, i + 1, true)
    } else {
        seq![t[i]] + untagged(t, i + 1, false)
    }
}

/// The words of `t` from `i` on (the runs between whitespace), joined by single spaces;
/// `pending` tells whether a space is owed before the next word.
pub open spec fn words_from(t: Seq<char>, i: int, pending: bool, started: bool) -> Seq<char>
    decreases t.len() - i,
{
    if i < 0 || i >= t.len() {
        Seq::empty()
    } else if is_whitespace(t[i]) {
        words_from(t, i + 1, started, started)
    } else {
        (if pending {
            seq![' ']
        } else {
            Seq::empty()
        }) + seq![t[i]] + words_from(t, i + 1, false, true)
    }
}

/// The text of `t` without its tags, its words joined by single spaces.
pub open spec fn strip_tags(t: Seq<char>) -> Seq<char> {
    words_from(untagged(t, 0, false), 0, false, false)
}

pub fn strip_xml_tags(text: &Vec<char>) -> (r: Vec<char>)
    ensures
        r@ == strip_tags(text@),
{
    let mut bare: Vec<char> = Vec::new();
    let mut in_tag = false;
    let mut i: usize = 0;
    assert(bare@ =~= Seq::<char>::empty());
    while i < text.len()
        invariant
            i <= text.len(),
            bare@ + untagged(text@, i as int, in_tag) == untagged(text@, 0, false),
        decreases text.len() - i,
    {
        let c = text[i];
        let ghost before = bare@;
        if c == '<' {
            in_tag = true;
        } else if c == '>' {
            in_tag = false;
        } else if !in_tag {
            bare.push(c);
            assert(bare@ + untagged(text@, i + 1, false) =~= before + untagged(
                text@,
                i as int,
                false,
            ));
        }
        i += 1;
    }
    assert(bare@ =~= bare@ + untagged(text@, i as int, in_tag));
    let mut out: Vec<char> = Vec::new();
    let mut pending = false;
    let mut started = false;
    let mut j: usize = 0;
    assert(out@ =~= Seq::<char>::empty());
    while j < bare.len()
        invariant
            j <= bare.len(),
            bare@ == untagged(text@, 0, false),
            out@ + words_from(bare@, j as int, pending, started) == strip_tags(text@),
        decreases bare.len() - j,
    {
        let c = bare[j];
        let ghost before = out@;
        if char_is_whitespace(c) {
            pending = started;
        } else {
            if pending {
                out.push(' ');
            }
            out.push(c);
            assert(out@ + words_from(bare@, j + 1, false, true) =~= before + words_from(
                bare@,
                j as int,
                pending,
                started,
            ));
            pending = false;
            started = true;
        }
        j += 1;
    }
    assert(out@ =~= out@ + words_from(bare@, j as int, pending, started));
    out
}

/// An XML literal body in functional syntax: with a language, its text without tags as a
/// language-tagged string; otherwise the body as an `rdf:XMLLiteral`.
pub open spec fn rdf_literal(body: Seq<char>) -> Seq<char> {
    match xml_lang(body) {
        Some(lang) => seq!['"'] + escape_ofn(strip_tags(body)) + "\"@"@ + lang,
        None => seq!['"'] + escape_ofn(body) + "\"^^rdf:XMLLiteral"@,
    }
}

pub fn ofn_literal_from_rdf_literal(body: &Vec<char>) -> (r: Vec<char>)
    ensures
        r@ == rdf_literal(body@),
{
    match extract_xml_lang(body) {
        Some(lang) => {
            let mut out: Vec<char> = vec!['"'];
            push_all(&mut out, &escape_ofn_string(&strip_xml_tags(body)));
            push_str(&mut out, "\"@");
            push_all(&mut out, &lang);
            out
        },
        None => {
            let mut out: Vec<char> = vec!['"'];
            push_all(&mut out, &escape_ofn_string(body));
            push_str(&mut out, "\"^^rdf:XMLLiteral");
            out
        },
    }
}

} // verus!

verus! {

/// The value that a user property element (open tag `tag` at `st..=g`, close tag at `cs`,
/// property `p`) gives: an XML literal with `rdf:parseType="Literal"`; a typed literal with
/// `rdf:datatype` (from the element's text where the body is empty; none where that is
/// empty too); otherwise its trimmed body, where that is not empty.
pub open spec fn literal_item(
    inner: Seq<char>,
    st: int,
    g: int,
    cs: int,
    tag: Seq<char>,
    q: Seq<char>,
    p: Seq<char>,
    base: Seq<char>,
) -> Option<PairView> {
    let body = trim(inner.subrange(g + 1, cs));
    if contains(tag, "rdf:parseType=\"Literal\""@) || contains(tag, "rdf:parseType='Literal'"@) {
        Some((p, rdf_literal(trim(body))))
    } else {
        match attribute(tag, "rdf:datatype"@) {
            Some(dt) => {
                let lexical = if body.len() == 0 {
                    match text_content(inner.subrange(st, cs + close_of(q).len()), q) {
                        Some(t) => t,
                        None => Seq::empty(),
                    }
                } else {
                    body
                };
                if lexical.len() > 0 {
                    Some((p, typed_literal(lexical, resolve_iri(dt, base))))
                } else {
                    None
                }
            },
            None => if body.len() > 0 {
                Some((p, body))
            } else {
                None
            },
        }
    }
}

/// The literal values of the user property elements of `inner` from `pos` on, as
/// `(property, literal)` pairs: close tags and comments are stepped over, as are built-in
/// names, names no namespace expands, self-closing elements and elements that do not close;
/// after an element that closes the walk goes on past its close tag.
pub open spec fn literal_scan(
    inner: Seq<char>,
    base: Seq<char>,
    ns: Seq<(Seq<char>, Seq<char>)>,
    pos: int,
) -> Seq<PairView>
    decreases inner.len() - pos,
{
    if pos < 0 || pos > inner.len() {
        Seq::empty()
    } else {
        match find_from(inner, pos, seq!['<']) {
            None => Seq::empty(),
            Some(st) => if st < pos || st >= inner.len() {
                Seq::empty()
            } else if matches_at(inner, st, "</"@) || matches_at(inner, st, "<!--"@) {
                literal_scan(inner, base, ns, st + 1)
            } else {
                match find_from(inner, st, seq!['>']) {
                    None => Seq::empty(),
                    Some(g) => if g < st || g >= inner.len() {
                        Seq::empty()
                    } else {
                        let tag = inner.subrange(st, g + 1);
                        match element_qname(tag) {
                            None => literal_scan(inner, base, ns, g + 1),
                            Some(q) => if is_builtin_prefix(qname_prefix(q)) {
                                literal_scan(inner, base, ns, g + 1)
                            } else {
                                match expand_qname(q, ns) {
                                    None => literal_scan(inner, base, ns, g + 1),
                                    Some(p) => if ends_with(trim_end(tag), "/>"@) {
                                        literal_scan(inner, base, ns, g + 1)
                                    } else {
                                        match find_from(inner, st, close_of(q)) {
                                            None => literal_scan(inner, base, ns, g + 1),
                                            Some(cs) => if cs < g + 1 || cs + close_of(q).len()
                                                > inner.len() {
                                                Seq::empty()
                                            } else {
                                                crate::scan::opt_seq(
                                                    literal_item(inner, st, g, cs, tag, q, p, base),
                                                ) + literal_scan(
                                                    inner,
                                                    base,
                                                    ns,
                                                    cs + close_of(q).len(),
                                                )
                                            },
                                        }
                                    },
                                }
                            },
                        }
                    },
                }
            },
        }
    }
}

fn literal_item_exec(
    inner: &Vec<char>,
    st: usize,
    g: usize,
    cs: usize,
    tag: &Vec<char>,
    q: &Vec<char>,
    close: &Vec<char>,
    p: &Vec<char>,
    base: &Vec<char>,
) -> (r: Option<(Vec<char>, Vec<char>)>)
    requires
        st <= g < cs,
        close@ == close_of(q@),
        cs + close@.len() <= inner.len(),
    ensures
        match r {
            Some((a, b)) => literal_item(
                inner@,
                st as int,
                g as int,
                cs as int,
                tag@,
                q@,
                p@,
                base@,
            ) == Some((a@, b@)),
            None => literal_item(inner@, st as int, g as int, cs as int, tag@, q@, p@, base@) is None,
        },
{
    let body = trim_exec(&slice(inner, g + 1, cs));
    if contains_lit(tag, "rdf:parseType=\"Literal\"") || contains_lit(tag, "rdf:parseType='Literal'") {
        return Some((crate::text::copy(p), ofn_literal_from_rdf_literal(&trim_exec(&body))));
    }
    match extract_attribute(tag, "rdf:datatype") {
        Some(dt) => {
            let lexical = if body.len() == 0 {
                let elem = slice(inner, st, cs + close.len());
                match crate::restrictions::text_content_exec(&elem, q) {
                    Some(t) => t,
                    None => Vec::new(),
                }
            } else {
                body
            };
            if lexical.len() > 0 {
                let (_, lit, _) = qualify_typed_literal_for_supplement(
                    &lexical,
                    &resolve_relative_iri(&dt, base),
                );
                Some((crate::text::copy(p), lit))
            } else {
                None
            }
        },
        None => if body.len() > 0 {
            Some((crate::text::copy(p), body))
        } else {
            None
        },
    }
}

/// The literal values of the user property elements of `inner`, as `literal_scan` says.
pub fn literal_property_assertions_from_inner(inner: &Vec<char>, base: &Vec<char>, ns: &Namespaces) -> (r:
    Vec<(Vec<char>, Vec<char>)>)
    requires
        ns.wf(),
    ensures
        r@.map_values(|x: (Vec<char>, Vec<char>)| x@) == literal_scan(inner@, base@, ns.entries(), 0),
{
    let lt: Vec<char> = vec!['<'];
    let gt: Vec<char> = vec!['>'];
    assert(lt@ =~= seq!['<']);
    assert(gt@ =~= seq!['>']);
    let mut out: Vec<(Vec<char>, Vec<char>)> = Vec::new();
    let mut pos: usize = 0;
    assert(out@.map_values(|x: (Vec<char>, Vec<char>)| x@) =~= Seq::<PairView>::empty());
    while pos <= inner.len()
        invariant
            ns.wf(),
            lt@ == seq!['<'],
            gt@ == seq!['>'],
            out@.map_values(|x: (Vec<char>, Vec<char>)| x@) + literal_scan(
                inner@,
                base@,
                ns.entries(),
                pos as int,
            ) == literal_scan(inner@, base@, ns.entries(), 0),
        decreases inner.len() + 1 - pos,
    {
        let ghost before = out@.map_values(|x: (Vec<char>, Vec<char>)| x@);
        let st = match find(inner, pos, &lt) {
            None => {
                assert(before =~= before + Seq::<PairView>::empty());
                return out;
            },
            Some(st) => st,
        };
        proof {
            lemma_find_from_bounds(inner@, pos as int, lt@);
        }
        if st >= inner.len() {
            assert(before =~= before + Seq::<PairView>::empty());
            return out;
        }
        if at_lit(inner, st, "</") || at_lit(inner, st, "<!--") {
            pos = st + 1;
            continue;
        }
        let g = match find(inner, st, &gt) {
            None => {
                assert(before =~= before + Seq::<PairView>::empty());
                return out;
            },
            Some(g) => g,
        };
        proof {
            lemma_find_from_bounds(inner@, st as int, gt@);
        }
        if g >= inner.len() {
            assert(before =~= before + Seq::<PairView>::empty());
            return out;
        }
        let tag = slice(inner, st, g + 1);
        let q = match element_qname_exec(&tag) {
            None => {
                pos = g + 1;
                continue;
            },
            Some(q) => q,
        };
        if is_builtin_prefix_exec(&qname_prefix_exec(&q)) {
            pos = g + 1;
            continue;
        }
        let p = match expand_qname_exec(&q, ns) {
            None => {
                pos = g + 1;
                continue;
            },
            Some(p) => p,
        };
        if ends_with_exec(&trim_end_exec(&tag), &chars_of("/>")) {
            pos = g + 1;
            continue;
        }
        let (_, close) = open_close(&q);
        let cs = match find(inner, st, &close) {
            None => {
                pos = g + 1;
                continue;
            },
            Some(c) => c,
        };
        proof {
            lemma_find_from_bounds(inner@, st as int, close@);
        }
        if cs < g + 1 || close.len() > inner.len() - cs {
            assert(before =~= before + Seq::<PairView>::empty());
            return out;
        }
        match literal_item_exec(inner, st, g, cs, &tag, &q, &close, &p, base) {
            Some(item) => {
                let ghost iv = item@;
                out.push(item);
                assert(out@.map_values(|x: (Vec<char>, Vec<char>)| x@) =~= before + seq![iv]);
            },
            None => {
                assert(out@.map_values(|x: (Vec<char>, Vec<char>)| x@) =~= before + Seq::<
                    PairView,
                >::empty());
            },
        }
        let next = cs + close.len();
        assert(out@.map_values(|x: (Vec<char>, Vec<char>)| x@) + literal_scan(
            inner@,
            base@,
            ns.entries(),
            next as int,
        ) =~= before + literal_scan(inner@, base@, ns.entries(), pos as int));
        pos = next;
    }
    let ghost fin = out@.map_values(|x: (Vec<char>, Vec<char>)| x@);
    assert(fin =~= fin + literal_scan(inner@, base@, ns.entries(), pos as int));
    out
}

} // verus!

verus! {

/// A data property value on an individual, written directly on it.
#[derive(Debug)]
pub struct DirectDataLiteralAssertion {
    /// The individual.
    pub subject: String,
    /// The data property.
    pub property: String,
    /// The value, as a functional syntax literal.
    pub value_literal: String,
}

impl View for DirectDataLiteralAssertion {
    type V = (Seq<char>, Seq<char>, Seq<char>);

    open spec fn view(&self) -> (Seq<char>, Seq<char>, Seq<char>) {
        (self.subject@, self.property@, self.value_literal@)
    }
}

/// Each `(property, literal)` of `lits` with `subject` before it.
pub open spec fn with_subject(subject: Seq<char>, lits: Seq<PairView>) -> Seq<
    (Seq<char>, Seq<char>, Seq<char>),
> {
    lits.map_values(|pv: PairView| (subject, pv.0, pv.1))
}

/// The subject an anonymous `owl:Thing` element gets: `{base}#_:thing{n}`.
pub open spec fn thing_subject(base: Seq<char>, n: nat) -> Seq<char> {
    base + "#_:thing"@ + crate::text::decimal(n)
}

/// The literal values of the `owl:Thing` elements from `pos` on, the elements numbered from
/// `counter + 1`.
pub open spec fn thing_literals(
    s: Seq<char>,
    base: Seq<char>,
    ns: Seq<(Seq<char>, Seq<char>)>,
    pos: int,
    counter: nat,
) -> Seq<(Seq<char>, Seq<char>, Seq<char>)>
    decreases s.len() - pos,
{
    if pos < 0 || pos > s.len() {
        Seq::empty()
    } else {
        match find_from(s, pos, "<owl:Thing"@) {
            None => Seq::empty(),
            Some(st) => if st < pos || st >= s.len() {
                Seq::empty()
            } else {
                match crate::xml::tagged_end(s, st, "owl:Thing"@) {
                    None => Seq::empty(),
                    Some(end) => if end <= st || end > s.len() {
                        Seq::empty()
                    } else {
                        with_subject(
                            thing_subject(base, counter + 1),
                            literal_scan(
                                crate::xml::element_inner(s.subrange(st, end), "owl:Thing"@),
                                base,
                                ns,
                                0,
                            ),
                        ) + thing_literals(s, base, ns, end, counter + 1)
                    },
                }
            },
        }
    }
}

/// The literal values of a description that names its resource, with the resource.
pub open spec fn description_literals(
    block: Seq<char>,
    base: Seq<char>,
    ns: Seq<(Seq<char>, Seq<char>)>,
) -> Seq<(Seq<char>, Seq<char>, Seq<char>)> {
    if block.len() == 0 {
        Seq::empty()
    } else {
        match crate::reified::about_or_id(
            block.subrange(0, crate::descriptions::first_gt_or_zero(block) + 1),
            base,
        ) {
            None => Seq::empty(),
            Some(i) => with_subject(
                resolve_iri(i, base),
                literal_scan(crate::xml::element_inner(block, "rdf:Description"@), base, ns, 0),
            ),
        }
    }
}

pub open spec fn description_literals_fn(base: Seq<char>, ns: Seq<(Seq<char>, Seq<char>)>) -> spec_fn(
    Seq<char>,
) -> Seq<(Seq<char>, Seq<char>, Seq<char>)> {
    |b: Seq<char>| description_literals(b, base, ns)
}

/// The data property values written directly on individuals: those of the anonymous
/// `owl:Thing` elements, numbered in document order, then those of the descriptions.
pub open spec fn direct_data_literals(s: Seq<char>) -> Seq<(Seq<char>, Seq<char>, Seq<char>)> {
    thing_literals(s, crate::xml::xml_base(s), crate::xml::xmlns_of(s), 0, 0)
        + crate::scan::element_walk_many(
        s,
        "rdf:Description"@,
        crate::scan::EndRule::Balanced,
        0,
        description_literals_fn(crate::xml::xml_base(s), crate::xml::xmlns_of(s)),
    )
}

fn attach_subject(subject: &Vec<char>, lits: &Vec<(Vec<char>, Vec<char>)>) -> (r: Vec<
    DirectDataLiteralAssertion,
>)
    ensures
        r@.map_values(|x: DirectDataLiteralAssertion| x@) == with_subject(
            subject@,
            lits@.map_values(|x: (Vec<char>, Vec<char>)| x@),
        ),
{
    let ghost lv = lits@.map_values(|x: (Vec<char>, Vec<char>)| x@);
    let mut out: Vec<DirectDataLiteralAssertion> = Vec::new();
    let mut i: usize = 0;
    assert(out@.map_values(|x: DirectDataLiteralAssertion| x@) =~= with_subject(
        subject@,
        lv.take(0),
    ));
    while i < lits.len()
        invariant
            i <= lits.len(),
            lv == lits@.map_values(|x: (Vec<char>, Vec<char>)| x@),
            out@.map_values(|x: DirectDataLiteralAssertion| x@) == with_subject(
                subject@,
                lv.take(i as int),
            ),
        decreases lits.len() - i,
    {
        let a = DirectDataLiteralAssertion {
            subject: string_of(subject),
            property: string_of(&lits[i].0),
            value_literal: string_of(&lits[i].1),
        };
        let ghost before = out@.map_values(|x: DirectDataLiteralAssertion| x@);
        assert(lv[i as int] == lits@[i as int]@);
        assert(a@ == (subject@, lv[i as int].0, lv[i as int].1));
        out.push(a);
        assert(out@.map_values(|x: DirectDataLiteralAssertion| x@) =~= before.push(a@));
        assert(lv.take(i + 1) =~= lv.take(i as int).push(lv[i as int]));
        assert(out@.map_values(|x: DirectDataLiteralAssertion| x@) =~= with_subject(
            subject@,
            lv.take(i + 1),
        ));
        i += 1;
    }
    assert(lv.take(lits.len() as int) =~= lv);
    out
}

fn description_literals_exec(block: &Vec<char>, base: &Vec<char>, ns: &Namespaces) -> (r: Vec<
    DirectDataLiteralAssertion,
>)
    requires
        ns.wf(),
    ensures
        r@.map_values(|x: DirectDataLiteralAssertion| x@) == description_literals(
            block@,
            base@,
            ns.entries(),
        ),
{
    if block.len() == 0 {
        let r: Vec<DirectDataLiteralAssertion> = Vec::new();
        assert(r@.map_values(|x: DirectDataLiteralAssertion| x@) =~= Seq::<
            (Seq<char>, Seq<char>, Seq<char>),
        >::empty());
        return r;
    }
    let oe = crate::descriptions::first_gt_or_zero_exec(block);
    let open = slice(block, 0, oe + 1);
    match crate::reified::about_or_id_exec(&open, base) {
        None => {
            let r: Vec<DirectDataLiteralAssertion> = Vec::new();
            assert(r@.map_values(|x: DirectDataLiteralAssertion| x@) =~= Seq::<
                (Seq<char>, Seq<char>, Seq<char>),
            >::empty());
            r
        },
        Some(i) => {
            let subject = resolve_relative_iri(&i, base);
            let inner = crate::xml::element_inner_lit(block, "rdf:Description");
            let lits = literal_property_assertions_from_inner(&inner, base, ns);
            attach_subject(&subject, &lits)
        },
    }
}

/// Collect the data property values written directly on individuals, as
/// `direct_data_literals` lists them.
pub fn collect_direct_data_literal_assertions(rdf: &str) -> (r: Vec<DirectDataLiteralAssertion>)
    ensures
        r@.map_values(|x: DirectDataLiteralAssertion| x@) == direct_data_literals(rdf@),
{
    let s = chars_of(rdf);
    let base = crate::xml::parse_xml_base(&s);
    let ns = crate::xml::xmlns_declarations(&s);
    let thing = chars_of("owl:Thing");
    let mut out: Vec<DirectDataLiteralAssertion> = Vec::new();
    let mut pos: usize = 0;
    let mut counter: usize = 0;
    assert(out@.map_values(|x: DirectDataLiteralAssertion| x@) =~= Seq::<
        (Seq<char>, Seq<char>, Seq<char>),
    >::empty());
    let ghost things = thing_literals(s@, base@, ns.entries(), 0, 0);
    while pos <= s.len()
        invariant
            ns.wf(),
            base@ == crate::xml::xml_base(s@),
            ns.entries() == crate::xml::xmlns_of(s@),
            thing@ == "owl:Thing"@,
            counter <= pos,
            out@.map_values(|x: DirectDataLiteralAssertion| x@) + thing_literals(
                s@,
                base@,
                ns.entries(),
                pos as int,
                counter as nat,
            ) == things,
        ensures
            out@.map_values(|x: DirectDataLiteralAssertion| x@) == things,
        decreases s.len() + 1 - pos,
    {
        let ghost before = out@.map_values(|x: DirectDataLiteralAssertion| x@);
        let st = match find_lit(&s, pos, "<owl:Thing") {
            None => {
                assert(before =~= before + Seq::<(Seq<char>, Seq<char>, Seq<char>)>::empty());
                break;
            },
            Some(st) => st,
        };
        proof {
            lemma_find_from_bounds(s@, pos as int, "<owl:Thing"@);
        }
        if st >= s.len() {
            assert(before =~= before + Seq::<(Seq<char>, Seq<char>, Seq<char>)>::empty());
            break;
        }
        let end = match crate::xml::tag_element_end(&s, st, &thing) {
            None => {
                assert(before =~= before + Seq::<(Seq<char>, Seq<char>, Seq<char>)>::empty());
                break;
            },
            Some(e) => e,
        };
        counter += 1;
        let mut subject = crate::text::copy(&base);
        push_str(&mut subject, "#_:thing");
        crate::text::push_decimal(&mut subject, counter);
        let block = slice(&s, st, end);
        let inner = crate::xml::element_inner_lit(&block, "owl:Thing");
        let lits = literal_property_assertions_from_inner(&inner, &base, &ns);
        let mut got = attach_subject(&subject, &lits);
        let ghost gv = got@.map_values(|x: DirectDataLiteralAssertion| x@);
        out.append(&mut got);
        assert(out@.map_values(|x: DirectDataLiteralAssertion| x@) =~= before + gv);
        assert(out@.map_values(|x: DirectDataLiteralAssertion| x@) + thing_literals(
            s@,
            base@,
            ns.entries(),
            end as int,
            counter as nat,
        ) =~= before + thing_literals(s@, base@, ns.entries(), pos as int, (counter - 1) as nat));
        pos = end;
    }
    let ghost got_things = out@.map_values(|x: DirectDataLiteralAssertion| x@);
    assert(got_things == things);
    let f = |b: &Vec<char>| -> (r: Vec<DirectDataLiteralAssertion>)
        ensures
            r@.map_values(|x: DirectDataLiteralAssertion| x@) == description_literals(
                b@,
                base@,
                ns.entries(),
            ),
        { description_literals_exec(b, &base, &ns) };
    let mut more = crate::scan::collect_elements_many(
        &s,
        &chars_of("rdf:Description"),
        crate::scan::EndRule::Balanced,
        f,
        Ghost(description_literals_fn(base@, ns.entries())),
    );
    let ghost mv = more@.map_values(|x: DirectDataLiteralAssertion| x@);
    out.append(&mut more);
    assert(out@.map_values(|x: DirectDataLiteralAssertion| x@) =~= got_things + mv);
    out
}

} // verus!

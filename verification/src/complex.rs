//! Individuals typed with a nested class expression, given an explicit `rdf:about`.
use vstd::prelude::*;

use crate::descriptions::{is_simple_type_element, is_simple_type_element_exec, is_typed_entity_declaration, is_typed_entity_declaration_exec};
use crate::text::{at_lit, chars_of, contains, contains_lit, copy, find_from, find_lit, lemma_find_from_bounds, lemma_rfind_bounds, matches_at, opt_int, push_all, push_range, push_str, rfind, rfind_exec, rfind_lit, slice, string_of, trim, trim_exec};
use crate::xml::{attribute, close_of, extract_attribute, find_top_level_lit, open_close, open_of, parse_xml_base, resolve_iri, resolve_relative_iri, tagged_scan, tagged_scan_from, top_level_element, xml_base};

verus! {

/// `element_block_end`: the end of the element named `tag` opening at `start`, just after the
/// `</tag>` that balances it (nested non-self-closing `tag` elements counted; the open tag
/// itself counted as open even when it closes itself).
pub open spec fn block_end(s: Seq<char>, start: int, tag: Seq<char>) -> Option<int> {
    if !matches_at(s, start, open_of(tag)) {
        None
    } else {
        match find_from(s, start, seq!['>']) {
            None => None,
            Some(g) => tagged_scan(s, tag, g + 1, 1),
        }
    }
}

fn block_end_exec(s: &Vec<char>, start: usize, tag: &Vec<char>) -> (r: Option<usize>)
    ensures
        opt_int(r) == block_end(s@, start as int, tag@),
        r matches Some(e) ==> start < e <= s.len(),
{
    proof {
        reveal_strlit(">");
        assert(">"@ =~= seq!['>']);
    }
    let (open, _) = open_close(tag);
    if !crate::text::is_match_at(s, start, &open) {
        return None;
    }
    let g = match find_lit(s, start, ">") {
        None => return None,
        Some(g) => g,
    };
    proof {
        lemma_find_from_bounds(s@, start as int, seq!['>']);
        assert(g < s.len());
    }
    tagged_scan_from(s, tag, g + 1, 1)
}

/// The individual an open tag names: by `rdf:about`, or else by `rdf:ID` as `{base}#{id}`,
/// resolved against `base`.
pub open spec fn individual_iri(open: Seq<char>, base: Seq<char>) -> Option<Seq<char>> {
    match attribute(open, "rdf:about"@) {
        Some(a) => Some(resolve_iri(a, base)),
        None => match attribute(open, "rdf:ID"@) {
            Some(id) => Some(resolve_iri(base + seq!['#'] + id, base)),
            None => None,
        },
    }
}

fn individual_iri_exec(open: &Vec<char>, base: &Vec<char>) -> (r: Option<Vec<char>>)
    ensures
        match r {
            Some(v) => individual_iri(open@, base@) == Some(v@),
            None => individual_iri(open@, base@) is None,
        },
{
    if let Some(a) = extract_attribute(open, "rdf:about") {
        return Some(resolve_relative_iri(&a, base));
    }
    if let Some(id) = extract_attribute(open, "rdf:ID") {
        let mut iri = copy(base);
        iri.push('#');
        push_all(&mut iri, &id);
        assert(iri@ =~= base@ + seq!['#'] + id@);
        return Some(resolve_relative_iri(&iri, base));
    }
    None
}

/// An individual element (not a class or property
/// declaration) whose top-level `rdf:type` holds a non-empty class expression gets its open tag
/// replaced by `<tag rdf:about="{iri}">`.
pub open spec fn rewrite_complex_typed(block: Seq<char>, tag: Seq<char>, base: Seq<char>) -> Option<
    Seq<char>,
> {
    if is_typed_entity_declaration(block) {
        None
    } else {
        match find_from(block, 0, seq!['>']) {
            None => None,
            Some(oe) => match rfind(block, close_of(tag)) {
                None => None,
                Some(cs) => if cs < oe + 1 {
                    None
                } else {
                    let inner = block.subrange(oe + 1, cs);
                    match top_level_element(inner, "rdf:type"@) {
                        None => None,
                        Some((a, e)) => {
                            let type_block = inner.subrange(a, e);
                            if is_simple_type_element(type_block) {
                                None
                            } else {
                                match individual_iri(block.subrange(0, oe + 1), base) {
                                    None => None,
                                    Some(iri) => match find_from(type_block, 0, seq!['>']) {
                                        None => None,
                                        Some(toe) => match rfind(type_block, "</rdf:type>"@) {
                                            None => None,
                                            Some(tcs) => if tcs < toe + 1 || trim(
                                                type_block.subrange(toe + 1, tcs),
                                            ).len() == 0 {
                                                None
                                            } else {
                                                Some(
                                                    seq!['<'] + tag + " rdf:about=\""@ + iri
                                                        + "\">"@ + inner + close_of(tag),
                                                )
                                            },
                                        },
                                    },
                                }
                            }
                        },
                    }
                },
            },
        }
    }
}

fn rewrite_complex_typed_exec(block: &Vec<char>, tag: &Vec<char>, base: &Vec<char>) -> (r: Option<
    Vec<char>,
>)
    ensures
        match r {
            Some(v) => rewrite_complex_typed(block@, tag@, base@) == Some(v@),
            None => rewrite_complex_typed(block@, tag@, base@) is None,
        },
{
    proof {
        reveal_strlit(">");
        assert(">"@ =~= seq!['>']);
    }
    if is_typed_entity_declaration_exec(block) {
        return None;
    }
    let oe = match find_lit(block, 0, ">") {
        None => return None,
        Some(o) => o,
    };
    proof {
        lemma_find_from_bounds(block@, 0, seq!['>']);
        assert(oe < block.len());
    }
    let (_, close) = open_close(tag);
    let cs = match rfind_exec(block, &close) {
        None => return None,
        Some(c) => c,
    };
    proof {
        lemma_rfind_bounds(block@, close@);
    }
    if cs < oe + 1 {
        return None;
    }
    let inner = slice(block, oe + 1, cs);
    let (a, e) = match find_top_level_lit(&inner, "rdf:type") {
        None => return None,
        Some(b) => b,
    };
    let type_block = slice(&inner, a, e);
    if is_simple_type_element_exec(&type_block) {
        return None;
    }
    let open = slice(block, 0, oe + 1);
    let iri = match individual_iri_exec(&open, base) {
        None => return None,
        Some(i) => i,
    };
    let toe = match find_lit(&type_block, 0, ">") {
        None => return None,
        Some(t) => t,
    };
    proof {
        lemma_find_from_bounds(type_block@, 0, seq!['>']);
        assert(toe < type_block.len());
    }
    let tcs = match rfind_lit(&type_block, "</rdf:type>") {
        None => return None,
        Some(t) => t,
    };
    proof {
        lemma_rfind_bounds(type_block@, "</rdf:type>"@);
    }
    if tcs < toe + 1 {
        return None;
    }
    let ce = trim_exec(&slice(&type_block, toe + 1, tcs));
    if ce.len() == 0 {
        return None;
    }
    let mut out: Vec<char> = vec!['<'];
    push_all(&mut out, tag);
    push_str(&mut out, " rdf:about=\"");
    push_all(&mut out, &iri);
    push_str(&mut out, "\">");
    push_all(&mut out, &inner);
    push_all(&mut out, &close);
    proof {
        assert(out@ =~= seq!['<'] + tag@ + " rdf:about=\""@ + iri@ + "\">"@ + inner@ + close_of(
            tag@,
        ));
    }
    Some(out)
}

/// The first individual element (`<rdf:Description` or `<owl:NamedIndividual`) at or after
/// `pos`.
pub open spec fn next_individual(s: Seq<char>, pos: int) -> Option<int> {
    match (find_from(s, pos, "<rdf:Description"@), find_from(s, pos, "<owl:NamedIndividual"@)) {
        (Some(d), Some(i)) => Some(if d <= i { d } else { i }),
        (Some(d), None) => Some(d),
        (None, Some(i)) => Some(i),
        (None, None) => None,
    }
}

/// The element name of the individual element at `start`.
pub open spec fn individual_tag(s: Seq<char>, start: int) -> Seq<char> {
    if matches_at(s, start, "<owl:NamedIndividual"@) {
        "owl:NamedIndividual"@
    } else {
        "rdf:Description"@
    }
}

/// The walk of `materialize_complex_class_assertions` from `pos`.
pub open spec fn complex_walk(s: Seq<char>, base: Seq<char>, pos: int) -> Seq<char>
    decreases s.len() - pos,
{
    if pos < 0 || pos >= s.len() {
        Seq::empty()
    } else {
        match next_individual(s, pos) {
            None => s.subrange(pos, s.len() as int),
            Some(st) => if st < pos || st >= s.len() {
                s.subrange(pos, s.len() as int)
            } else {
                let tag = individual_tag(s, st);
                match block_end(s, st, tag) {
                    None => s.subrange(pos, s.len() as int),
                    Some(end) => if end <= st || end > s.len() {
                        s.subrange(pos, s.len() as int)
                    } else {
                        let block = s.subrange(st, end);
                        s.subrange(pos, st) + (match rewrite_complex_typed(block, tag, base) {
                            Some(rw) => rw,
                            None => block,
                        }) + complex_walk(s, base, end)
                    },
                }
            },
        }
    }
}

/// `materialize_complex_class_assertions`: when the text mentions `rdf:type`, each individual
/// element typed with a nested class expression is rewritten by `rewrite_complex_typed`.
pub open spec fn complex_class_assertions_materialized(s: Seq<char>) -> Seq<char> {
    if !contains(s, "rdf:type"@) {
        s
    } else {
        complex_walk(s, xml_base(s), 0)
    }
}

/// Give individuals that carry an inline complex `rdf:type` an explicit `rdf:about`, so that
/// their class assertion is read.
pub fn materialize_complex_class_assertions(input: &str) -> (r: String)
    ensures
        r@ == complex_class_assertions_materialized(input@),
{
    let s = chars_of(input);
    let out = complex_class_assertions_chars(&s);
    string_of(&out)
}

/// One step of the walk of `materialize_complex_class_assertions` at `pos`: the text it emits
/// and where the walk goes on, if anywhere.
#[verifier::spinoff_prover]
fn complex_step(s: &Vec<char>, base: &Vec<char>, pos: usize) -> (r: (Vec<char>, Option<usize>))
    requires
        pos < s.len(),
    ensures
        match r.1 {
            None => r.0@ == complex_walk(s@, base@, pos as int),
            Some(np) => pos < np <= s.len() && r.0@ + complex_walk(s@, base@, np as int)
                == complex_walk(s@, base@, pos as int),
        },
{
    let mut out: Vec<char> = Vec::new();
    let d = find_lit(s, pos, "<rdf:Description");
    let i = find_lit(s, pos, "<owl:NamedIndividual");
    proof {
        lemma_find_from_bounds(s@, pos as int, "<rdf:Description"@);
        lemma_find_from_bounds(s@, pos as int, "<owl:NamedIndividual"@);
    }
    let st = match (d, i) {
        (Some(d), Some(i)) => if d <= i {
            d
        } else {
            i
        },
        (Some(d), None) => d,
        (None, Some(i)) => i,
        (None, None) => {
            push_range(&mut out, s, pos, s.len());
            return (out, None);
        },
    };
    if st >= s.len() {
        push_range(&mut out, s, pos, s.len());
        return (out, None);
    }
    let tag = if at_lit(s, st, "<owl:NamedIndividual") {
        chars_of("owl:NamedIndividual")
    } else {
        chars_of("rdf:Description")
    };
    let end = match block_end_exec(s, st, &tag) {
        None => {
            push_range(&mut out, s, pos, s.len());
            return (out, None);
        },
        Some(e) => e,
    };
    push_range(&mut out, s, pos, st);
    let block = slice(s, st, end);
    match rewrite_complex_typed_exec(&block, &tag, base) {
        Some(rw) => push_all(&mut out, &rw),
        None => push_all(&mut out, &block),
    }
    (out, Some(end))
}

/// `materialize_complex_class_assertions` on a character vector.
pub fn complex_class_assertions_chars(s: &Vec<char>) -> (r: Vec<char>)
    ensures
        r@ == complex_class_assertions_materialized(s@),
{
    if !contains_lit(s, "rdf:type") {
        return copy(s);
    }
    let base = parse_xml_base(s);
    let mut out: Vec<char> = Vec::new();
    let mut pos: usize = 0;
    while pos < s.len()
        invariant
            base@ == xml_base(s@),
            contains(s@, "rdf:type"@),
            out@ + complex_walk(s@, base@, pos as int) == complex_class_assertions_materialized(
                s@,
            ),
        decreases s.len() - pos,
    {
        let (piece, next) = complex_step(s, &base, pos);
        push_all(&mut out, &piece);
        match next {
            None => {
                assert(out@ =~= complex_class_assertions_materialized(s@));
                return out;
            },
            Some(np) => {
                pos = np;
            },
        }
    }
    assert(out@ =~= out@ + complex_walk(s@, base@, pos as int));
    out
}

} // verus!

verus! {

/// The scan of `element_block_end` from `pos` with `depth` elements open, for the open-tag
/// prefix `open` and the close tag `close`.
pub open spec fn block_scan(s: Seq<char>, open: Seq<char>, close: Seq<char>, pos: int, depth: nat) -> Option<
    int,
>
    decreases s.len() - pos,
{
    if pos < 0 || pos >= s.len() {
        None
    } else {
        match find_from(s, pos, seq!['<']) {
            None => None,
            Some(ts) => if ts < pos || ts >= s.len() {
                None
            } else if matches_at(s, ts, open) {
                match find_from(s, ts, seq!['>']) {
                    None => None,
                    Some(g) => {
                        let d = if g >= 1 && s[g - 1] == '/' {
                            depth
                        } else {
                            depth + 1
                        };
                        block_scan(s, open, close, ts + 1, d)
                    },
                }
            } else if matches_at(s, ts, close) {
                if depth <= 1 {
                    Some(ts + close.len())
                } else {
                    block_scan(s, open, close, ts + 1, (depth - 1) as nat)
                }
            } else {
                block_scan(s, open, close, ts + 1, depth)
            },
        }
    }
}

/// `element_block_end`: the end of the element opening at `start` with `<open_tag`, just after
/// the `close_tag` that balances it (nested non-self-closing elements with the same open tag
/// counted; the first open tag counted as open even when it closes itself).
pub open spec fn general_block_end(s: Seq<char>, start: int, open_tag: Seq<char>, close: Seq<char>) -> Option<
    int,
> {
    let open = seq!['<'] + open_tag;
    if !matches_at(s, start, open) {
        None
    } else {
        match find_from(s, start, seq!['>']) {
            None => None,
            Some(g) => block_scan(s, open, close, g + 1, 1),
        }
    }
}

/// The end of the element that opens at character index `start` of `input` with
/// `<open_tag`, just after the `close_tag` that balances it.
pub fn element_block_end(input: &str, start: usize, open_tag: &str, close_tag: &str) -> (r: Option<
    usize,
>)
    ensures
        opt_int(r) == general_block_end(input@, start as int, open_tag@, close_tag@),
{
    let s = chars_of(input);
    general_block_end_exec(&s, start, &chars_of(open_tag), &chars_of(close_tag))
}

/// `element_block_end` on character vectors.
pub fn general_block_end_exec(s: &Vec<char>, start: usize, open_tag: &Vec<char>, close: &Vec<char>) -> (r:
    Option<usize>)
    ensures
        opt_int(r) == general_block_end(s@, start as int, open_tag@, close@),
{
    let mut open: Vec<char> = vec!['<'];
    push_all(&mut open, open_tag);
    assert(open@ =~= seq!['<'] + open_tag@);
    if !crate::text::is_match_at(s, start, &open) {
        return None;
    }
    let lt: Vec<char> = vec!['<'];
    let gt: Vec<char> = vec!['>'];
    assert(lt@ =~= seq!['<']);
    assert(gt@ =~= seq!['>']);
    let g = match crate::text::find(s, start, &gt) {
        None => return None,
        Some(g) => g,
    };
    proof {
        lemma_find_from_bounds(s@, start as int, gt@);
        assert(g < s.len());
    }
    let mut depth: usize = 1;
    let mut pos = g + 1;
    while pos < s.len()
        invariant
            1 <= depth <= pos,
            pos <= s.len(),
            lt@ == seq!['<'],
            gt@ == seq!['>'],
            open@ == seq!['<'] + open_tag@,
            general_block_end(s@, start as int, open_tag@, close@) == block_scan(
                s@,
                open@,
                close@,
                pos as int,
                depth as nat,
            ),
        decreases s.len() - pos,
    {
        let ts = match crate::text::find(s, pos, &lt) {
            None => return None,
            Some(t) => t,
        };
        proof {
            lemma_find_from_bounds(s@, pos as int, lt@);
        }
        if ts >= s.len() {
            return None;
        }
        if crate::text::is_match_at(s, ts, &open) {
            let g2 = match crate::text::find(s, ts, &gt) {
                None => return None,
                Some(g) => g,
            };
            proof {
                lemma_find_from_bounds(s@, ts as int, gt@);
                assert(g2 < s.len());
            }
            if !(g2 >= 1 && s[g2 - 1] == '/') {
                depth += 1;
            }
        } else if crate::text::is_match_at(s, ts, close) {
            if depth <= 1 {
                return Some(ts + close.len());
            }
            depth -= 1;
        }
        pos = ts + 1;
    }
    None
}

} // verus!

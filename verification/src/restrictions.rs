//! OWL restrictions in RDF/XML rendered as OWL functional-syntax class expressions.
use vstd::prelude::*;

use crate::ofn_terms::{after_last_hash, entity_ref, ofn_entity_ref, qualify_typed_literal_for_supplement, typed_literal};
use crate::punning::{datatype_fallback, datatype_fallback_exec};
use crate::text::{at_lit, chars_of, contains, contains_lit, copy, ends_with, find, find_from, lemma_find_from_bounds, lemma_rfind_bounds, lemma_skip_ws_back_bounds, lemma_skip_ws_bounds, push_all, push_str, rfind, rfind_exec, slice, starts_with, trim, trim_end, trim_end_exec, trim_exec, trim_start, trim_start_exec};
use crate::xml::{attribute, close_of, element_inner, element_inner_lit, extract_attribute, find_top_level_lit, open_close, open_of, resolve_iri, resolve_relative_iri, top_level_element};

verus! {

pub proof fn lemma_trim_len(x: Seq<char>)
    ensures
        trim(x).len() <= x.len(),
{
    lemma_skip_ws_bounds(x, 0);
    let t = trim_start(x);
    lemma_skip_ws_back_bounds(t, t.len() as int);
}

pub proof fn lemma_element_inner_shorter(block: Seq<char>, tag: Seq<char>)
    ensures
        element_inner(block, tag).len() == 0 || element_inner(block, tag).len() < block.len(),
{
    let open = open_of(tag);
    if starts_with(trim_start(block), open) {
        let start = match find_from(block, 0, open) {
            Some(i) => i,
            None => 0,
        };
        lemma_find_from_bounds(block, 0, open);
        match crate::xml::tagged_end(block, start, tag) {
            None => {},
            Some(end) => {
                lemma_find_from_bounds(block, start, seq!['>']);
                let open_end = match find_from(block, start, seq!['>']) {
                    Some(g) => g + 1,
                    None => start,
                };
                let cs = match rfind(block.subrange(start, end), close_of(tag)) {
                    Some(r) => start + r,
                    None => start + end,
                };
                if open_end <= cs && cs <= block.len() {
                    assert(open_end >= 1);
                    lemma_trim_len(block.subrange(open_end, cs));
                }
            },
        }
    }
}

/// `element_text_content`: the trimmed text between the open and close tags of the top-level
/// element named `tag`.
pub open spec fn text_content(block: Seq<char>, tag: Seq<char>) -> Option<Seq<char>> {
    match top_level_element(block, tag) {
        None => None,
        Some((a, e)) => {
            let elem = block.subrange(a, e);
            match find_from(elem, 0, seq!['>']) {
                None => None,
                Some(oe) => match rfind(elem, close_of(tag)) {
                    None => None,
                    Some(cs) => if cs < oe + 1 {
                        None
                    } else {
                        Some(trim(elem.subrange(oe + 1, cs)))
                    },
                },
            }
        },
    }
}

/// `element_text_content` on a character vector, with the tag as a string.
pub fn text_content_lit(block: &Vec<char>, tag: &str) -> (r: Option<Vec<char>>)
    ensures
        match r {
            Some(v) => text_content(block@, tag@) == Some(v@),
            None => text_content(block@, tag@) is None,
        },
{
    let t = chars_of(tag);
    let (a, e) = match crate::xml::find_top_level_element(block, &t) {
        None => return None,
        Some(b) => b,
    };
    let elem = slice(block, a, e);
    let gt: Vec<char> = vec!['>'];
    assert(gt@ =~= seq!['>']);
    let oe = match find(&elem, 0, &gt) {
        None => return None,
        Some(o) => o,
    };
    proof {
        lemma_find_from_bounds(elem@, 0, gt@);
        assert(oe < elem.len());
    }
    let (_, close) = open_close(&t);
    let cs = match rfind_exec(&elem, &close) {
        None => return None,
        Some(c) => c,
    };
    proof {
        lemma_rfind_bounds(elem@, close@);
    }
    if cs < oe + 1 {
        return None;
    }
    Some(trim_exec(&slice(&elem, oe + 1, cs)))
}

/// `extract_property_resource`: the property that the first `tag` element names, by
/// `rdf:resource` on its open tag, or by the `rdf:about` (or `rdf:ID`) of an
/// `owl:ObjectProperty` / `owl:DatatypeProperty` element inside it.
pub open spec fn property_resource(block: Seq<char>, tag: Seq<char>, base: Seq<char>) -> Option<
    Seq<char>,
> {
    match find_from(block, 0, open_of(tag)) {
        None => None,
        Some(idx) => {
            let rest = block.subrange(idx, block.len() as int);
            match find_from(rest, 0, seq!['>']) {
                None => None,
                Some(gt) => {
                    let open = rest.subrange(0, gt + 1);
                    match attribute(open, "rdf:resource"@) {
                        Some(r) => Some(resolve_iri(r, base)),
                        None => if ends_with(trim_end(open), "/>"@) {
                            None
                        } else {
                            match find_from(rest, 0, close_of(tag)) {
                                None => None,
                                Some(cs) => if cs < gt + 1 {
                                    None
                                } else {
                                    let inner = trim(rest.subrange(gt + 1, cs));
                                    if contains(inner, "owl:ObjectProperty"@) || contains(
                                        inner,
                                        "owl:DatatypeProperty"@,
                                    ) {
                                        match attribute(inner, "rdf:about"@) {
                                            Some(a) => Some(resolve_iri(a, base)),
                                            None => match attribute(inner, "rdf:ID"@) {
                                                Some(id) => Some(base + seq!['#'] + id),
                                                None => None,
                                            },
                                        }
                                    } else {
                                        None
                                    }
                                },
                            }
                        },
                    }
                },
            }
        },
    }
}

/// `extract_property_resource`.
pub fn extract_property_resource(block: &Vec<char>, tag: &str, base: &Vec<char>) -> (r: Option<
    Vec<char>,
>)
    ensures
        match r {
            Some(v) => property_resource(block@, tag@, base@) == Some(v@),
            None => property_resource(block@, tag@, base@) is None,
        },
{
    let t = chars_of(tag);
    let (open_t, close) = open_close(&t);
    let idx = match find(block, 0, &open_t) {
        None => return None,
        Some(i) => i,
    };
    proof {
        lemma_find_from_bounds(block@, 0, open_t@);
    }
    let rest = slice(block, idx, block.len());
    let gtv: Vec<char> = vec!['>'];
    assert(gtv@ =~= seq!['>']);
    let gt = match find(&rest, 0, &gtv) {
        None => return None,
        Some(g) => g,
    };
    proof {
        lemma_find_from_bounds(rest@, 0, gtv@);
        assert(gt < rest.len());
    }
    let open = slice(&rest, 0, gt + 1);
    if let Some(r) = extract_attribute(&open, "rdf:resource") {
        return Some(resolve_relative_iri(&r, base));
    }
    if crate::text::ends_with_exec(&trim_end_exec(&open), &chars_of("/>")) {
        return None;
    }
    let cs = match find(&rest, 0, &close) {
        None => return None,
        Some(c) => c,
    };
    proof {
        lemma_find_from_bounds(rest@, 0, close@);
    }
    if cs < gt + 1 {
        return None;
    }
    let inner = trim_exec(&slice(&rest, gt + 1, cs));
    if contains_lit(&inner, "owl:ObjectProperty") || contains_lit(&inner, "owl:DatatypeProperty") {
        if let Some(a) = extract_attribute(&inner, "rdf:about") {
            return Some(resolve_relative_iri(&a, base));
        }
        if let Some(id) = extract_attribute(&inner, "rdf:ID") {
            let mut out = copy(base);
            out.push('#');
            push_all(&mut out, &id);
            assert(out@ =~= base@ + seq!['#'] + id@);
            return Some(out);
        }
    }
    None
}

/// The body of the `owl:Restriction` that the block is, or holds at
/// top level; otherwise the block itself.
pub open spec fn restriction_body(block: Seq<char>) -> Seq<char> {
    let t = trim(block);
    if starts_with(t, "<owl:Restriction"@) {
        element_inner(t, "owl:Restriction"@)
    } else {
        match top_level_element(t, "owl:Restriction"@) {
            Some((a, e)) => element_inner(t.subrange(a, e), "owl:Restriction"@),
            None => block,
        }
    }
}

fn restriction_body_exec(block: &Vec<char>) -> (r: Vec<char>)
    ensures
        r@ == restriction_body(block@),
{
    let t = trim_exec(block);
    if at_lit(&t, 0, "<owl:Restriction") {
        return element_inner_lit(&t, "owl:Restriction");
    }
    match find_top_level_lit(&t, "owl:Restriction") {
        Some((a, e)) => element_inner_lit(&slice(&t, a, e), "owl:Restriction"),
        None => copy(block),
    }
}

} // verus!

verus! {

/// The typed literal of the top-level element named `tag`
/// (its `rdf:datatype`, resolved against `base`, and its text), looking inside an
/// `rdf:Description` for its `rdf:first`.
pub open spec fn data_literal_from(block: Seq<char>, tag: Seq<char>, base: Seq<char>) -> Option<
    Seq<char>,
>
    decreases block.len(),
{
    match top_level_element(block, tag) {
        None => None,
        Some((a, e)) => {
            let elem = block.subrange(a, e);
            match find_from(elem, 0, seq!['>']) {
                None => None,
                Some(oe) => match attribute(elem.subrange(0, oe + 1), "rdf:datatype"@) {
                    Some(dt) => match text_content(elem, tag) {
                        None => None,
                        Some(text) => Some(typed_literal(text, resolve_iri(dt, base))),
                    },
                    None => if tag == "rdf:Description"@ {
                        proof {
                            crate::xml::lemma_top_level_scan_bounds(block, tag, 0);
                            lemma_element_inner_shorter(elem, "rdf:Description"@);
                        }
                        data_literal_from(element_inner(elem, "rdf:Description"@), "rdf:first"@, base)
                    } else {
                        None
                    },
                },
            }
        },
    }
}

fn data_literal_from_exec(block: &Vec<char>, tag: &Vec<char>, base: &Vec<char>) -> (r: Option<
    Vec<char>,
>)
    ensures
        match r {
            Some(v) => data_literal_from(block@, tag@, base@) == Some(v@),
            None => data_literal_from(block@, tag@, base@) is None,
        },
    decreases block.len(),
{
    let (a, e) = match crate::xml::find_top_level_element(block, tag) {
        None => return None,
        Some(b) => b,
    };
    let elem = slice(block, a, e);
    let gtv: Vec<char> = vec!['>'];
    assert(gtv@ =~= seq!['>']);
    let oe = match find(&elem, 0, &gtv) {
        None => return None,
        Some(o) => o,
    };
    proof {
        lemma_find_from_bounds(elem@, 0, gtv@);
        assert(oe < elem.len());
    }
    let open = slice(&elem, 0, oe + 1);
    match extract_attribute(&open, "rdf:datatype") {
        Some(dt) => {
            let text = match text_content_exec(&elem, tag) {
                None => return None,
                Some(t) => t,
            };
            let dti = resolve_relative_iri(&dt, base);
            let (_, lit, _) = qualify_typed_literal_for_supplement(&text, &dti);
            Some(lit)
        },
        None => {
            if crate::xml::vec_eq(tag, &chars_of("rdf:Description")) {
                let inner = element_inner_lit(&elem, "rdf:Description");
                proof {
                    lemma_element_inner_shorter(elem@, "rdf:Description"@);
                }
                data_literal_from_exec(&inner, &chars_of("rdf:first"), base)
            } else {
                None
            }
        },
    }
}

/// `element_text_content` with the tag as a character vector.
pub(crate) fn text_content_exec(block: &Vec<char>, tag: &Vec<char>) -> (r: Option<Vec<char>>)
    ensures
        match r {
            Some(v) => text_content(block@, tag@) == Some(v@),
            None => text_content(block@, tag@) is None,
        },
{
    let (a, e) = match crate::xml::find_top_level_element(block, tag) {
        None => return None,
        Some(b) => b,
    };
    let elem = slice(block, a, e);
    let gt: Vec<char> = vec!['>'];
    assert(gt@ =~= seq!['>']);
    let oe = match find(&elem, 0, &gt) {
        None => return None,
        Some(o) => o,
    };
    proof {
        lemma_find_from_bounds(elem@, 0, gt@);
        assert(oe < elem.len());
    }
    let (_, close) = open_close(tag);
    let cs = match rfind_exec(&elem, &close) {
        None => return None,
        Some(c) => c,
    };
    proof {
        lemma_rfind_bounds(elem@, close@);
    }
    if cs < oe + 1 {
        return None;
    }
    Some(trim_exec(&slice(&elem, oe + 1, cs)))
}

/// The length of the open tag of a block: through its first `>`, or the whole block.
pub open spec fn open_tag_len(block: Seq<char>) -> int {
    match find_from(block, 0, seq!['>']) {
        Some(i) => i + 1,
        None => block.len() as int,
    }
}

fn open_tag_len_exec(block: &Vec<char>) -> (r: usize)
    ensures
        r as int == open_tag_len(block@),
        r <= block.len(),
{
    let gt: Vec<char> = vec!['>'];
    assert(gt@ =~= seq!['>']);
    match find(block, 0, &gt) {
        Some(i) => {
            proof {
                lemma_find_from_bounds(block@, 0, gt@);
                assert(i < block.len());
            }
            i + 1
        },
        None => block.len(),
    }
}

/// The `rdf:rest` element mentions `rdf:nil`, or its open tag's
/// `rdf:resource` mentions `nil`.
pub open spec fn rest_is_nil(rest_block: Seq<char>) -> bool {
    contains(rest_block, "rdf:nil"@) || match attribute(
        rest_block.subrange(0, open_tag_len(rest_block)),
        "rdf:resource"@,
    ) {
        Some(r) => contains(r, "nil"@),
        None => false,
    }
}

fn rest_is_nil_exec(rest_block: &Vec<char>) -> (b: bool)
    ensures
        b == rest_is_nil(rest_block@),
{
    if contains_lit(rest_block, "rdf:nil") {
        return true;
    }
    let n = open_tag_len_exec(rest_block);
    match extract_attribute(&slice(rest_block, 0, n), "rdf:resource") {
        Some(r) => contains_lit(&r, "nil"),
        None => false,
    }
}

/// The list that `list_literals` goes on with is shorter than the one it started from.
pub proof fn lemma_list_step_shorter(inner: Seq<char>)
    ensures
        ({
            let inner2 = if starts_with(trim_start(inner), "<rdf:Description"@) {
                element_inner(trim(inner), "rdf:Description"@)
            } else {
                inner
            };
            top_level_element(inner2, "rdf:rest"@) matches Some((a, e)) ==> element_inner(
                inner2.subrange(a, e),
                "rdf:rest"@,
            ).len() < inner.len()
        }),
{
    let inner2 = if starts_with(trim_start(inner), "<rdf:Description"@) {
        element_inner(trim(inner), "rdf:Description"@)
    } else {
        inner
    };
    lemma_trim_len(inner);
    lemma_element_inner_shorter(trim(inner), "rdf:Description"@);
    assert(inner2.len() <= inner.len());
    crate::xml::lemma_top_level_scan_bounds(inner2, "rdf:rest"@, 0);
    if let Some((a, e)) = top_level_element(inner2, "rdf:rest"@) {
        lemma_element_inner_shorter(inner2.subrange(a, e), "rdf:rest"@);
    }
}

/// The literals of an RDF list of data values, following
/// `rdf:rest` until `rdf:nil`.
pub open spec fn list_literals(inner: Seq<char>, base: Seq<char>) -> Seq<Seq<char>>
    decreases inner.len(),
{
    let inner2 = if starts_with(trim_start(inner), "<rdf:Description"@) {
        element_inner(trim(inner), "rdf:Description"@)
    } else {
        inner
    };
    let head = match data_literal_from(inner2, "rdf:first"@, base) {
        Some(l) => seq![l],
        None => Seq::empty(),
    };
    match top_level_element(inner2, "rdf:rest"@) {
        None => head,
        Some((a, e)) => {
            let rest_block = inner2.subrange(a, e);
            if rest_is_nil(rest_block) {
                head
            } else {
                proof {
                    lemma_list_step_shorter(inner);
                }
                head + list_literals(element_inner(rest_block, "rdf:rest"@), base)
            }
        },
    }
}

fn list_literals_exec(inner: &Vec<char>, base: &Vec<char>) -> (r: Vec<Vec<char>>)
    ensures
        crate::ids::views(r@) == list_literals(inner@, base@),
    decreases inner.len(),
{
    let ts = trim_start_exec(inner);
    let inner2 = if at_lit(&ts, 0, "<rdf:Description") {
        element_inner_lit(&trim_exec(inner), "rdf:Description")
    } else {
        copy(inner)
    };
    let mut out: Vec<Vec<char>> = Vec::new();
    if let Some(l) = data_literal_from_exec(&inner2, &chars_of("rdf:first"), base) {
        out.push(l);
    }
    let ghost head = crate::ids::views(out@);
    assert(head =~= match data_literal_from(inner2@, "rdf:first"@, base@) {
        Some(l) => seq![l],
        None => Seq::<Seq<char>>::empty(),
    });
    let (a, e) = match find_top_level_lit(&inner2, "rdf:rest") {
        None => return out,
        Some(b) => b,
    };
    let rest_block = slice(&inner2, a, e);
    if rest_is_nil_exec(&rest_block) {
        return out;
    }
    let next = element_inner_lit(&rest_block, "rdf:rest");
    proof {
        lemma_list_step_shorter(inner@);
    }
    let tail = list_literals_exec(&next, base);
    let mut k: usize = 0;
    while k < tail.len()
        invariant
            k <= tail.len(),
            crate::ids::views(out@) == head + crate::ids::views(tail@).take(k as int),
        decreases tail.len() - k,
    {
        let ghost cur = crate::ids::views(out@);
        out.push(copy(&tail[k]));
        proof {
            assert(crate::ids::views(tail@).take(k + 1) =~= crate::ids::views(tail@).take(
                k as int,
            ).push(tail@[k as int]@));
            assert(crate::ids::views(out@) =~= cur.push(tail@[k as int]@));
        }
        k += 1;
    }
    assert(crate::ids::views(tail@).take(tail.len() as int) =~= crate::ids::views(tail@));
    out
}

} // verus!

verus! {

/// The items of `l` joined by single spaces.
pub open spec fn join_spaced(l: Seq<Seq<char>>) -> Seq<char>
    decreases l.len(),
{
    if l.len() == 0 {
        Seq::empty()
    } else if l.len() == 1 {
        l[0]
    } else {
        join_spaced(l.drop_last()) + seq![' '] + l.last()
    }
}

pub(crate) fn join_spaced_exec(l: &Vec<Vec<char>>) -> (r: Vec<char>)
    ensures
        r@ == join_spaced(crate::ids::views(l@)),
{
    let ghost v = crate::ids::views(l@);
    let mut out: Vec<char> = Vec::new();
    let mut i: usize = 0;
    while i < l.len()
        invariant
            i <= l.len(),
            v == crate::ids::views(l@),
            out@ == join_spaced(v.take(i as int)),
        decreases l.len() - i,
    {
        let ghost before = out@;
        if i > 0 {
            out.push(' ');
        }
        push_all(&mut out, &l[i]);
        proof {
            assert(v[i as int] == l@[i as int]@);
            assert(v.take(i + 1).drop_last() =~= v.take(i as int));
            assert(v.take(i + 1).last() == v[i as int]);
            if i == 0 {
                assert(v.take(0) =~= Seq::<Seq<char>>::empty());
                assert(out@ =~= v[0]);
            } else {
                assert(out@ =~= before + seq![' '] + v[i as int]);
            }
        }
        i += 1;
    }
    assert(v.take(l.len() as int) =~= v);
    out
}

/// The literals of the top-level `owl:oneOf` list, when there are any.
pub open spec fn one_of_literals(inner: Seq<char>, base: Seq<char>) -> Option<Seq<Seq<char>>> {
    match top_level_element(inner, "owl:oneOf"@) {
        None => None,
        Some((a, e)) => {
            let l = list_literals(element_inner(inner.subrange(a, e), "owl:oneOf"@), base);
            if l.len() == 0 {
                None
            } else {
                Some(l)
            }
        },
    }
}

/// The data range of the top-level `owl:allValuesFrom` — the datatype it
/// names by `rdf:resource`, or `DataOneOf(...)` of the literals of its `owl:oneOf`.
pub open spec fn data_range(ce: Seq<char>, base: Seq<char>) -> Option<Seq<char>> {
    match top_level_element(ce, "owl:allValuesFrom"@) {
        None => None,
        Some((a, e)) => {
            let avf = ce.subrange(a, e);
            let inner0 = element_inner(avf, "owl:allValuesFrom"@);
            let inner = if contains(inner0, "rdfs:Datatype"@) || contains(inner0, "<Datatype"@) {
                match top_level_element(inner0, "rdfs:Datatype"@) {
                    Some((c, d)) => element_inner(inner0.subrange(c, d), "rdfs:Datatype"@),
                    None => inner0,
                }
            } else {
                inner0
            };
            match attribute(avf.subrange(0, open_tag_len(avf)), "rdf:resource"@) {
                Some(r) => Some(entity_ref(resolve_iri(r, base))),
                None => if contains(inner, "owl:oneOf"@) {
                    match one_of_literals(inner, base) {
                        None => None,
                        Some(l) => Some("DataOneOf("@ + join_spaced(l) + seq![')']),
                    }
                } else {
                    None
                },
            }
        },
    }
}

fn data_range_exec(ce: &Vec<char>, base: &Vec<char>) -> (r: Option<Vec<char>>)
    ensures
        match r {
            Some(v) => data_range(ce@, base@) == Some(v@),
            None => data_range(ce@, base@) is None,
        },
{
    let (a, e) = match find_top_level_lit(ce, "owl:allValuesFrom") {
        None => return None,
        Some(b) => b,
    };
    let avf = slice(ce, a, e);
    let inner0 = element_inner_lit(&avf, "owl:allValuesFrom");
    let inner = if contains_lit(&inner0, "rdfs:Datatype") || contains_lit(&inner0, "<Datatype") {
        match find_top_level_lit(&inner0, "rdfs:Datatype") {
            Some((c, d)) => element_inner_lit(&slice(&inner0, c, d), "rdfs:Datatype"),
            None => inner0,
        }
    } else {
        inner0
    };
    let n = open_tag_len_exec(&avf);
    if let Some(r) = extract_attribute(&slice(&avf, 0, n), "rdf:resource") {
        return Some(ofn_entity_ref(&resolve_relative_iri(&r, base)));
    }
    if !contains_lit(&inner, "owl:oneOf") {
        return None;
    }
    let (oa, oe) = match find_top_level_lit(&inner, "owl:oneOf") {
        None => return None,
        Some(b) => b,
    };
    let l = list_literals_exec(&element_inner_lit(&slice(&inner, oa, oe), "owl:oneOf"), base);
    if l.len() == 0 {
        return None;
    }
    let mut out = chars_of("DataOneOf(");
    push_all(&mut out, &join_spaced_exec(&l));
    out.push(')');
    Some(out)
}

/// The typed value of the top-level `owl:hasValue`, written
/// `"text"^^xsd:local` with the local name of its datatype.
pub open spec fn data_has_value(ce: Seq<char>, base: Seq<char>) -> Option<Seq<char>> {
    match top_level_element(ce, "owl:hasValue"@) {
        None => None,
        Some((a, e)) => {
            let hv = ce.subrange(a, e);
            match find_from(hv, 0, seq!['>']) {
                None => None,
                Some(oe) => match attribute(hv.subrange(0, oe + 1), "rdf:datatype"@) {
                    None => None,
                    Some(lex) => match text_content(hv, "owl:hasValue"@) {
                        None => None,
                        Some(text) => Some(
                            seq!['"'] + text + "\"^^xsd:"@ + after_last_hash(resolve_iri(lex, base)),
                        ),
                    },
                },
            }
        },
    }
}

fn data_has_value_exec(ce: &Vec<char>, base: &Vec<char>) -> (r: Option<Vec<char>>)
    ensures
        match r {
            Some(v) => data_has_value(ce@, base@) == Some(v@),
            None => data_has_value(ce@, base@) is None,
        },
{
    let (a, e) = match find_top_level_lit(ce, "owl:hasValue") {
        None => return None,
        Some(b) => b,
    };
    let hv = slice(ce, a, e);
    let gt: Vec<char> = vec!['>'];
    assert(gt@ =~= seq!['>']);
    let oe = match find(&hv, 0, &gt) {
        None => return None,
        Some(o) => o,
    };
    proof {
        lemma_find_from_bounds(hv@, 0, gt@);
        assert(oe < hv.len());
    }
    let lex = match extract_attribute(&slice(&hv, 0, oe + 1), "rdf:datatype") {
        None => return None,
        Some(l) => l,
    };
    let text = match text_content_lit(&hv, "owl:hasValue") {
        None => return None,
        Some(t) => t,
    };
    let dt = resolve_relative_iri(&lex, base);
    let mut out: Vec<char> = vec!['"'];
    push_all(&mut out, &text);
    push_str(&mut out, "\"^^xsd:");
    push_all(&mut out, &crate::ofn_terms::after_last_hash_exec(&dt));
    assert(out@ =~= seq!['"'] + text@ + "\"^^xsd:"@ + after_last_hash(dt@));
    Some(out)
}

/// The views of a list of strings.
pub open spec fn string_views(v: Seq<String>) -> Seq<Seq<char>> {
    v.map_values(|x: String| x@)
}

/// `data_restriction_ce_to_ofn`: a restriction on a data property (one of `dt_props`, or one
/// whose local name is `dp`) as an OFN data class expression — `DataAllValuesFrom`, then
/// `DataMaxCardinality`, `DataMinCardinality`, `DataExactCardinality`, `DataHasValue`, the
/// first that applies.
pub open spec fn data_restriction(ce: Seq<char>, base: Seq<char>, dt_props: Seq<Seq<char>>) -> Option<
    Seq<char>,
> {
    let body = restriction_body(ce);
    if !contains(body, "owl:onProperty"@) {
        None
    } else {
        match property_resource(body, "owl:onProperty"@, base) {
            None => None,
            Some(on) => if !dt_props.contains(on) && !datatype_fallback(on) {
                None
            } else {
                match data_range(body, base) {
                    Some(r) => Some("DataAllValuesFrom(<"@ + on + "> "@ + r + seq![')']),
                    None => match text_content(body, "owl:maxCardinality"@) {
                        Some(n) => Some("DataMaxCardinality("@ + trim(n) + " <"@ + on + ">)"@),
                        None => match text_content(body, "owl:minCardinality"@) {
                            Some(n) => Some("DataMinCardinality("@ + trim(n) + " <"@ + on + ">)"@),
                            None => match text_content(body, "owl:cardinality"@) {
                                Some(n) => Some(
                                    "DataExactCardinality("@ + trim(n) + " <"@ + on + ">)"@,
                                ),
                                None => match data_has_value(body, base) {
                                    Some(v) => Some("DataHasValue(<"@ + on + "> "@ + v + seq![')']),
                                    None => None,
                                },
                            },
                        },
                    },
                }
            },
        }
    }
}

/// Character vectors of a list of strings.
fn string_vectors(v: &Vec<String>) -> (r: Vec<Vec<char>>)
    ensures
        crate::ids::views(r@) == string_views(v@),
{
    let mut out: Vec<Vec<char>> = Vec::new();
    let mut i: usize = 0;
    while i < v.len()
        invariant
            i <= v.len(),
            crate::ids::views(out@) == string_views(v@).take(i as int),
        decreases v.len() - i,
    {
        let ghost cur = crate::ids::views(out@);
        out.push(chars_of(v[i].as_str()));
        proof {
            assert(string_views(v@).take(i + 1) =~= string_views(v@).take(i as int).push(
                v@[i as int]@,
            ));
            assert(crate::ids::views(out@) =~= cur.push(v@[i as int]@));
        }
        i += 1;
    }
    assert(string_views(v@).take(v.len() as int) =~= string_views(v@));
    out
}

/// Cardinality form `{head}{n} <{on}>)`, `head` being the expression's name and `(`.
fn cardinality_ofn(head: &str, n: &Vec<char>, on: &Vec<char>) -> (r: Vec<char>)
    ensures
        r@ == head@ + trim(n@) + " <"@ + on@ + ">)"@,
{
    let mut out = chars_of(head);
    push_all(&mut out, &trim_exec(n));
    push_str(&mut out, " <");
    push_all(&mut out, on);
    push_str(&mut out, ">)");
    out
}

/// A restriction on a data property as an OWL functional-syntax class expression.
pub fn data_restriction_ce_to_ofn(ce_block: &str, base: &str, dt_props: &Vec<String>) -> (r: Option<
    String,
>)
    ensures
        match r {
            Some(v) => data_restriction(ce_block@, base@, string_views(dt_props@)) == Some(v@),
            None => data_restriction(ce_block@, base@, string_views(dt_props@)) is None,
        },
{
    let ce = chars_of(ce_block);
    let b = chars_of(base);
    let dts = string_vectors(dt_props);
    match data_restriction_chars(&ce, &b, &dts) {
        Some(v) => Some(crate::text::string_of(&v)),
        None => None,
    }
}

/// `data_restriction_ce_to_ofn` on character vectors.
pub fn data_restriction_chars(ce: &Vec<char>, base: &Vec<char>, dt_props: &Vec<Vec<char>>) -> (r:
    Option<Vec<char>>)
    ensures
        match r {
            Some(v) => data_restriction(ce@, base@, crate::ids::views(dt_props@)) == Some(v@),
            None => data_restriction(ce@, base@, crate::ids::views(dt_props@)) is None,
        },
{
    let body = restriction_body_exec(ce);
    if !contains_lit(&body, "owl:onProperty") {
        return None;
    }
    let on = match extract_property_resource(&body, "owl:onProperty", base) {
        None => return None,
        Some(o) => o,
    };
    if !crate::ids::list_contains(dt_props, &on) && !datatype_fallback_exec(&on) {
        return None;
    }
    if let Some(r) = data_range_exec(&body, base) {
        let mut out = chars_of("DataAllValuesFrom(<");
        push_all(&mut out, &on);
        push_str(&mut out, "> ");
        push_all(&mut out, &r);
        out.push(')');
        return Some(out);
    }
    if let Some(n) = text_content_lit(&body, "owl:maxCardinality") {
        return Some(cardinality_ofn("DataMaxCardinality(", &n, &on));
    }
    if let Some(n) = text_content_lit(&body, "owl:minCardinality") {
        return Some(cardinality_ofn("DataMinCardinality(", &n, &on));
    }
    if let Some(n) = text_content_lit(&body, "owl:cardinality") {
        return Some(cardinality_ofn("DataExactCardinality(", &n, &on));
    }
    if let Some(v) = data_has_value_exec(&body, base) {
        let mut out = chars_of("DataHasValue(<");
        push_all(&mut out, &on);
        push_str(&mut out, "> ");
        push_all(&mut out, &v);
        out.push(')');
        return Some(out);
    }
    None
}

} // verus!

verus! {

/// `restriction_ce_to_ofn`: a restriction on an object property (not one of `dt_props`) as an
/// OFN class expression — `ObjectSomeValuesFrom`, `ObjectAllValuesFrom`, `ObjectMaxCardinality`
/// (plain or qualified), `ObjectMinCardinality`, `ObjectHasSelf`, `ObjectHasValue`, the first
/// that applies; cardinalities are read from the body of the restriction.  Blocks about data
/// ranges are left out.
pub open spec fn object_restriction(ce: Seq<char>, base: Seq<char>, dt_props: Seq<Seq<char>>) -> Option<
    Seq<char>,
>
    decreases ce.len(), 1int,
{
    if !contains(ce, "<owl:Restriction"@) {
        None
    } else if contains(ce, "rdfs:Datatype"@) || contains(ce, "owl:onDatatype"@) {
        None
    } else {
        match property_resource(ce, "owl:onProperty"@, base) {
            None => None,
            Some(on) => if dt_props.contains(on) {
                None
            } else {
                match filler(ce, "owl:someValuesFrom"@, base) {
                    Some(f) => Some("ObjectSomeValuesFrom(<"@ + on + "> "@ + f + seq![')']),
                    None => match filler(ce, "owl:allValuesFrom"@, base) {
                        Some(f) => Some("ObjectAllValuesFrom(<"@ + on + "> "@ + f + seq![')']),
                        None => match text_content(restriction_body(ce), "owl:maxCardinality"@) {
                            Some(n) => Some(
                                "ObjectMaxCardinality("@ + trim(n) + " <"@ + on + "> owl:Thing)"@,
                            ),
                            None => match text_content(
                                restriction_body(ce),
                                "owl:maxQualifiedCardinality"@,
                            ) {
                                Some(n) => Some(
                                    "ObjectMaxCardinality("@ + trim(n) + " <"@ + on + "> "@
                                        + match property_resource(ce, "owl:onClass"@, base) {
                                        Some(c) => seq!['<'] + c + seq!['>'],
                                        None => "owl:Thing"@,
                                    } + seq![')'],
                                ),
                                None => match text_content(
                                    restriction_body(ce),
                                    "owl:minCardinality"@,
                                ) {
                                    Some(n) => Some(
                                        "ObjectMinCardinality("@ + trim(n) + " <"@ + on
                                            + "> owl:Thing)"@,
                                    ),
                                    None => if contains(ce, "owl:hasSelf"@) {
                                        Some("ObjectHasSelf(<"@ + on + ">)"@)
                                    } else {
                                        match filler(ce, "owl:hasValue"@, base) {
                                            Some(v) => Some(
                                                "ObjectHasValue(<"@ + on + "> "@ + v + seq![')'],
                                            ),
                                            None => None,
                                        }
                                    },
                                },
                            },
                        },
                    },
                }
            },
        }
    }
}

/// The filler of the first `tag` element — the class it names by
/// `rdf:resource`, or the restriction inside it.
pub open spec fn filler(block: Seq<char>, tag: Seq<char>, base: Seq<char>) -> Option<Seq<char>>
    decreases block.len(), 0int,
{
    match find_from(block, 0, open_of(tag)) {
        None => None,
        Some(idx) => if idx < 0 || idx > block.len() {
            None
        } else {
            let rest = block.subrange(idx, block.len() as int);
            match find_from(rest, 0, seq!['>']) {
                None => None,
                Some(gt) => if gt < 0 || gt >= rest.len() {
                    None
                } else {
                    let open = rest.subrange(0, gt + 1);
                    match attribute(open, "rdf:resource"@) {
                        Some(r) => Some(entity_ref(resolve_iri(r, base))),
                        None => if ends_with(trim_end(open), "/>"@) {
                            None
                        } else {
                            match find_from(rest, 0, close_of(tag)) {
                                None => None,
                                Some(cs) => if cs < gt + 1 || cs > rest.len() {
                                    None
                                } else {
                                    proof {
                                        lemma_trim_len(rest.subrange(gt + 1, cs));
                                    }
                                    object_restriction(
                                        trim(rest.subrange(gt + 1, cs)),
                                        base,
                                        Seq::empty(),
                                    )
                                },
                            }
                        },
                    }
                },
            }
        },
    }
}

pub(crate) fn filler_exec(block: &Vec<char>, tag: &str, base: &Vec<char>) -> (r: Option<Vec<char>>)
    ensures
        match r {
            Some(v) => filler(block@, tag@, base@) == Some(v@),
            None => filler(block@, tag@, base@) is None,
        },
    decreases block.len(), 0int,
{
    let t = chars_of(tag);
    let (open_t, close) = open_close(&t);
    let idx = match find(block, 0, &open_t) {
        None => return None,
        Some(i) => i,
    };
    proof {
        lemma_find_from_bounds(block@, 0, open_t@);
    }
    let rest = slice(block, idx, block.len());
    let gtv: Vec<char> = vec!['>'];
    assert(gtv@ =~= seq!['>']);
    let gt = match find(&rest, 0, &gtv) {
        None => return None,
        Some(g) => g,
    };
    proof {
        lemma_find_from_bounds(rest@, 0, gtv@);
        assert(gt < rest.len());
    }
    let open = slice(&rest, 0, gt + 1);
    if let Some(r) = extract_attribute(&open, "rdf:resource") {
        return Some(ofn_entity_ref(&resolve_relative_iri(&r, base)));
    }
    if crate::text::ends_with_exec(&trim_end_exec(&open), &chars_of("/>")) {
        return None;
    }
    let cs = match find(&rest, 0, &close) {
        None => return None,
        Some(c) => c,
    };
    proof {
        lemma_find_from_bounds(rest@, 0, close@);
    }
    if cs < gt + 1 {
        return None;
    }
    let inner = trim_exec(&slice(&rest, gt + 1, cs));
    proof {
        lemma_trim_len(rest@.subrange(gt + 1, cs as int));
    }
    let empty: Vec<Vec<char>> = Vec::new();
    assert(crate::ids::views(empty@) =~= Seq::<Seq<char>>::empty());
    object_restriction_chars(&inner, base, &empty)
}

/// `restriction_ce_to_ofn` on character vectors.
pub fn object_restriction_chars(ce: &Vec<char>, base: &Vec<char>, dt_props: &Vec<Vec<char>>) -> (r:
    Option<Vec<char>>)
    ensures
        match r {
            Some(v) => object_restriction(ce@, base@, crate::ids::views(dt_props@)) == Some(v@),
            None => object_restriction(ce@, base@, crate::ids::views(dt_props@)) is None,
        },
    decreases ce.len(), 1int,
{
    if !contains_lit(ce, "<owl:Restriction") {
        return None;
    }
    if contains_lit(ce, "rdfs:Datatype") || contains_lit(ce, "owl:onDatatype") {
        return None;
    }
    let on = match extract_property_resource(ce, "owl:onProperty", base) {
        None => return None,
        Some(o) => o,
    };
    if crate::ids::list_contains(dt_props, &on) {
        return None;
    }
    if let Some(f) = filler_exec(ce, "owl:someValuesFrom", base) {
        let mut out = chars_of("ObjectSomeValuesFrom(<");
        push_all(&mut out, &on);
        push_str(&mut out, "> ");
        push_all(&mut out, &f);
        out.push(')');
        return Some(out);
    }
    if let Some(f) = filler_exec(ce, "owl:allValuesFrom", base) {
        let mut out = chars_of("ObjectAllValuesFrom(<");
        push_all(&mut out, &on);
        push_str(&mut out, "> ");
        push_all(&mut out, &f);
        out.push(')');
        return Some(out);
    }
    let body = restriction_body_exec(ce);
    if let Some(n) = text_content_lit(&body, "owl:maxCardinality") {
        let mut out = chars_of("ObjectMaxCardinality(");
        push_all(&mut out, &trim_exec(&n));
        push_str(&mut out, " <");
        push_all(&mut out, &on);
        push_str(&mut out, "> owl:Thing)");
        return Some(out);
    }
    if let Some(n) = text_content_lit(&body, "owl:maxQualifiedCardinality") {
        let f = match extract_property_resource(ce, "owl:onClass", base) {
            Some(c) => {
                let mut x: Vec<char> = vec!['<'];
                push_all(&mut x, &c);
                x.push('>');
                assert(x@ =~= seq!['<'] + c@ + seq!['>']);
                x
            },
            None => chars_of("owl:Thing"),
        };
        let mut out = chars_of("ObjectMaxCardinality(");
        push_all(&mut out, &trim_exec(&n));
        push_str(&mut out, " <");
        push_all(&mut out, &on);
        push_str(&mut out, "> ");
        push_all(&mut out, &f);
        out.push(')');
        return Some(out);
    }
    if let Some(n) = text_content_lit(&body, "owl:minCardinality") {
        let mut out = chars_of("ObjectMinCardinality(");
        push_all(&mut out, &trim_exec(&n));
        push_str(&mut out, " <");
        push_all(&mut out, &on);
        push_str(&mut out, "> owl:Thing)");
        return Some(out);
    }
    if contains_lit(ce, "owl:hasSelf") {
        let mut out = chars_of("ObjectHasSelf(<");
        push_all(&mut out, &on);
        push_str(&mut out, ">)");
        return Some(out);
    }
    if let Some(v) = filler_exec(ce, "owl:hasValue", base) {
        let mut out = chars_of("ObjectHasValue(<");
        push_all(&mut out, &on);
        push_str(&mut out, "> ");
        push_all(&mut out, &v);
        out.push(')');
        return Some(out);
    }
    None
}

/// A restriction on an object property as an OWL functional-syntax class expression.
pub fn restriction_ce_to_ofn(ce_block: &str, base: &str, dt_props: &Vec<String>) -> (r: Option<
    String,
>)
    ensures
        match r {
            Some(v) => object_restriction(ce_block@, base@, string_views(dt_props@)) == Some(v@),
            None => object_restriction(ce_block@, base@, string_views(dt_props@)) is None,
        },
{
    let ce = chars_of(ce_block);
    let b = chars_of(base);
    let dts = string_vectors(dt_props);
    match object_restriction_chars(&ce, &b, &dts) {
        Some(v) => Some(crate::text::string_of(&v)),
        None => None,
    }
}

} // verus!

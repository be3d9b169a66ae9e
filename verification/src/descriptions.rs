//! `rdf:Description` elements: where they end, and naming the individuals they describe.
use vstd::prelude::*;

use crate::text::{chars_of, contains, contains_lit, copy, decimal, ends_with, find_from, lemma_no_straddle_at_tag, lemma_no_straddle_first, lemma_replace_absent, lemma_replace_all_first, lemma_replace_from_last, lemma_replace_from_split, replace_all, replace_from, find_lit, index_of_exec, lemma_find_from_bounds, lemma_rfind_bounds, matches_at, opt_int, push_all, push_decimal, push_range, push_str, replace_first, replace_first_exec, rfind, slice, starts_with, string_of, strip_suffix_all, strip_suffix_all_exec, strip_trailing, strip_trailing_exec, trim, trim_end, trim_end_exec, trim_exec, at_lit};
use crate::xml::{attribute, extract_attribute, find_top_level_lit, parse_xml_base, lemma_tagged_scan_after, tagged_scan, tagged_scan_from, top_level_element, xml_base};

verus! {

/// `description_element_end`: the end of the `rdf:Description` element at `start` — just after
/// the first `/>` when the open tag closes itself, else just after the first
/// `</rdf:Description>`.
pub open spec fn desc_end(s: Seq<char>, start: int) -> Option<int> {
    match find_from(s, start, "/>"@) {
        Some(k) if k > start && matches_at(s, start, "<rdf:Description"@) && !contains(
            s.subrange(start + 1, k),
            seq!['<'],
        ) => Some(k + 2),
        _ => match find_from(s, start, "</rdf:Description>"@) {
            Some(c) => Some(c + 18),
            None => None,
        },
    }
}

pub proof fn lemma_desc_end_after(s: Seq<char>, start: int)
    requires
        0 <= start <= s.len(),
    ensures
        desc_end(s, start) matches Some(e) ==> start < e <= s.len(),
{
    lemma_find_from_bounds(s, start, "/>"@);
    lemma_find_from_bounds(s, start, "</rdf:Description>"@);
    reveal_strlit("/>");
    reveal_strlit("</rdf:Description>");
}

/// `description_element_end` on a character vector.
pub fn desc_end_chars(s: &Vec<char>, start: usize) -> (r: Option<usize>)
    requires
        start <= s.len(),
    ensures
        opt_int(r) == desc_end(s@, start as int),
{
    proof {
        reveal_strlit("/>");
        reveal_strlit("</rdf:Description>");
    }
    if let Some(k) = find_lit(s, start, "/>") {
        proof {
            lemma_find_from_bounds(s@, start as int, "/>"@);
        }
        if k > start && at_lit(s, start, "<rdf:Description") {
            let between = slice(s, start + 1, k);
            if !contains_lit(&between, "<") {
                proof {
                    reveal_strlit("<");
                    assert("<"@ =~= seq!['<']);
                }
                return Some(k + 2);
            }
            proof {
                reveal_strlit("<");
                assert("<"@ =~= seq!['<']);
            }
        }
    }
    match find_lit(s, start, "</rdf:Description>") {
        None => None,
        Some(c) => {
            proof {
                lemma_find_from_bounds(s@, start as int, "</rdf:Description>"@);
            }
            Some(c + 18)
        },
    }
}

/// The end of the `rdf:Description` element that opens at character index `desc_start` of
/// Just after the first `/>` when its open tag closes itself, else just after the first
/// `</rdf:Description>` after it.
pub fn description_element_end(input: &str, desc_start: usize) -> (r: Option<usize>)
    requires
        desc_start <= input@.len(),
    ensures
        opt_int(r) == desc_end(input@, desc_start as int),
        r matches Some(e) ==> desc_start < e <= input@.len(),
{
    proof {
        lemma_desc_end_after(input@, desc_start as int);
    }
    let s = chars_of(input);
    desc_end_chars(&s, desc_start)
}

/// The end of the `rdf:Description` element opening at
/// `start`, just after the `</rdf:Description>` that balances it (nested non-self-closing
/// descriptions counted).
pub open spec fn named_end(s: Seq<char>, start: int) -> Option<int> {
    if !matches_at(s, start, "<rdf:Description"@) {
        None
    } else {
        match find_from(s, start, seq!['>']) {
            None => None,
            Some(g) => tagged_scan(s, "rdf:Description"@, g + 1, 1),
        }
    }
}

fn named_end_exec(s: &Vec<char>, start: usize) -> (r: Option<usize>)
    ensures
        opt_int(r) == named_end(s@, start as int),
        r matches Some(e) ==> start < e <= s.len(),
{
    proof {
        reveal_strlit(">");
        assert(">"@ =~= seq!['>']);
    }
    if !at_lit(s, start, "<rdf:Description") {
        return None;
    }
    let g = match find_lit(s, start, ">") {
        None => return None,
        Some(g) => g,
    };
    proof {
        lemma_find_from_bounds(s@, start as int, seq!['>']);
        assert(g < s.len());
    }
    let tag = chars_of("rdf:Description");
    tagged_scan_from(s, &tag, g + 1, 1)
}

} // verus!

verus! {

/// An `rdf:Description` open tag with no `rdf:about`,
/// `rdf:nodeID` or `rdf:ID` attribute.
pub open spec fn is_anonymous_open(tag: Seq<char>) -> bool {
    &&& starts_with(tag, "<rdf:Description"@)
    &&& !starts_with(tag, "</"@)
    &&& !contains(tag, "rdf:about=\""@)
    &&& !contains(tag, "rdf:about='"@)
    &&& !contains(tag, "rdf:nodeID=\""@)
    &&& !contains(tag, "rdf:nodeID='"@)
    &&& !contains(tag, "rdf:ID=\""@)
    &&& !contains(tag, "rdf:ID='"@)
}

fn is_anonymous_open_exec(tag: &Vec<char>) -> (b: bool)
    ensures
        b == is_anonymous_open(tag@),
{
    at_lit(tag, 0, "<rdf:Description") && !at_lit(tag, 0, "</") && !contains_lit(
        tag,
        "rdf:about=\"",
    ) && !contains_lit(tag, "rdf:about='") && !contains_lit(tag, "rdf:nodeID=\"")
        && !contains_lit(tag, "rdf:nodeID='") && !contains_lit(tag, "rdf:ID=\"") && !contains_lit(
        tag,
        "rdf:ID='",
    )
}

/// `s` without a leading `<`.
pub open spec fn drop_open_angle(s: Seq<char>) -> Seq<char> {
    if s.len() > 0 && s[0] == '<' {
        s.subrange(1, s.len() as int)
    } else {
        s
    }
}

fn drop_open_angle_exec(s: &Vec<char>) -> (r: Vec<char>)
    ensures
        r@ == drop_open_angle(s@),
{
    if s.len() > 0 && s[0] == '<' {
        slice(s, 1, s.len())
    } else {
        copy(s)
    }
}

/// The index of the first `>` of `block`, or 0 when there is none.
pub open spec fn first_gt_or_zero(block: Seq<char>) -> int {
    match find_from(block, 0, seq!['>']) {
        Some(o) => o,
        None => 0,
    }
}

pub fn first_gt_or_zero_exec(block: &Vec<char>) -> (r: usize)
    requires
        block.len() > 0,
    ensures
        r as int == first_gt_or_zero(block@),
        r < block.len(),
{
    match index_of_exec(block, '>') {
        Some(o) => {
            proof {
                lemma_find_from_bounds(block@, 0, seq!['>']);
            }
            o
        },
        None => 0,
    }
}

/// The description block gets `rdf:about="{iri}"` on its
/// open tag.  A self-closing open tag becomes the whole result; a block that does not end with
/// `</rdf:Description>` stays as it is.
pub open spec fn anonymous_rewrite(block: Seq<char>, iri: Seq<char>) -> Seq<char> {
    if block.len() == 0 {
        block
    } else {
        let oe = first_gt_or_zero(block);
        let open = block.subrange(0, oe + 1);
        if ends_with(open, "/>"@) {
            seq!['<'] + trim(strip_suffix_all(drop_open_angle(open), "/>"@)) + " rdf:about=\""@
                + iri + "\"/>"@
        } else if !ends_with(block, "</rdf:Description>"@) || oe + 1 > block.len() - 18 {
            block
        } else {
            seq!['<'] + trim(strip_trailing(drop_open_angle(open), '>')) + " rdf:about=\""@ + iri
                + "\">"@ + block.subrange(oe + 1, block.len() - 18) + "</rdf:Description>"@
        }
    }
}

fn anonymous_rewrite_exec(block: &Vec<char>, iri: &Vec<char>) -> (r: Vec<char>)
    ensures
        r@ == anonymous_rewrite(block@, iri@),
{
    proof {
        reveal_strlit("/>");
        reveal_strlit("</rdf:Description>");
    }
    if block.len() == 0 {
        return copy(block);
    }
    let oe = first_gt_or_zero_exec(block);
    let open = slice(block, 0, oe + 1);
    let sc = chars_of("/>");
    if crate::text::ends_with_exec(&open, &sc) {
        let inner = trim_exec(&strip_suffix_all_exec(&drop_open_angle_exec(&open), &sc));
        let mut out: Vec<char> = vec!['<'];
        push_all(&mut out, &inner);
        push_str(&mut out, " rdf:about=\"");
        push_all(&mut out, iri);
        push_str(&mut out, "\"/>");
        proof {
            assert(out@ =~= seq!['<'] + inner@ + " rdf:about=\""@ + iri@ + "\"/>"@);
        }
        return out;
    }
    let close = chars_of("</rdf:Description>");
    if !crate::text::ends_with_exec(block, &close) || oe + 1 > block.len() - 18 {
        return copy(block);
    }
    let inner = trim_exec(&strip_trailing_exec(&drop_open_angle_exec(&open), '>'));
    let mut out: Vec<char> = vec!['<'];
    push_all(&mut out, &inner);
    push_str(&mut out, " rdf:about=\"");
    push_all(&mut out, iri);
    push_str(&mut out, "\">");
    push_range(&mut out, block, oe + 1, block.len() - 18);
    push_str(&mut out, "</rdf:Description>");
    proof {
        assert(out@ =~= seq!['<'] + inner@ + " rdf:about=\""@ + iri@ + "\">"@ + block@.subrange(
            oe + 1,
            block.len() - 18,
        ) + "</rdf:Description>"@);
    }
    out
}

/// The IRI given to the `n`-th anonymous individual: `{base}#_:{n}`.
pub open spec fn anonymous_iri(base: Seq<char>, n: nat) -> Seq<char> {
    base + "#_:"@ + decimal(n)
}

/// The walk of `materialize_anonymous_individual_descriptions` from `pos`, with `n` individuals
/// named so far.
pub open spec fn anonymous_walk(s: Seq<char>, base: Seq<char>, pos: int, n: nat) -> Seq<char>
    decreases s.len() - pos,
{
    if pos < 0 || pos > s.len() {
        Seq::empty()
    } else {
        match find_from(s, pos, "<rdf:Description"@) {
            None => s.subrange(pos, s.len() as int),
            Some(st) => if st < pos || st >= s.len() {
                s.subrange(pos, s.len() as int)
            } else {
                match named_end(s, st) {
                    None => s.subrange(pos, s.len() as int),
                    Some(end) => if end <= st || end > s.len() {
                        s.subrange(pos, s.len() as int)
                    } else {
                        let block = s.subrange(st, end);
                        let open_tag = s.subrange(st, st + first_gt_or_zero(s.subrange(st, s.len() as int)) + 1);
                        if is_anonymous_open(open_tag) && contains(block, "<rdf:type"@) {
                            s.subrange(pos, st) + anonymous_rewrite(
                                block,
                                anonymous_iri(base, n + 1),
                            ) + anonymous_walk(s, base, end, n + 1)
                        } else {
                            s.subrange(pos, st) + block + anonymous_walk(s, base, end, n)
                        }
                    },
                }
            },
        }
    }
}

/// `materialize_anonymous_individual_descriptions`: when the text holds `<rdf:Description` and
/// `rdf:type`, each anonymous description that holds an `<rdf:type` element is named
/// `{base}#_:1`, `{base}#_:2`, ... in document order.
pub open spec fn anonymous_individuals_named(s: Seq<char>) -> Seq<char> {
    if !contains(s, "<rdf:Description"@) || !contains(s, "rdf:type"@) {
        s
    } else {
        anonymous_walk(s, xml_base(s), 0, 0)
    }
}

/// Assign stable `rdf:about` IRIs to blank `rdf:Description` nodes carrying `rdf:type`.
///
/// Blank nodes used for datatype facet collections (`owl:withRestrictions`) carry no type and
/// stay anonymous.
pub fn materialize_anonymous_individual_descriptions(input: &str) -> (r: String)
    ensures
        r@ == anonymous_individuals_named(input@),
{
    let s = chars_of(input);
    let out = anonymous_individuals_chars(&s);
    string_of(&out)
}

/// One step of the walk of `materialize_anonymous_individual_descriptions` at `pos`: the text
/// it emits, and where the walk goes on (with the number of individuals named by then), if
/// anywhere.
fn anonymous_step(s: &Vec<char>, base: &Vec<char>, pos: usize, counter: usize) -> (r: (
    Vec<char>,
    Option<(usize, usize)>,
))
    requires
        pos <= s.len(),
        counter <= pos,
    ensures
        match r.1 {
            None => r.0@ == anonymous_walk(s@, base@, pos as int, counter as nat),
            Some((np, nc)) => pos < np <= s.len() && nc <= np && r.0@ + anonymous_walk(
                s@,
                base@,
                np as int,
                nc as nat,
            ) == anonymous_walk(s@, base@, pos as int, counter as nat),
        },
{
    let mut out: Vec<char> = Vec::new();
    let st = match find_lit(s, pos, "<rdf:Description") {
        None => {
            push_range(&mut out, s, pos, s.len());
            return (out, None);
        },
        Some(st) => st,
    };
    proof {
        lemma_find_from_bounds(s@, pos as int, "<rdf:Description"@);
    }
    if st >= s.len() {
        push_range(&mut out, s, pos, s.len());
        return (out, None);
    }
    let end = match named_end_exec(s, st) {
        None => {
            push_range(&mut out, s, pos, s.len());
            return (out, None);
        },
        Some(e) => e,
    };
    push_range(&mut out, s, pos, st);
    let block = slice(s, st, end);
    let rest = slice(s, st, s.len());
    let oe = first_gt_or_zero_exec(&rest);
    let open_tag = slice(s, st, st + oe + 1);
    if is_anonymous_open_exec(&open_tag) && contains_lit(&block, "<rdf:type") {
        let mut iri = copy(base);
        push_str(&mut iri, "#_:");
        push_decimal(&mut iri, counter + 1);
        let rw = anonymous_rewrite_exec(&block, &iri);
        push_all(&mut out, &rw);
        proof {
            assert(iri@ =~= anonymous_iri(base@, (counter + 1) as nat));
        }
        (out, Some((end, counter + 1)))
    } else {
        push_all(&mut out, &block);
        (out, Some((end, counter)))
    }
}

/// `materialize_anonymous_individual_descriptions` on a character vector.
pub fn anonymous_individuals_chars(s: &Vec<char>) -> (r: Vec<char>)
    ensures
        r@ == anonymous_individuals_named(s@),
{
    if !contains_lit(s, "<rdf:Description") || !contains_lit(s, "rdf:type") {
        return copy(s);
    }
    let base = parse_xml_base(s);
    let mut counter: usize = 0;
    let mut out: Vec<char> = Vec::new();
    let mut pos: usize = 0;
    assert(out@ + anonymous_walk(s@, base@, 0, 0) =~= anonymous_walk(s@, base@, 0, 0));
    loop
        invariant
            pos <= s.len(),
            counter <= pos,
            base@ == xml_base(s@),
            contains(s@, "<rdf:Description"@),
            contains(s@, "rdf:type"@),
            out@ + anonymous_walk(s@, base@, pos as int, counter as nat)
                == anonymous_individuals_named(s@),
        decreases s.len() - pos,
    {
        let (piece, next) = anonymous_step(s, &base, pos, counter);
        push_all(&mut out, &piece);
        match next {
            None => {
                assert(out@ =~= anonymous_individuals_named(s@));
                return out;
            },
            Some((np, nc)) => {
                pos = np;
                counter = nc;
            },
        }
    }
}

} // verus!

verus! {

/// The open tag of an `rdf:type` element names its type by
/// `rdf:resource=` or closes itself.
pub open spec fn is_simple_type_element(type_block: Seq<char>) -> bool {
    let open = type_block.subrange(0, first_gt_or_zero(type_block) + 1);
    type_block.len() > 0 && (contains(open, "rdf:resource="@) || ends_with(
        trim_end(open),
        "/>"@,
    ))
}

pub(crate) fn is_simple_type_element_exec(type_block: &Vec<char>) -> (b: bool)
    ensures
        b == is_simple_type_element(type_block@),
{
    if type_block.len() == 0 {
        return false;
    }
    let oe = first_gt_or_zero_exec(type_block);
    let open = slice(type_block, 0, oe + 1);
    contains_lit(&open, "rdf:resource=") || crate::text::ends_with_exec(
        &trim_end_exec(&open),
        &chars_of("/>"),
    )
}

/// The types that make a named node a class, a property or an explicit named individual.
pub open spec fn names_entity_type(resource: Seq<char>) -> bool {
    ||| contains(resource, "owl#Class"@)
    ||| contains(resource, "owl#ObjectProperty"@)
    ||| contains(resource, "owl#DatatypeProperty"@)
    ||| contains(resource, "owl#AnnotationProperty"@)
    ||| contains(resource, "owl#OntologyProperty"@)
    ||| contains(resource, "owl#InverseFunctionalProperty"@)
    ||| contains(resource, "owl#FunctionalProperty"@)
    ||| contains(resource, "owl#SymmetricProperty"@)
    ||| contains(resource, "owl#AsymmetricProperty"@)
    ||| contains(resource, "owl#ReflexiveProperty"@)
    ||| contains(resource, "owl#IrreflexiveProperty"@)
    ||| contains(resource, "owl#TransitiveProperty"@)
    ||| contains(resource, "owl#NamedIndividual"@)
}

fn names_entity_type_exec(resource: &Vec<char>) -> (b: bool)
    ensures
        b == names_entity_type(resource@),
{
    contains_lit(resource, "owl#Class") || contains_lit(resource, "owl#ObjectProperty")
        || contains_lit(resource, "owl#DatatypeProperty") || contains_lit(
        resource,
        "owl#AnnotationProperty",
    ) || contains_lit(resource, "owl#OntologyProperty") || contains_lit(
        resource,
        "owl#InverseFunctionalProperty",
    ) || contains_lit(resource, "owl#FunctionalProperty") || contains_lit(
        resource,
        "owl#SymmetricProperty",
    ) || contains_lit(resource, "owl#AsymmetricProperty") || contains_lit(
        resource,
        "owl#ReflexiveProperty",
    ) || contains_lit(resource, "owl#IrreflexiveProperty") || contains_lit(
        resource,
        "owl#TransitiveProperty",
    ) || contains_lit(resource, "owl#NamedIndividual")
}

/// `is_typed_entity_declaration`: the block's top-level `rdf:type` is a simple one whose
/// `rdf:resource` names a class, a property or `owl:NamedIndividual`.
pub open spec fn is_typed_entity_declaration(block: Seq<char>) -> bool {
    match find_from(block, 0, seq!['>']) {
        None => false,
        Some(oe) => {
            let close = if starts_with(block, "<owl:NamedIndividual"@) {
                "</owl:NamedIndividual>"@
            } else {
                "</rdf:Description>"@
            };
            match rfind(block, close) {
                None => false,
                Some(cs) => if cs < oe + 1 {
                    false
                } else {
                    let inner = block.subrange(oe + 1, cs);
                    match top_level_element(inner, "rdf:type"@) {
                        None => false,
                        Some((a, e)) => {
                            let type_block = inner.subrange(a, e);
                            if !is_simple_type_element(type_block) {
                                false
                            } else {
                                match find_from(type_block, 0, seq!['>']) {
                                    None => false,
                                    Some(te) => match attribute(
                                        type_block.subrange(0, te + 1),
                                        "rdf:resource"@,
                                    ) {
                                        None => false,
                                        Some(res) => names_entity_type(res),
                                    },
                                }
                            }
                        },
                    }
                },
            }
        },
    }
}

pub(crate) fn is_typed_entity_declaration_exec(block: &Vec<char>) -> (b: bool)
    ensures
        b == is_typed_entity_declaration(block@),
{
    proof {
        reveal_strlit(">");
        assert(">"@ =~= seq!['>']);
    }
    let oe = match find_lit(block, 0, ">") {
        None => return false,
        Some(o) => o,
    };
    proof {
        lemma_find_from_bounds(block@, 0, seq!['>']);
        assert(oe < block.len());
    }
    let close = if at_lit(block, 0, "<owl:NamedIndividual") {
        chars_of("</owl:NamedIndividual>")
    } else {
        chars_of("</rdf:Description>")
    };
    let cs = match crate::text::rfind_exec(block, &close) {
        None => return false,
        Some(c) => c,
    };
    proof {
        crate::text::lemma_rfind_bounds(block@, close@);
    }
    if cs < oe + 1 {
        return false;
    }
    let inner = slice(block, oe + 1, cs);
    let (a, e) = match find_top_level_lit(&inner, "rdf:type") {
        None => return false,
        Some(b) => b,
    };
    let type_block = slice(&inner, a, e);
    if !is_simple_type_element_exec(&type_block) {
        return false;
    }
    let te = match find_lit(&type_block, 0, ">") {
        None => return false,
        Some(t) => t,
    };
    proof {
        lemma_find_from_bounds(type_block@, 0, seq!['>']);
        assert(te < type_block.len());
    }
    let open = slice(&type_block, 0, te + 1);
    match extract_attribute(&open, "rdf:resource") {
        None => false,
        Some(res) => names_entity_type_exec(&res),
    }
}

/// The open tag names the node (`rdf:about` or
/// `rdf:ID`), the block holds an `<rdf:type` element, and that type does not make the node a
/// class or a property.
pub open spec fn is_named_individual_description(block: Seq<char>) -> bool {
    let open = block.subrange(0, first_gt_or_zero(block) + 1);
    &&& block.len() > 0
    &&& (contains(open, "rdf:about=\""@) || contains(open, "rdf:about='"@) || contains(
        open,
        "rdf:ID=\""@,
    ) || contains(open, "rdf:ID='"@))
    &&& contains(block, "<rdf:type"@)
    &&& !is_typed_entity_declaration(block)
}

fn is_named_individual_description_exec(block: &Vec<char>) -> (b: bool)
    ensures
        b == is_named_individual_description(block@),
{
    if block.len() == 0 {
        return false;
    }
    let oe = first_gt_or_zero_exec(block);
    let open = slice(block, 0, oe + 1);
    if !(contains_lit(&open, "rdf:about=\"") || contains_lit(&open, "rdf:about='") || contains_lit(
        &open,
        "rdf:ID=\"",
    ) || contains_lit(&open, "rdf:ID='")) {
        return false;
    }
    if !contains_lit(block, "<rdf:type") {
        return false;
    }
    !is_typed_entity_declaration_exec(block)
}

/// A block ending with `</rdf:Description>` has its
/// first `<rdf:Description` and its last `</rdf:Description>` renamed to `owl:NamedIndividual`.
pub open spec fn named_individual_rewrite(block: Seq<char>) -> Seq<char> {
    if !ends_with(block, "</rdf:Description>"@) {
        block
    } else {
        let renamed = replace_first(block, "<rdf:Description"@, "<owl:NamedIndividual"@);
        match rfind(renamed, "</rdf:Description>"@) {
            None => renamed,
            Some(cs) => renamed.subrange(0, cs) + "</owl:NamedIndividual>"@ + renamed.subrange(
                cs + 18,
                renamed.len() as int,
            ),
        }
    }
}

fn named_individual_rewrite_exec(block: &Vec<char>) -> (r: Vec<char>)
    ensures
        r@ == named_individual_rewrite(block@),
{
    proof {
        reveal_strlit("</rdf:Description>");
    }
    let close = chars_of("</rdf:Description>");
    if !crate::text::ends_with_exec(block, &close) {
        return copy(block);
    }
    let renamed = replace_first_exec(
        block,
        &chars_of("<rdf:Description"),
        &chars_of("<owl:NamedIndividual"),
    );
    match crate::text::rfind_exec(&renamed, &close) {
        None => renamed,
        Some(cs) => {
            proof {
                crate::text::lemma_rfind_bounds(renamed@, close@);
                assert(close@.len() == 18);
                assert(cs + 18 <= renamed.len());
            }
            let mut out = slice(&renamed, 0, cs);
            push_str(&mut out, "</owl:NamedIndividual>");
            push_range(&mut out, &renamed, cs + 18, renamed.len());
            out
        },
    }
}

/// The walk of `materialize_named_individual_descriptions` from `pos`.
pub open spec fn named_walk(s: Seq<char>, pos: int) -> Seq<char>
    decreases s.len() - pos,
{
    if pos < 0 || pos > s.len() {
        Seq::empty()
    } else {
        match find_from(s, pos, "<rdf:Description"@) {
            None => s.subrange(pos, s.len() as int),
            Some(st) => if st < pos || st >= s.len() {
                s.subrange(pos, s.len() as int)
            } else {
                match named_end(s, st) {
                    None => s.subrange(pos, s.len() as int),
                    Some(end) => if end <= st || end > s.len() {
                        s.subrange(pos, s.len() as int)
                    } else {
                        let block = s.subrange(st, end);
                        s.subrange(pos, st) + (if is_named_individual_description(block) {
                            named_individual_rewrite(block)
                        } else {
                            block
                        }) + named_walk(s, end)
                    },
                }
            },
        }
    }
}

/// `materialize_named_individual_descriptions`: when the text holds `<rdf:Description` and
/// `rdf:type`, each named description typed as an individual becomes `owl:NamedIndividual`.
pub open spec fn named_individuals_materialized(s: Seq<char>) -> Seq<char> {
    if !contains(s, "<rdf:Description"@) || !contains(s, "rdf:type"@) {
        s
    } else {
        named_walk(s, 0)
    }
}

/// Rewrite named `rdf:Description` blocks that carry an individual `rdf:type` into
/// `owl:NamedIndividual` elements.
pub fn materialize_named_individual_descriptions(input: &str) -> (r: String)
    ensures
        r@ == named_individuals_materialized(input@),
{
    let s = chars_of(input);
    let out = named_individuals_chars(&s);
    string_of(&out)
}

/// `materialize_named_individual_descriptions` on a character vector.
pub fn named_individuals_chars(s: &Vec<char>) -> (r: Vec<char>)
    ensures
        r@ == named_individuals_materialized(s@),
{
    if !contains_lit(s, "<rdf:Description") || !contains_lit(s, "rdf:type") {
        return copy(s);
    }
    let mut out: Vec<char> = Vec::new();
    let mut pos: usize = 0;
    assert(out@ + named_walk(s@, 0) =~= named_walk(s@, 0));
    loop
        invariant
            pos <= s.len(),
            contains(s@, "<rdf:Description"@),
            contains(s@, "rdf:type"@),
            out@ + named_walk(s@, pos as int) == named_individuals_materialized(s@),
        decreases s.len() - pos,
    {
        let st = match find_lit(s, pos, "<rdf:Description") {
            None => {
                push_range(&mut out, s, pos, s.len());
                assert(out@ =~= named_individuals_materialized(s@));
                return out;
            },
            Some(st) => st,
        };
        proof {
            lemma_find_from_bounds(s@, pos as int, "<rdf:Description"@);
        }
        if st >= s.len() {
            push_range(&mut out, s, pos, s.len());
            assert(out@ =~= named_individuals_materialized(s@));
            return out;
        }
        let end = match named_end_exec(s, st) {
            None => {
                push_range(&mut out, s, pos, s.len());
                assert(out@ =~= named_individuals_materialized(s@));
                return out;
            },
            Some(e) => e,
        };
        let ghost before = out@;
        push_range(&mut out, s, pos, st);
        let block = slice(s, st, end);
        if is_named_individual_description_exec(&block) {
            let rw = named_individual_rewrite_exec(&block);
            push_all(&mut out, &rw);
        } else {
            push_all(&mut out, &block);
        }
        proof {
            assert(out@ + named_walk(s@, end as int) =~= before + named_walk(s@, pos as int));
        }
        pos = end;
    }
}

} // verus!

verus! {

/// The text with its `owl:NamedIndividual` element names read back as `rdf:Description`:
/// `<owl:NamedIndividual` and then `</owl:NamedIndividual>` replaced throughout.
pub open spec fn individual_names_undone(s: Seq<char>) -> Seq<char> {
    replace_all(
        replace_all(s, "<owl:NamedIndividual"@, "<rdf:Description"@),
        "</owl:NamedIndividual>"@,
        "</rdf:Description>"@,
    )
}

proof fn lemma_name_literals()
    ensures
        "<owl:NamedIndividual"@.len() == 20,
        "<rdf:Description"@.len() == 16,
        "</owl:NamedIndividual>"@.len() == 22,
        "</rdf:Description>"@.len() == 18,
        "<owl:NamedIndividual"@[0] == '<',
        "<rdf:Description"@[0] == '<',
        "</owl:NamedIndividual>"@[0] == '<',
        "</rdf:Description>"@[0] == '<',
        "</owl:NamedIndividual>"@[21] == '>',
        "</rdf:Description>"@[17] == '>',
        "<rdf:Description"@[1] != "</rdf:Description>"@[1],
        "<owl:NamedIndividual"@[19] != '>',
        forall|k: int| 0 < k < 20 ==> "<owl:NamedIndividual"@[k] != '<',
        forall|k: int| 0 <= k < 20 ==> "<owl:NamedIndividual"@[k] != '>',
        forall|k: int| 0 < k < 22 ==> "</owl:NamedIndividual>"@[k] != '<',
        forall|k: int| 0 <= k < 21 ==> "</owl:NamedIndividual>"@[k] != '>',
        forall|k: int| 0 < k < 16 ==> "<rdf:Description"@[k] != '<',
        forall|k: int| 0 <= k < 16 ==> "<rdf:Description"@[k] != '>',
        "<rdf:Description"@ != "<owl:NamedIndividual"@.subrange(0, 16),
        "<rdf:Description"@ != "</owl:NamedIndividual>"@.subrange(0, 16),
        !contains("</owl:NamedIndividual>"@, "<owl:NamedIndividual"@),
        !contains("<rdf:Description"@, "<owl:NamedIndividual"@),
        !contains("</rdf:Description>"@, "<owl:NamedIndividual"@),
        !contains("<rdf:Description"@, "</owl:NamedIndividual>"@),
        !contains("</rdf:Description>"@, "</owl:NamedIndividual>"@),
{
    reveal_strlit("<owl:NamedIndividual");
    reveal_strlit("<rdf:Description");
    reveal_strlit("</owl:NamedIndividual>");
    reveal_strlit("</rdf:Description>");
    let f1 = "<owl:NamedIndividual"@;
    let f2 = "</owl:NamedIndividual>"@;
    let t1 = "<rdf:Description"@;
    assert(f1.subrange(0, 16)[1] != t1[1]);
    assert(f2.subrange(0, 16)[1] != t1[1]);
    assert forall|p: int| !matches_at(f2, p, f1) by {
        if matches_at(f2, p, f1) {
            let w = f2.subrange(p, p + 20);
            assert(w[0] == f2[p]);
            assert(w[1] == f2[p + 1]);
        }
    }
}

/// A pattern replaced in itself gives the replacement.
proof fn lemma_replace_whole(f: Seq<char>, t: Seq<char>)
    requires
        f.len() > 0,
    ensures
        replace_all(f, f, t) == t,
{
    assert(f.subrange(0, f.len() as int) =~= f);
    assert(matches_at(f, 0, f));
    assert(find_from(f, f.len() as int, f) is None);
    assert(replace_from(f, f.len() as int, f, t) =~= Seq::<char>::empty());
    assert(f.subrange(0, 0) + t + Seq::<char>::empty() =~= t);
}

/// Reading the names back distributes over a seam just after a `>` or just before a `<`.
proof fn lemma_undone_split(a: Seq<char>, b: Seq<char>)
    requires
        (a.len() > 0 && a[a.len() - 1] == '>') || (b.len() > 0 && b[0] == '<'),
    ensures
        individual_names_undone(a + b) == individual_names_undone(a) + individual_names_undone(b),
{
    lemma_name_literals();
    let f1 = "<owl:NamedIndividual"@;
    let t1 = "<rdf:Description"@;
    let f2 = "</owl:NamedIndividual>"@;
    let t2 = "</rdf:Description>"@;
    lemma_no_straddle_at_tag(a, b, f1);
    lemma_replace_from_split(a, b, 0, f1, t1);
    let a1 = replace_all(a, f1, t1);
    let b1 = replace_all(b, f1, t1);
    if a.len() > 0 && a[a.len() - 1] == '>' {
        lemma_replace_from_last(a, 0, f1, t1, '>');
    } else {
        lemma_replace_all_first(b, f1, t1, '<');
    }
    lemma_no_straddle_at_tag(a1, b1, f2);
    lemma_replace_from_split(a1, b1, 0, f2, t2);
}

/// Renaming one description to `owl:NamedIndividual` is undone by reading the names back; the
/// result still opens with `<` and ends with the block's last character.
proof fn lemma_undone_rewrite(block: Seq<char>)
    requires
        matches_at(block, 0, "<rdf:Description"@),
        block[block.len() - 1] == '>',
    ensures
        individual_names_undone(named_individual_rewrite(block)) == individual_names_undone(block),
        named_individual_rewrite(block).len() > 0,
        named_individual_rewrite(block)[0] == '<',
        named_individual_rewrite(block)[named_individual_rewrite(block).len() - 1] == '>',
{
    lemma_name_literals();
    let f1 = "<owl:NamedIndividual"@;
    let t1 = "<rdf:Description"@;
    let f2 = "</owl:NamedIndividual>"@;
    let t2 = "</rdf:Description>"@;
    assert(block.subrange(0, 16)[0] == block[0]);
    if ends_with(block, t2) {
        let n = block.len() as int;
        let c0 = n - 18;
        assert(block.subrange(c0, n)[0] == block[c0]);
        if c0 < 16 {
            assert(block.subrange(0, 16)[c0] == block[c0]);
            assert(t1[c0] == '<');
            assert(c0 == 0);
            assert(block.subrange(c0, n)[1] == block[c0 + 1]);
            assert(block.subrange(0, 16)[1] == block[1]);
            assert(false);
        }
        let mid = block.subrange(16, c0);
        assert(block =~= t1 + (mid + t2));
        assert(matches_at(block, 0, t1));
        let renamed = replace_first(block, t1, f1);
        assert(renamed =~= f1 + (mid + t2));
        let rn = renamed.len() as int;
        assert(renamed.subrange(rn - 18, rn) =~= t2);
        assert(rfind(renamed, t2) == Some(rn - 18));
        assert(named_individual_rewrite(block) =~= f1 + (mid + f2));
        // the block, read back
        lemma_no_straddle_first(t1, mid + t2, f1);
        lemma_replace_from_split(t1, mid + t2, 0, f1, t1);
        lemma_replace_absent(t1, f1, t1);
        lemma_no_straddle_at_tag(mid, t2, f1);
        lemma_replace_from_split(mid, t2, 0, f1, t1);
        lemma_replace_absent(t2, f1, t1);
        let m1 = replace_all(mid, f1, t1);
        lemma_no_straddle_first(t1, m1 + t2, f2);
        lemma_replace_from_split(t1, m1 + t2, 0, f2, t2);
        lemma_replace_absent(t1, f2, t2);
        lemma_no_straddle_at_tag(m1, t2, f2);
        lemma_replace_from_split(m1, t2, 0, f2, t2);
        lemma_replace_absent(t2, f2, t2);
        // the rewritten block, read back
        lemma_no_straddle_first(f1, mid + f2, f1);
        lemma_replace_from_split(f1, mid + f2, 0, f1, t1);
        lemma_replace_whole(f1, t1);
        lemma_no_straddle_at_tag(mid, f2, f1);
        lemma_replace_from_split(mid, f2, 0, f1, t1);
        lemma_replace_absent(f2, f1, t1);
        lemma_no_straddle_first(t1, m1 + f2, f2);
        lemma_replace_from_split(t1, m1 + f2, 0, f2, t2);
        lemma_no_straddle_at_tag(m1, f2, f2);
        lemma_replace_from_split(m1, f2, 0, f2, t2);
        lemma_replace_whole(f2, t2);
        let w = named_individual_rewrite(block);
        assert(w[0] == f1[0]);
        assert(w[w.len() - 1] == f2[21]);
    }
}

/// The walk of `materialize_named_individual_descriptions` from `pos` reads back, names
/// undone, as the text from `pos`.
proof fn lemma_named_walk_undone(s: Seq<char>, pos: int)
    requires
        0 <= pos <= s.len(),
    ensures
        individual_names_undone(named_walk(s, pos)) == individual_names_undone(s.subrange(pos, s.len() as int)),
    decreases s.len() - pos,
{
    lemma_name_literals();
    let t1 = "<rdf:Description"@;
    lemma_find_from_bounds(s, pos, t1);
    match find_from(s, pos, t1) {
        None => {},
        Some(st) => {
            if st >= pos && st < s.len() {
                match named_end(s, st) {
                    None => {},
                    Some(end) => {
                        if end > st && end <= s.len() {
                            lemma_find_from_bounds(s, st, seq!['>']);
                            let g = find_from(s, st, seq!['>'])->0;
                            assert(s.subrange(g, g + 1)[0] == s[g]);
                            if g < st + 16 {
                                assert(s.subrange(st, st + 16)[g - st] == s[g]);
                            }
                            lemma_tagged_scan_after(s, "rdf:Description"@, g + 1, 1);
                            let block = s.subrange(st, end);
                            assert(block.subrange(0, 16) =~= s.subrange(st, st + 16));
                            assert(block[block.len() - 1] == s[end - 1]);
                            let seg = s.subrange(pos, st);
                            let x = if is_named_individual_description(block) {
                                named_individual_rewrite(block)
                            } else {
                                block
                            };
                            lemma_undone_rewrite(block);
                            assert(block[0] == '<') by {
                                assert(block.subrange(0, 16)[0] == block[0]);
                            }
                            lemma_named_walk_undone(s, end);
                            let w = named_walk(s, end);
                            let rest = s.subrange(end, s.len() as int);
                            assert(named_walk(s, pos) == seg + x + w);
                            lemma_undone_split(seg + x, w);
                            lemma_undone_split(seg, x);
                            assert(s.subrange(pos, s.len() as int) =~= (seg + block) + rest);
                            lemma_undone_split(seg + block, rest);
                            lemma_undone_split(seg, block);
                        }
                    },
                }
            }
        },
    }
}

/// `materialize_named_individual_descriptions` changes element names only: with every
/// `owl:NamedIndividual` name read back as `rdf:Description`, its result and its input are
/// the same text.
pub proof fn lemma_named_individuals_rename_only(s: Seq<char>)
    ensures
        individual_names_undone(named_individuals_materialized(s)) == individual_names_undone(s),
{
    if contains(s, "<rdf:Description"@) && contains(s, "rdf:type"@) {
        lemma_named_walk_undone(s, 0);
        assert(s.subrange(0, s.len() as int) =~= s);
    }
}

} // verus!

verus! {

/// The end that `named_end` gives lies past the description's start, within the text.
proof fn lemma_named_end_after(s: Seq<char>, st: int)
    requires
        0 <= st,
    ensures
        named_end(s, st) matches Some(end) ==> st < end <= s.len(),
{
    if matches_at(s, st, "<rdf:Description"@) {
        lemma_find_from_bounds(s, st, seq!['>']);
        if let Some(g) = find_from(s, st, seq!['>']) {
            lemma_tagged_scan_after(s, "rdf:Description"@, g + 1, 1);
        }
    }
}

/// A description whose type is a simple `rdf:resource` naming an OWL class, property or
/// `owl:NamedIndividual` stays an `rdf:Description`: the walk copies it unchanged and goes on
/// after it.
pub proof fn lemma_typed_entity_description_kept(s: Seq<char>, pos: int, st: int, end: int)
    requires
        0 <= pos <= s.len(),
        find_from(s, pos, "<rdf:Description"@) == Some(st),
        named_end(s, st) == Some(end),
        is_typed_entity_declaration(s.subrange(st, end)),
    ensures
        pos <= st < end <= s.len(),
        named_walk(s, pos) == s.subrange(pos, end) + named_walk(s, end),
{
    lemma_find_from_bounds(s, pos, "<rdf:Description"@);
    lemma_named_end_after(s, st);
    assert(!is_named_individual_description(s.subrange(st, end)));
    assert(s.subrange(pos, st) + s.subrange(st, end) =~= s.subrange(pos, end));
}

/// A text that is one description typed as an OWL class, property or named individual comes
/// back unchanged.
pub proof fn lemma_typed_entity_document_unchanged(s: Seq<char>)
    requires
        matches_at(s, 0, "<rdf:Description"@),
        named_end(s, 0) == Some(s.len() as int),
        is_typed_entity_declaration(s),
    ensures
        named_individuals_materialized(s) == s,
{
    assert(find_from(s, 0, "<rdf:Description"@) == Some(0int));
    assert(s.subrange(0, s.len() as int) =~= s);
    if contains(s, "<rdf:Description"@) && contains(s, "rdf:type"@) {
        lemma_typed_entity_description_kept(s, 0, 0, s.len() as int);
        assert(named_walk(s, s.len() as int) =~= Seq::<char>::empty()) by {
            lemma_find_from_bounds(s, s.len() as int, "<rdf:Description"@);
            assert(s.subrange(s.len() as int, s.len() as int) =~= Seq::<char>::empty());
        }
        assert(s.subrange(0, s.len() as int) + Seq::<char>::empty() =~= s);
    }
}

} // verus!

//! Class assertions whose class is a complex class expression, read off individual elements.
use vstd::prelude::*;

use crate::booleans::{boolean_operator, boolean_operator_ofn, build_rdf_collection_node_map, node_lists, one_of, one_of_ofn, NodeList};
use crate::complex::{individual_tag, next_individual};
use crate::descriptions::{is_simple_type_element, is_simple_type_element_exec, is_typed_entity_declaration, is_typed_entity_declaration_exec};
use crate::ids::views;
use crate::ofn_terms::{entity_ref, ofn_entity_ref};
use crate::reified::{about_or_id, about_or_id_exec};
use crate::restrictions::{data_restriction, data_restriction_chars, object_restriction, object_restriction_chars};
use crate::scan::{kind_end, kind_end_exec, opt_seq, pair_views, EndRule, PairView};
use crate::subclasses::{declared_datatype_chars, declared_datatype_properties, inline_restriction, inline_restriction_ce_to_ofn, is_class_restriction, is_class_restriction_description};
use crate::text::{at_lit, chars_of, contains, contains_lit, find_from, find_lit, lemma_find_from_bounds, lemma_rfind_bounds, rfind, rfind_exec, slice, starts_with, starts_with_exec, string_of, trim, trim_exec};
use crate::xml::{attribute, close_of, element_inner, element_inner_lit, extract_attribute, find_top_level_lit, open_close, parse_xml_base, resolve_iri, resolve_relative_iri, top_level_element, xml_base};

verus! {

/// The class expression block inside an `rdf:type`: the body of the description it holds, or
/// itself, trimmed.
pub open spec fn unwrap_typed(ce_block: Seq<char>) -> Seq<char> {
    let t = trim(ce_block);
    if starts_with(t, "<rdf:Description"@) {
        element_inner(t, "rdf:Description"@)
    } else {
        t
    }
}

fn unwrap_typed_class_expression_block(ce_block: &Vec<char>) -> (r: Vec<char>)
    ensures
        r@ == unwrap_typed(ce_block@),
{
    let t = trim_exec(ce_block);
    if starts_with_exec(&t, &chars_of("<rdf:Description")) {
        element_inner_lit(&t, "rdf:Description")
    } else {
        t
    }
}

/// The class the first `<owl:Class` open tag names by `rdf:about` or `rdf:resource`.
pub open spec fn atomic_class_type(ce_block: Seq<char>, base: Seq<char>) -> Option<Seq<char>> {
    match find_from(ce_block, 0, "<owl:Class"@) {
        None => None,
        Some(idx) => {
            let rest = ce_block.subrange(idx, ce_block.len() as int);
            match find_from(rest, 0, seq!['>']) {
                None => None,
                Some(gt) => {
                    let open = rest.subrange(0, gt + 1);
                    match attribute(open, "rdf:about"@) {
                        Some(a) => Some(resolve_iri(a, base)),
                        None => match attribute(open, "rdf:resource"@) {
                            Some(r) => Some(resolve_iri(r, base)),
                            None => None,
                        },
                    }
                },
            }
        },
    }
}

fn atomic_class_type_iri(ce_block: &Vec<char>, base: &Vec<char>) -> (r: Option<Vec<char>>)
    ensures
        match r {
            Some(v) => atomic_class_type(ce_block@, base@) == Some(v@),
            None => atomic_class_type(ce_block@, base@) is None,
        },
{
    let idx = match find_lit(ce_block, 0, "<owl:Class") {
        None => return None,
        Some(i) => i,
    };
    proof {
        lemma_find_from_bounds(ce_block@, 0, "<owl:Class"@);
    }
    let rest = slice(ce_block, idx, ce_block.len());
    let gtv: Vec<char> = vec!['>'];
    assert(gtv@ =~= seq!['>']);
    let gt = match crate::text::find(&rest, 0, &gtv) {
        None => return None,
        Some(g) => g,
    };
    proof {
        lemma_find_from_bounds(rest@, 0, gtv@);
        assert(gt < rest.len());
    }
    let open = slice(&rest, 0, gt + 1);
    if let Some(a) = extract_attribute(&open, "rdf:about") {
        return Some(resolve_relative_iri(&a, base));
    }
    if let Some(r) = extract_attribute(&open, "rdf:resource") {
        return Some(resolve_relative_iri(&r, base));
    }
    None
}

/// The class expression of a complex `rdf:type`: its intersection, union or enumeration, the
/// object or data restriction it is, or the class an `owl:Class` inside it names.
pub open spec fn typed_class_expression(
    ce: Seq<char>,
    base: Seq<char>,
    dt_props: Seq<Seq<char>>,
    nodes: Seq<(Seq<char>, Seq<Seq<char>>)>,
) -> Option<Seq<char>> {
    match boolean_operator(ce, "owl:intersectionOf"@, "ObjectIntersectionOf"@, base, dt_props, nodes) {
        Some(c) => Some(c),
        None => match boolean_operator(ce, "owl:unionOf"@, "ObjectUnionOf"@, base, dt_props, nodes) {
            Some(c) => Some(c),
            None => match one_of(ce, base, dt_props, nodes) {
                Some(c) => Some(c),
                None => match object_restriction(ce, base, dt_props) {
                    Some(c) => Some(c),
                    None => match data_restriction(ce, base, dt_props) {
                        Some(c) => Some(c),
                        None => match atomic_class_type(ce, base) {
                            Some(i) => Some(entity_ref(i)),
                            None => None,
                        },
                    },
                },
            },
        },
    }
}

fn typed_class_expression_exec(
    ce: &Vec<char>,
    base: &Vec<char>,
    dt_props: &Vec<Vec<char>>,
    nodes: &Vec<NodeList>,
) -> (r: Option<Vec<char>>)
    ensures
        match r {
            Some(v) => typed_class_expression(
                ce@,
                base@,
                views(dt_props@),
                nodes@.map_values(|n: NodeList| n@),
            ) == Some(v@),
            None => typed_class_expression(
                ce@,
                base@,
                views(dt_props@),
                nodes@.map_values(|n: NodeList| n@),
            ) is None,
        },
{
    if let Some(c) = boolean_operator_ofn(ce, "owl:intersectionOf", "ObjectIntersectionOf", base, dt_props, nodes) {
        return Some(c);
    }
    if let Some(c) = boolean_operator_ofn(ce, "owl:unionOf", "ObjectUnionOf", base, dt_props, nodes) {
        return Some(c);
    }
    if let Some(c) = one_of_ofn(ce, base, dt_props, nodes) {
        return Some(c);
    }
    if let Some(c) = object_restriction_chars(ce, base, dt_props) {
        return Some(c);
    }
    if let Some(c) = data_restriction_chars(ce, base, dt_props) {
        return Some(c);
    }
    match atomic_class_type_iri(ce, base) {
        Some(i) => Some(ofn_entity_ref(&i)),
        None => None,
    }
}

/// An individual element (named `tag`, not a typed declaration of an entity) as the
/// individual and the complex class it is asserted to be in: the class expression of its
/// complex top-level `rdf:type`; or, without one, the data restriction or (unless its body is
/// that of a class restriction) the object restriction written in its body.
#[verifier::opaque]
pub open spec fn class_assertion(
    block: Seq<char>,
    tag: Seq<char>,
    base: Seq<char>,
    dt_props: Seq<Seq<char>>,
    nodes: Seq<(Seq<char>, Seq<Seq<char>>)>,
) -> Option<PairView> {
    if is_typed_entity_declaration(block) {
        None
    } else {
        match find_from(block, 0, seq!['>']) {
            None => None,
            Some(oe) => match about_or_id(block.subrange(0, oe + 1), base) {
                None => None,
                Some(i) => {
                    let iri = resolve_iri(i, base);
                    match rfind(block, close_of(tag)) {
                        None => None,
                        Some(cs) => if cs < oe + 1 {
                            None
                        } else {
                            let inner = block.subrange(oe + 1, cs);
                            match top_level_element(inner, "rdf:type"@) {
                                Some((a, e)) => {
                                    let tb = inner.subrange(a, e);
                                    if is_simple_type_element(tb) {
                                        None
                                    } else {
                                        match typed_class_expression(
                                            unwrap_typed(element_inner(tb, "rdf:type"@)),
                                            base,
                                            dt_props,
                                            nodes,
                                        ) {
                                            Some(c) => Some((iri, c)),
                                            None => None,
                                        }
                                    }
                                },
                                None => if !contains(inner, "<owl:onProperty"@) {
                                    None
                                } else {
                                    match data_restriction(inner, base, dt_props) {
                                        Some(c) => Some((iri, c)),
                                        None => if is_class_restriction(inner) {
                                            None
                                        } else {
                                            match inline_restriction(inner, base, dt_props) {
                                                Some(c) => Some((iri, c)),
                                                None => None,
                                            }
                                        },
                                    }
                                },
                            }
                        },
                    }
                },
            },
        }
    }
}

fn class_assertion_exec(
    block: &Vec<char>,
    tag: &Vec<char>,
    base: &Vec<char>,
    dt_props: &Vec<Vec<char>>,
    nodes: &Vec<NodeList>,
) -> (r: Option<(String, String)>)
    ensures
        match r {
            Some(v) => class_assertion(
                block@,
                tag@,
                base@,
                views(dt_props@),
                nodes@.map_values(|n: NodeList| n@),
            ) == Some(v@),
            None => class_assertion(
                block@,
                tag@,
                base@,
                views(dt_props@),
                nodes@.map_values(|n: NodeList| n@),
            ) is None,
        },
{
    proof {
        reveal(class_assertion);
    }
    if is_typed_entity_declaration_exec(block) {
        return None;
    }
    proof {
        reveal_strlit(">");
        assert(">"@ =~= seq!['>']);
    }
    let oe = match find_lit(block, 0, ">") {
        None => return None,
        Some(o) => o,
    };
    proof {
        lemma_find_from_bounds(block@, 0, seq!['>']);
        assert(oe < block.len());
    }
    let i = match about_or_id_exec(&slice(block, 0, oe + 1), base) {
        None => return None,
        Some(i) => i,
    };
    let iri = resolve_relative_iri(&i, base);
    let (_, close) = open_close(tag);
    let cs = match rfind_exec(block, &close) {
        None => return None,
        Some(c) => c,
    };
    proof {
        lemma_rfind_bounds(block@, close@);
    }
    if cs < oe + 1 {
        return None;
    }
    let inner = slice(block, oe + 1, cs);
    match find_top_level_lit(&inner, "rdf:type") {
        Some((a, e)) => {
            let tb = slice(&inner, a, e);
            if is_simple_type_element_exec(&tb) {
                return None;
            }
            let ce = unwrap_typed_class_expression_block(&element_inner_lit(&tb, "rdf:type"));
            match typed_class_expression_exec(&ce, base, dt_props, nodes) {
                Some(c) => Some((string_of(&iri), string_of(&c))),
                None => None,
            }
        },
        None => {
            if !contains_lit(&inner, "<owl:onProperty") {
                return None;
            }
            if let Some(c) = data_restriction_chars(&inner, base, dt_props) {
                return Some((string_of(&iri), string_of(&c)));
            }
            if is_class_restriction_description(&inner) {
                return None;
            }
            match inline_restriction_ce_to_ofn(&inner, base, dt_props) {
                Some(c) => Some((string_of(&iri), string_of(&c))),
                None => None,
            }
        },
    }
}

/// The class assertions of the individual elements (`rdf:Description` and
/// `owl:NamedIndividual`) from `pos` on.
pub open spec fn class_assertion_scan(
    s: Seq<char>,
    base: Seq<char>,
    dt_props: Seq<Seq<char>>,
    nodes: Seq<(Seq<char>, Seq<Seq<char>>)>,
    pos: int,
) -> Seq<PairView>
    decreases s.len() - pos,
{
    if pos < 0 || pos >= s.len() {
        Seq::empty()
    } else {
        match next_individual(s, pos) {
            None => Seq::empty(),
            Some(st) => if st < pos || st >= s.len() {
                Seq::empty()
            } else {
                let tag = individual_tag(s, st);
                match kind_end(s, st, tag, EndRule::Balanced) {
                    None => Seq::empty(),
                    Some(end) => if end <= st || end > s.len() {
                        Seq::empty()
                    } else {
                        opt_seq(class_assertion(s.subrange(st, end), tag, base, dt_props, nodes))
                            + class_assertion_scan(s, base, dt_props, nodes, end)
                    },
                }
            },
        }
    }
}

/// The complex class assertions of the document's individual elements, in order.
pub open spec fn complex_class_assertions(s: Seq<char>) -> Seq<PairView> {
    let base = xml_base(s);
    let dt = declared_datatype_properties(s);
    class_assertion_scan(s, base, dt, node_lists(s, base, dt), 0)
}

/// Collect, for each individual element with a complex class, the individual and the class
/// expression, as `complex_class_assertions` lists them.
pub fn collect_object_class_assertions(rdf: &str) -> (r: Vec<(String, String)>)
    ensures
        pair_views(r@) == complex_class_assertions(rdf@),
{
    let s = chars_of(rdf);
    let base = parse_xml_base(&s);
    let dt = declared_datatype_chars(&s);
    let nodes = build_rdf_collection_node_map(&s, &base, &dt);
    let ghost dv = views(dt@);
    let ghost nv = nodes@.map_values(|n: NodeList| n@);
    let mut out: Vec<(String, String)> = Vec::new();
    let mut pos: usize = 0;
    assert(pair_views(out@) =~= Seq::<PairView>::empty());
    while pos < s.len()
        invariant
            s@ == rdf@,
            base@ == xml_base(s@),
            dv == views(dt@),
            dv == declared_datatype_properties(s@),
            nv == nodes@.map_values(|n: NodeList| n@),
            nv == node_lists(s@, base@, dv),
            pair_views(out@) + class_assertion_scan(s@, base@, dv, nv, pos as int)
                == class_assertion_scan(s@, base@, dv, nv, 0),
        decreases s.len() - pos,
    {
        let ghost before = pair_views(out@);
        let d = find_lit(&s, pos, "<rdf:Description");
        let i = find_lit(&s, pos, "<owl:NamedIndividual");
        proof {
            lemma_find_from_bounds(s@, pos as int, "<rdf:Description"@);
            lemma_find_from_bounds(s@, pos as int, "<owl:NamedIndividual"@);
        }
        let st = match (d, i) {
            (Some(d), Some(i)) => if d <= i {
                d
            } else {
                i
            },
            (Some(d), None) => d,
            (None, Some(i)) => i,
            (None, None) => {
                assert(before =~= before + Seq::<PairView>::empty());
                return out;
            },
        };
        if st >= s.len() {
            assert(before =~= before + Seq::<PairView>::empty());
            return out;
        }
        let tag = if at_lit(&s, st, "<owl:NamedIndividual") {
            chars_of("owl:NamedIndividual")
        } else {
            chars_of("rdf:Description")
        };
        assert(tag@ == individual_tag(s@, st as int));
        let end = match kind_end_exec(&s, st, &tag, EndRule::Balanced) {
            None => {
                assert(before =~= before + Seq::<PairView>::empty());
                return out;
            },
            Some(e) => e,
        };
        if end <= st || end > s.len() {
            assert(before =~= before + Seq::<PairView>::empty());
            return out;
        }
        let block = slice(&s, st, end);
        match class_assertion_exec(&block, &tag, &base, &dt, &nodes) {
            Some(v) => {
                let ghost vv = v@;
                out.push(v);
                assert(pair_views(out@) =~= before + seq![vv]);
            },
            None => {
                assert(pair_views(out@) =~= before + Seq::<PairView>::empty());
            },
        }
        assert(pair_views(out@) + class_assertion_scan(s@, base@, dv, nv, end as int) =~= before
            + class_assertion_scan(s@, base@, dv, nv, pos as int));
        pos = end;
    }
    let ghost fin = pair_views(out@);
    assert(fin =~= fin + class_assertion_scan(s@, base@, dv, nv, pos as int));
    out
}

} // verus!

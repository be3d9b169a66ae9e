//! Pairs of IRIs read off `rdf:Description` resources: `owl:sameAs`, `owl:complementOf`,
//! `rdfs:domain`, `rdfs:range` and `owl:propertyDisjointWith`.
use vstd::prelude::*;

use crate::descriptions::{first_gt_or_zero, first_gt_or_zero_exec};
use crate::reified::{about_or_id, about_or_id_exec};
use crate::restrictions::{extract_property_resource, property_resource};
use crate::scan::{collect_elements, element_walk, pair_views, EndRule, PairView};
use crate::text::{chars_of, contains, find_from, lemma_find_from_bounds, lemma_rfind_bounds, push_all, push_str, rfind, rfind_exec, slice, string_of};
use crate::xml::{element_inner, element_inner_lit, parse_xml_base, resolve_iri, resolve_relative_iri, xml_base};

verus! {

/// The IRI a resource's open tag names (`rdf:about`, or `{base}#{rdf:ID}`, resolved against
/// `base`) and the text between its open tag and the last `close` of the block.
pub open spec fn block_head(block: Seq<char>, base: Seq<char>, close: Seq<char>) -> Option<
    PairView,
> {
    match find_from(block, 0, seq!['>']) {
        None => None,
        Some(oe) => match about_or_id(block.subrange(0, oe + 1), base) {
            None => None,
            Some(iri) => match rfind(block, close) {
                None => None,
                Some(cs) => if cs < oe + 1 {
                    None
                } else {
                    Some((resolve_iri(iri, base), block.subrange(oe + 1, cs)))
                },
            },
        },
    }
}

pub fn block_head_exec(block: &Vec<char>, base: &Vec<char>, close: &Vec<char>) -> (r: Option<
    (Vec<char>, Vec<char>),
>)
    ensures
        match r {
            Some((a, b)) => block_head(block@, base@, close@) == Some((a@, b@)),
            None => block_head(block@, base@, close@) is None,
        },
{
    let gt: Vec<char> = vec!['>'];
    assert(gt@ =~= seq!['>']);
    let oe = match crate::text::find(block, 0, &gt) {
        None => return None,
        Some(o) => o,
    };
    proof {
        lemma_find_from_bounds(block@, 0, gt@);
        assert(oe < block.len());
    }
    let open = slice(block, 0, oe + 1);
    let iri = match about_or_id_exec(&open, base) {
        None => return None,
        Some(i) => i,
    };
    let cs = match rfind_exec(block, close) {
        None => return None,
        Some(c) => c,
    };
    proof {
        lemma_rfind_bounds(block@, close@);
    }
    if cs < oe + 1 {
        return None;
    }
    Some((resolve_relative_iri(&iri, base), slice(block, oe + 1, cs)))
}

/// A description that names a resource and has an `owl:sameAs` property: the resource and
/// the one it is the same as.
pub open spec fn same_as_pair(block: Seq<char>, base: Seq<char>) -> Option<PairView> {
    if block.len() == 0 {
        None
    } else {
        match about_or_id(block.subrange(0, first_gt_or_zero(block) + 1), base) {
            None => None,
            Some(iri) => match property_resource(
                element_inner(block, "rdf:Description"@),
                "owl:sameAs"@,
                base,
            ) {
                None => None,
                Some(target) => Some((resolve_iri(iri, base), target)),
            },
        }
    }
}

fn same_as_pair_exec(block: &Vec<char>, base: &Vec<char>) -> (r: Option<(String, String)>)
    ensures
        match r {
            Some(v) => same_as_pair(block@, base@) == Some(v@),
            None => same_as_pair(block@, base@) is None,
        },
{
    if block.len() == 0 {
        return None;
    }
    let oe = first_gt_or_zero_exec(block);
    let open = slice(block, 0, oe + 1);
    let iri = match about_or_id_exec(&open, base) {
        None => return None,
        Some(i) => i,
    };
    let inner = element_inner_lit(block, "rdf:Description");
    match extract_property_resource(&inner, "owl:sameAs", base) {
        None => None,
        Some(target) => Some((string_of(&resolve_relative_iri(&iri, base)), string_of(&target))),
    }
}

/// `same_as_pair` with its base.
pub open spec fn same_as_fn(base: Seq<char>) -> spec_fn(Seq<char>) -> Option<PairView> {
    |b: Seq<char>| same_as_pair(b, base)
}

/// The `owl:sameAs` pairs of the document's descriptions, in document order.
pub open spec fn same_as_pairs(s: Seq<char>) -> Seq<PairView> {
    element_walk(s, "rdf:Description"@, EndRule::Balanced, 0, same_as_fn(xml_base(s)))
}

/// Collect the pairs of individuals that descriptions state the same by `owl:sameAs`.
pub fn collect_owl_same_as_pairs(rdf: &str) -> (r: Vec<(String, String)>)
    ensures
        pair_views(r@) == same_as_pairs(rdf@),
{
    let s = chars_of(rdf);
    let base = parse_xml_base(&s);
    let tag = chars_of("rdf:Description");
    let f = |b: &Vec<char>| -> (r: Option<(String, String)>)
        ensures
            match r {
                Some(v) => same_as_pair(b@, base@) == Some(v@),
                None => same_as_pair(b@, base@) is None,
            },
        { same_as_pair_exec(b, &base) };
    let r = collect_elements(&s, &tag, EndRule::Balanced, f, Ghost(same_as_fn(base@)));
    assert(pair_views(r@) =~= r@.map_values(|x: (String, String)| x@));
    r
}

} // verus!

verus! {

/// A class description with `owl:complementOf`: the class, and the complement of the class it
/// names.
pub open spec fn complement_pair(block: Seq<char>, base: Seq<char>) -> Option<PairView> {
    match block_head(block, base, "</rdf:Description>"@) {
        None => None,
        Some((iri, inner)) => if !contains(inner, "owl:complementOf"@) {
            None
        } else {
            match property_resource(inner, "owl:complementOf"@, base) {
                None => None,
                Some(c) => Some((iri, "ObjectComplementOf(<"@ + c + ">)"@)),
            }
        },
    }
}

fn complement_pair_exec(block: &Vec<char>, base: &Vec<char>) -> (r: Option<(String, String)>)
    ensures
        match r {
            Some(v) => complement_pair(block@, base@) == Some(v@),
            None => complement_pair(block@, base@) is None,
        },
{
    let (iri, inner) = match block_head_exec(block, base, &chars_of("</rdf:Description>")) {
        None => return None,
        Some(h) => h,
    };
    if !crate::text::contains_lit(&inner, "owl:complementOf") {
        return None;
    }
    match extract_property_resource(&inner, "owl:complementOf", base) {
        None => None,
        Some(c) => {
            let mut out: Vec<char> = Vec::new();
            push_str(&mut out, "ObjectComplementOf(<");
            push_all(&mut out, &c);
            push_str(&mut out, ">)");
            assert(out@ =~= "ObjectComplementOf(<"@ + c@ + ">)"@);
            Some((string_of(&iri), string_of(&out)))
        },
    }
}

/// `complement_pair` with its base.
pub open spec fn complement_fn(base: Seq<char>) -> spec_fn(Seq<char>) -> Option<PairView> {
    |b: Seq<char>| complement_pair(b, base)
}

/// The class and complement pairs of the document's descriptions, in document order.
pub open spec fn complement_pairs(s: Seq<char>) -> Seq<PairView> {
    element_walk(s, "rdf:Description"@, EndRule::Balanced, 0, complement_fn(xml_base(s)))
}

/// Collect, for each class description with `owl:complementOf`, the class and
/// `ObjectComplementOf(<D>)` for the class `D` it names.
pub fn collect_complement_subclasses(rdf: &str) -> (r: Vec<(String, String)>)
    ensures
        pair_views(r@) == complement_pairs(rdf@),
{
    let s = chars_of(rdf);
    let base = parse_xml_base(&s);
    let tag = chars_of("rdf:Description");
    let f = |b: &Vec<char>| -> (r: Option<(String, String)>)
        ensures
            match r {
                Some(v) => complement_pair(b@, base@) == Some(v@),
                None => complement_pair(b@, base@) is None,
            },
        { complement_pair_exec(b, &base) };
    let r = collect_elements(&s, &tag, EndRule::Balanced, f, Ghost(complement_fn(base@)));
    assert(pair_views(r@) =~= r@.map_values(|x: (String, String)| x@));
    r
}

/// A description of a resource with a `tag` property: the resource and the IRI the property
/// names.
pub open spec fn annotation_pair(block: Seq<char>, base: Seq<char>, tag: Seq<char>) -> Option<
    PairView,
> {
    match block_head(block, base, "</rdf:Description>"@) {
        None => None,
        Some((iri, inner)) => if !contains(inner, tag) {
            None
        } else {
            match property_resource(inner, tag, base) {
                None => None,
                Some(c) => Some((iri, c)),
            }
        },
    }
}

fn annotation_pair_exec(block: &Vec<char>, base: &Vec<char>, tag: &str) -> (r: Option<
    (String, String),
>)
    ensures
        match r {
            Some(v) => annotation_pair(block@, base@, tag@) == Some(v@),
            None => annotation_pair(block@, base@, tag@) is None,
        },
{
    let (iri, inner) = match block_head_exec(block, base, &chars_of("</rdf:Description>")) {
        None => return None,
        Some(h) => h,
    };
    if !crate::text::contains_lit(&inner, tag) {
        return None;
    }
    match extract_property_resource(&inner, tag, base) {
        None => None,
        Some(c) => Some((string_of(&iri), string_of(&c))),
    }
}

/// `annotation_pair` with its base and property.
pub open spec fn annotation_fn(base: Seq<char>, tag: Seq<char>) -> spec_fn(Seq<char>) -> Option<
    PairView,
> {
    |b: Seq<char>| annotation_pair(b, base, tag)
}

/// The pairs that the descriptions' `tag` properties give, in document order.
pub open spec fn annotation_pairs(s: Seq<char>, tag: Seq<char>) -> Seq<PairView> {
    element_walk(s, "rdf:Description"@, EndRule::Balanced, 0, annotation_fn(xml_base(s), tag))
}

/// The pairs that the descriptions' `tag` properties give.
pub(crate) fn collect_annotation_pairs(s: &Vec<char>, tag: &str) -> (r: Vec<(String, String)>)
    ensures
        pair_views(r@) == annotation_pairs(s@, tag@),
{
    let base = parse_xml_base(s);
    let desc = chars_of("rdf:Description");
    let f = |b: &Vec<char>| -> (r: Option<(String, String)>)
        ensures
            match r {
                Some(v) => annotation_pair(b@, base@, tag@) == Some(v@),
                None => annotation_pair(b@, base@, tag@) is None,
            },
        { annotation_pair_exec(b, &base, tag) };
    let r = collect_elements(s, &desc, EndRule::Balanced, f, Ghost(annotation_fn(base@, tag@)));
    assert(pair_views(r@) =~= r@.map_values(|x: (String, String)| x@));
    r
}

/// Collect, for each property description with `rdfs:domain`, the property and the domain.
pub fn collect_rdfs_object_property_domains(rdf: &str) -> (r: Vec<(String, String)>)
    ensures
        pair_views(r@) == annotation_pairs(rdf@, "rdfs:domain"@),
{
    collect_annotation_pairs(&chars_of(rdf), "rdfs:domain")
}

/// Collect, for each property description with `owl:propertyDisjointWith`, the property and
/// the one it is disjoint with.
pub fn collect_property_disjoint_pairs(rdf: &str) -> (r: Vec<(String, String)>)
    ensures
        pair_views(r@) == annotation_pairs(rdf@, "owl:propertyDisjointWith"@),
{
    collect_annotation_pairs(&chars_of(rdf), "owl:propertyDisjointWith")
}

} // verus!

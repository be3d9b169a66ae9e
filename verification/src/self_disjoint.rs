//! Individuals that fall under a self-disjoint restriction: an anonymous `owl:Restriction`
//! that is disjoint with something and has a minimum cardinality, applied to each subject of
//! an assertion of its property.
use vstd::prelude::*;

use crate::descriptions::{first_gt_or_zero, first_gt_or_zero_exec};
use crate::ids::views;
use crate::object_assertions::{blank_iri, blank_iri_exec, collect_object_property_assertions, object_property_assertions, triple_views, TripleView};
use crate::ofn_terms::{after_last_hash, after_last_hash_exec};
use crate::restrictions::{extract_property_resource, object_restriction, object_restriction_chars, property_resource, text_content, text_content_lit};
use crate::scan::{collect_elements, element_walk, EndRule};
use crate::subclasses::{declared_datatype_chars, declared_datatype_properties};
use crate::text::{chars_of, contains, contains_lit, ends_with, ends_with_exec, push_all, push_str, slice, string_of, trim, trim_exec};
use crate::xml::{attribute, extract_attribute, parse_xml_base, vec_eq, xml_base};

verus! {

/// A restriction element with an `rdf:nodeID`, `owl:disjointWith`, `owl:minCardinality` and an
/// `owl:onProperty`: its blank node IRI, the property, and the restriction as a class
/// expression (its own, or else `ObjectMinCardinality(n <p> owl:Thing)` with its minimum
/// cardinality, `1` where that is empty).
pub open spec fn self_disjoint_restriction(
    block: Seq<char>,
    base: Seq<char>,
    dt_props: Seq<Seq<char>>,
) -> Option<TripleView> {
    if block.len() == 0 {
        None
    } else {
        let open = block.subrange(0, first_gt_or_zero(block) + 1);
        match attribute(open, "rdf:nodeID"@) {
            None => None,
            Some(node) => if !contains(block, "owl:disjointWith"@) || !contains(
                block,
                "owl:minCardinality"@,
            ) {
                None
            } else {
                match property_resource(block, "owl:onProperty"@, base) {
                    None => None,
                    Some(prop) => {
                        let ce = match object_restriction(block, base, dt_props) {
                            Some(c) => c,
                            None => {
                                let n = match text_content(block, "owl:minCardinality"@) {
                                    Some(t) => if t.len() > 0 {
                                        t
                                    } else {
                                        "1"@
                                    },
                                    None => "1"@,
                                };
                                "ObjectMinCardinality("@ + trim(n) + " <"@ + prop
                                    + "> owl:Thing)"@
                            },
                        };
                        Some((blank_iri(base, node), prop, ce))
                    },
                }
            },
        }
    }
}

fn self_disjoint_restriction_exec(block: &Vec<char>, base: &Vec<char>, dt_props: &Vec<Vec<char>>) -> (r:
    Option<(Vec<char>, Vec<char>, Vec<char>)>)
    ensures
        match r {
            Some(v) => self_disjoint_restriction(block@, base@, views(dt_props@)) == Some(v@),
            None => self_disjoint_restriction(block@, base@, views(dt_props@)) is None,
        },
{
    if block.len() == 0 {
        return None;
    }
    let oe = first_gt_or_zero_exec(block);
    let open = slice(block, 0, oe + 1);
    let node = match extract_attribute(&open, "rdf:nodeID") {
        None => return None,
        Some(n) => n,
    };
    if !contains_lit(block, "owl:disjointWith") || !contains_lit(block, "owl:minCardinality") {
        return None;
    }
    let prop = match extract_property_resource(block, "owl:onProperty", base) {
        None => return None,
        Some(p) => p,
    };
    let ce = match object_restriction_chars(block, base, dt_props) {
        Some(c) => c,
        None => {
            let n = match text_content_lit(block, "owl:minCardinality") {
                Some(t) => if t.len() > 0 {
                    t
                } else {
                    chars_of("1")
                },
                None => chars_of("1"),
            };
            let mut out = chars_of("ObjectMinCardinality(");
            push_all(&mut out, &trim_exec(&n));
            push_str(&mut out, " <");
            push_all(&mut out, &prop);
            push_str(&mut out, "> owl:Thing)");
            out
        },
    };
    Some((blank_iri_exec(base, &node), prop, ce))
}

pub open spec fn self_disjoint_fn(base: Seq<char>, dt_props: Seq<Seq<char>>) -> spec_fn(
    Seq<char>,
) -> Option<TripleView> {
    |b: Seq<char>| self_disjoint_restriction(b, base, dt_props)
}

/// Whether `property` is `prop`, or ends with `#` or `/` and the part of `prop` after its last
/// `#`.
pub open spec fn names_property(property: Seq<char>, prop: Seq<char>) -> bool {
    property == prop || ends_with(property, seq!['#'] + after_last_hash(prop)) || ends_with(
        property,
        seq!['/'] + after_last_hash(prop),
    )
}

/// For each assertion of `opas` on a property that `names_property` matches with `prop`: its
/// subject, with `restriction` and `ce`.
pub open spec fn restricted_subjects(
    opas: Seq<TripleView>,
    prop: Seq<char>,
    restriction: Seq<char>,
    ce: Seq<char>,
) -> Seq<TripleView>
    decreases opas.len(),
{
    if opas.len() == 0 {
        Seq::empty()
    } else {
        let t = opas.last();
        restricted_subjects(opas.drop_last(), prop, restriction, ce) + if names_property(
            t.1,
            prop,
        ) {
            seq![(t.0, restriction, ce)]
        } else {
            Seq::empty()
        }
    }
}

/// The individuals under the last self-disjoint restriction of the document, with the
/// restriction's IRI and class expression; none where the document has no such restriction.
pub open spec fn self_disjoint_assertions(s: Seq<char>) -> Seq<TripleView> {
    let found = element_walk(
        s,
        "owl:Restriction"@,
        EndRule::Tagged,
        0,
        self_disjoint_fn(xml_base(s), declared_datatype_properties(s)),
    );
    if found.len() == 0 {
        Seq::empty()
    } else {
        let (restriction, prop, ce) = found.last();
        restricted_subjects(object_property_assertions(s), prop, restriction, ce)
    }
}

/// Collect `(individual, restriction, class expression)` for each individual under the
/// document's last self-disjoint restriction, as `self_disjoint_assertions` says.
pub fn collect_self_disjoint_restriction_assertions(rdf: &str) -> (r: Vec<(String, String, String)>)
    ensures
        triple_views(r@) == self_disjoint_assertions(rdf@),
{
    let s = chars_of(rdf);
    let base = parse_xml_base(&s);
    let dt = declared_datatype_chars(&s);
    let f = |b: &Vec<char>| -> (r: Option<(Vec<char>, Vec<char>, Vec<char>)>)
        ensures
            match r {
                Some(v) => self_disjoint_restriction(b@, base@, views(dt@)) == Some(v@),
                None => self_disjoint_restriction(b@, base@, views(dt@)) is None,
            },
        { self_disjoint_restriction_exec(b, &base, &dt) };
    let found = collect_elements(
        &s,
        &chars_of("owl:Restriction"),
        EndRule::Tagged,
        f,
        Ghost(self_disjoint_fn(base@, views(dt@))),
    );
    let ghost fv = found@.map_values(|x: (Vec<char>, Vec<char>, Vec<char>)| x@);
    if found.len() == 0 {
        let r: Vec<(String, String, String)> = Vec::new();
        assert(triple_views(r@) =~= Seq::<TripleView>::empty());
        return r;
    }
    let last = &found[found.len() - 1];
    assert(last@ == fv.last());
    let restriction = &last.0;
    let prop = &last.1;
    let ce = &last.2;
    let suffix = after_last_hash_exec(prop);
    let mut hash_suffix: Vec<char> = vec!['#'];
    push_all(&mut hash_suffix, &suffix);
    let mut slash_suffix: Vec<char> = vec!['/'];
    push_all(&mut slash_suffix, &suffix);
    let opas = collect_object_property_assertions(rdf);
    let ghost ov = triple_views(opas@);
    let mut out: Vec<(String, String, String)> = Vec::new();
    let mut i: usize = 0;
    assert(ov.take(0) =~= Seq::<TripleView>::empty());
    assert(triple_views(out@) =~= Seq::<TripleView>::empty());
    while i < opas.len()
        invariant
            i <= opas.len(),
            ov == triple_views(opas@),
            hash_suffix@ == seq!['#'] + after_last_hash(prop@),
            slash_suffix@ == seq!['/'] + after_last_hash(prop@),
            triple_views(out@) == restricted_subjects(ov.take(i as int), prop@, restriction@, ce@),
        decreases opas.len() - i,
    {
        let t = &opas[i];
        let ghost tv = ov[i as int];
        assert(tv == (t.0@, t.1@, t.2@));
        let pv = chars_of(t.1.as_str());
        let hit = vec_eq(&pv, prop) || ends_with_exec(&pv, &hash_suffix) || ends_with_exec(
            &pv,
            &slash_suffix,
        );
        let ghost before = triple_views(out@);
        assert(ov.take(i + 1).drop_last() =~= ov.take(i as int));
        assert(ov.take(i + 1).last() == tv);
        if hit {
            out.push(
                (
                    string_of(&chars_of(t.0.as_str())),
                    string_of(restriction),
                    string_of(ce),
                ),
            );
            assert(triple_views(out@) =~= before + seq![(tv.0, restriction@, ce@)]);
        } else {
            assert(triple_views(out@) =~= before + Seq::<TripleView>::empty());
        }
        i += 1;
    }
    assert(ov.take(opas.len() as int) =~= ov);
    out
}

} // verus!

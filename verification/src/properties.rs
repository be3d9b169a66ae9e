//! Property axioms read off RDF/XML: object and datatype property ranges, functional
//! properties, and the imported ontologies.
use vstd::prelude::*;

use crate::ids::views;
use crate::iri_set::sorted_members;
use crate::ofn_terms::{after_last_hash, after_last_hash_exec};
use crate::pairs::{annotation_pairs, block_head, block_head_exec, collect_annotation_pairs};
use crate::reified::{about_or_id, about_or_id_exec};
use crate::restrictions::{extract_property_resource, property_resource};
use crate::scan::{collect_elements, element_walk, pair_views, str_views, EndRule, PairView};
use crate::text::{chars_of, contains, contains_lit, ends_with, find, find_from, find_lit, lemma_find_from_bounds, lemma_rfind_bounds, push_all, rfind, rfind_lit, slice, string_of, trim_end};
use crate::xml::{attribute, extract_attribute, parse_xml_base, resolve_iri, resolve_relative_iri, tag_element_end, tagged_end, vec_eq, xml_base};

verus! {

/// An object property element (or one of the property characteristic elements) with
/// `rdfs:range`: the property and its range.
pub open spec fn owl_range_pair(block: Seq<char>, base: Seq<char>) -> Option<PairView> {
    match find_from(block, 0, seq!['>']) {
        None => None,
        Some(oe) => match about_or_id(block.subrange(0, oe + 1), base) {
            None => None,
            Some(iri) => {
                let cs = match rfind(block, "</owl:ObjectProperty>"@) {
                    Some(c) => c,
                    None => block.len() as int,
                };
                if cs < oe + 1 {
                    None
                } else {
                    match property_resource(block.subrange(oe + 1, cs), "rdfs:range"@, base) {
                        None => None,
                        Some(c) => Some((resolve_iri(iri, base), c)),
                    }
                }
            },
        },
    }
}

fn owl_range_pair_exec(block: &Vec<char>, base: &Vec<char>) -> (r: Option<(String, String)>)
    ensures
        match r {
            Some(v) => owl_range_pair(block@, base@) == Some(v@),
            None => owl_range_pair(block@, base@) is None,
        },
{
    proof {
        reveal_strlit(">");
        assert(">"@ =~= seq!['>']);
    }
    let oe = match find_lit(block, 0, ">") {
        None => return None,
        Some(o) => o,
    };
    proof {
        lemma_find_from_bounds(block@, 0, seq!['>']);
        assert(oe < block.len());
    }
    let open = slice(block, 0, oe + 1);
    let iri = match about_or_id_exec(&open, base) {
        None => return None,
        Some(i) => i,
    };
    let cs = match rfind_lit(block, "</owl:ObjectProperty>") {
        Some(c) => {
            proof {
                lemma_rfind_bounds(block@, "</owl:ObjectProperty>"@);
            }
            c
        },
        None => block.len(),
    };
    if cs < oe + 1 {
        return None;
    }
    let inner = slice(block, oe + 1, cs);
    match extract_property_resource(&inner, "rdfs:range", base) {
        None => None,
        Some(c) => Some((string_of(&resolve_relative_iri(&iri, base)), string_of(&c))),
    }
}

/// `owl_range_pair` with its base.
pub open spec fn owl_range_fn(base: Seq<char>) -> spec_fn(Seq<char>) -> Option<PairView> {
    |b: Seq<char>| owl_range_pair(b, base)
}

/// The ranges that the elements named `tag` give their properties, in document order.
pub open spec fn owl_ranges(s: Seq<char>, tag: Seq<char>) -> Seq<PairView> {
    element_walk(s, tag, EndRule::TaggedOrBalanced, 0, owl_range_fn(xml_base(s)))
}

fn collect_owl_ranges(s: &Vec<char>, tag: &str) -> (r: Vec<(String, String)>)
    ensures
        pair_views(r@) == owl_ranges(s@, tag@),
{
    let base = parse_xml_base(s);
    let t = chars_of(tag);
    let f = |b: &Vec<char>| -> (r: Option<(String, String)>)
        ensures
            match r {
                Some(v) => owl_range_pair(b@, base@) == Some(v@),
                None => owl_range_pair(b@, base@) is None,
            },
        { owl_range_pair_exec(b, &base) };
    let r = collect_elements(s, &t, EndRule::TaggedOrBalanced, f, Ghost(owl_range_fn(base@)));
    assert(pair_views(r@) =~= r@.map_values(|x: (String, String)| x@));
    r
}

/// The object property ranges of the document: those of property descriptions with
/// `rdfs:range`, then those of the object property elements and of each kind of property
/// characteristic element.
pub open spec fn object_property_ranges(s: Seq<char>) -> Seq<PairView> {
    annotation_pairs(s, "rdfs:range"@) + owl_ranges(s, "owl:ObjectProperty"@) + owl_ranges(
        s,
        "owl:FunctionalProperty"@,
    ) + owl_ranges(s, "owl:SymmetricProperty"@) + owl_ranges(
        s,
        "owl:InverseFunctionalProperty"@,
    ) + owl_ranges(s, "owl:TransitiveProperty"@) + owl_ranges(s, "owl:ReflexiveProperty"@)
        + owl_ranges(s, "owl:IrreflexiveProperty"@) + owl_ranges(s, "owl:AsymmetricProperty"@)
}

fn append_pairs(out: &mut Vec<(String, String)>, more: Vec<(String, String)>)
    ensures
        pair_views(final(out)@) == pair_views(old(out)@) + pair_views(more@),
{
    let mut more = more;
    let ghost m = more@;
    out.append(&mut more);
    assert(pair_views(out@) =~= pair_views(old(out)@) + pair_views(m));
}

/// Collect the ranges of object properties, as `object_property_ranges` lists them.
pub fn collect_rdfs_object_property_ranges(rdf: &str) -> (r: Vec<(String, String)>)
    ensures
        pair_views(r@) == object_property_ranges(rdf@),
{
    let s = chars_of(rdf);
    let mut out = collect_annotation_pairs(&s, "rdfs:range");
    append_pairs(&mut out, collect_owl_ranges(&s, "owl:ObjectProperty"));
    append_pairs(&mut out, collect_owl_ranges(&s, "owl:FunctionalProperty"));
    append_pairs(&mut out, collect_owl_ranges(&s, "owl:SymmetricProperty"));
    append_pairs(&mut out, collect_owl_ranges(&s, "owl:InverseFunctionalProperty"));
    append_pairs(&mut out, collect_owl_ranges(&s, "owl:TransitiveProperty"));
    append_pairs(&mut out, collect_owl_ranges(&s, "owl:ReflexiveProperty"));
    append_pairs(&mut out, collect_owl_ranges(&s, "owl:IrreflexiveProperty"));
    append_pairs(&mut out, collect_owl_ranges(&s, "owl:AsymmetricProperty"));
    out
}

} // verus!

verus! {

/// The `rdf:resource` of each tag that holds `owl:imports`, from `pos` on: the tag runs from
/// `owl:imports` to the next `>`.
pub open spec fn imports_scan(s: Seq<char>, pos: int) -> Seq<Seq<char>>
    decreases s.len() - pos,
{
    if pos < 0 || pos > s.len() {
        Seq::empty()
    } else {
        match find_from(s, pos, "owl:imports"@) {
            None => Seq::empty(),
            Some(st) => if st < pos || st >= s.len() {
                Seq::empty()
            } else {
                match find_from(s, st, seq!['>']) {
                    None => Seq::empty(),
                    Some(g) => if g < st || g >= s.len() {
                        Seq::empty()
                    } else {
                        crate::scan::opt_seq(attribute(s.subrange(st, g + 1), "rdf:resource"@))
                            + imports_scan(s, g + 1)
                    },
                }
            },
        }
    }
}

/// Collect the IRIs of the ontologies that the document imports with `owl:imports`, in
/// document order.
pub fn collect_owl_imports(rdf: &str) -> (r: Vec<String>)
    ensures
        str_views(r@) == imports_scan(rdf@, 0),
{
    let s = chars_of(rdf);
    let mut out: Vec<String> = Vec::new();
    let mut pos: usize = 0;
    proof {
        reveal_strlit(">");
        assert(">"@ =~= seq!['>']);
    }
    assert(str_views(out@) =~= Seq::<Seq<char>>::empty());
    while pos <= s.len()
        invariant
            s@ == rdf@,
            ">"@ == seq!['>'],
            str_views(out@) + imports_scan(s@, pos as int) == imports_scan(s@, 0),
        decreases s.len() + 1 - pos,
    {
        let ghost before = str_views(out@);
        let st = match find_lit(&s, pos, "owl:imports") {
            None => {
                assert(before =~= before + Seq::<Seq<char>>::empty());
                return out;
            },
            Some(st) => st,
        };
        proof {
            lemma_find_from_bounds(s@, pos as int, "owl:imports"@);
        }
        if st >= s.len() {
            assert(before =~= before + Seq::<Seq<char>>::empty());
            return out;
        }
        let g = match find_lit(&s, st, ">") {
            None => {
                assert(before =~= before + Seq::<Seq<char>>::empty());
                return out;
            },
            Some(g) => g,
        };
        proof {
            lemma_find_from_bounds(s@, st as int, seq!['>']);
        }
        if g >= s.len() {
            assert(before =~= before + Seq::<Seq<char>>::empty());
            return out;
        }
        let tag = slice(&s, st, g + 1);
        match extract_attribute(&tag, "rdf:resource") {
            Some(r) => {
                out.push(string_of(&r));
                assert(str_views(out@) =~= before + seq![r@]);
            },
            None => {
                assert(str_views(out@) =~= before + Seq::<Seq<char>>::empty());
            },
        }
        assert(str_views(out@) + imports_scan(s@, g + 1) =~= before + imports_scan(s@, pos as int));
        pos = g + 1;
    }
    let ghost fin = str_views(out@);
    assert(fin =~= fin + imports_scan(s@, pos as int));
    out
}

/// How a datatype IRI is written in functional syntax: an XML Schema datatype as `xsd:local`,
/// `rdfs:Literal` by name, any other IRI in angle brackets.
pub open spec fn datatype_ref(iri: Seq<char>) -> Seq<char> {
    if contains(iri, "XMLSchema#"@) {
        "xsd:"@ + after_last_hash(iri)
    } else if iri == "http://www.w3.org/2000/01/rdf-schema#Literal"@ {
        "rdfs:Literal"@
    } else {
        seq!['<'] + iri + seq!['>']
    }
}

pub fn datatype_ofn_ref(iri: &Vec<char>) -> (r: Vec<char>)
    ensures
        r@ == datatype_ref(iri@),
{
    if contains_lit(iri, "XMLSchema#") {
        let mut out = chars_of("xsd:");
        push_all(&mut out, &after_last_hash_exec(iri));
        return out;
    }
    if vec_eq(iri, &chars_of("http://www.w3.org/2000/01/rdf-schema#Literal")) {
        return chars_of("rdfs:Literal");
    }
    let mut out: Vec<char> = vec!['<'];
    push_all(&mut out, iri);
    out.push('>');
    assert(out@ =~= seq!['<'] + iri@ + seq!['>']);
    out
}

/// A datatype property element with `rdfs:range`: the property and its range.
pub open spec fn datatype_range_pair(block: Seq<char>, base: Seq<char>) -> Option<PairView> {
    match find_from(block, 0, seq!['>']) {
        None => None,
        Some(oe) => match about_or_id(block.subrange(0, oe + 1), base) {
            None => None,
            Some(iri) => {
                let cs = match rfind(block, "</owl:DatatypeProperty>"@) {
                    Some(c) => c,
                    None => block.len() as int,
                };
                if cs < oe + 1 {
                    None
                } else {
                    match property_resource(block.subrange(oe + 1, cs), "rdfs:range"@, base) {
                        None => None,
                        Some(r) => Some((resolve_iri(iri, base), datatype_ref(r))),
                    }
                }
            },
        },
    }
}

fn datatype_range_pair_exec(block: &Vec<char>, base: &Vec<char>) -> (r: Option<(String, String)>)
    ensures
        match r {
            Some(v) => datatype_range_pair(block@, base@) == Some(v@),
            None => datatype_range_pair(block@, base@) is None,
        },
{
    proof {
        reveal_strlit(">");
        assert(">"@ =~= seq!['>']);
    }
    let oe = match find_lit(block, 0, ">") {
        None => return None,
        Some(o) => o,
    };
    proof {
        lemma_find_from_bounds(block@, 0, seq!['>']);
        assert(oe < block.len());
    }
    let open = slice(block, 0, oe + 1);
    let iri = match about_or_id_exec(&open, base) {
        None => return None,
        Some(i) => i,
    };
    let cs = match rfind_lit(block, "</owl:DatatypeProperty>") {
        Some(c) => {
            proof {
                lemma_rfind_bounds(block@, "</owl:DatatypeProperty>"@);
            }
            c
        },
        None => block.len(),
    };
    if cs < oe + 1 {
        return None;
    }
    let inner = slice(block, oe + 1, cs);
    match extract_property_resource(&inner, "rdfs:range", base) {
        None => None,
        Some(r) => Some(
            (string_of(&resolve_relative_iri(&iri, base)), string_of(&datatype_ofn_ref(&r))),
        ),
    }
}

/// A description that mentions `DatatypeProperty` and has `rdfs:range`: the property and its
/// range.
pub open spec fn datatype_description_range(block: Seq<char>, base: Seq<char>) -> Option<
    PairView,
> {
    if !contains(block, "DatatypeProperty"@) {
        None
    } else {
        match block_head(block, base, "</rdf:Description>"@) {
            None => None,
            Some((iri, inner)) => if !contains(inner, "rdfs:range"@) {
                None
            } else {
                match property_resource(inner, "rdfs:range"@, base) {
                    None => None,
                    Some(r) => Some((iri, datatype_ref(r))),
                }
            },
        }
    }
}

fn datatype_description_range_exec(block: &Vec<char>, base: &Vec<char>) -> (r: Option<
    (String, String),
>)
    ensures
        match r {
            Some(v) => datatype_description_range(block@, base@) == Some(v@),
            None => datatype_description_range(block@, base@) is None,
        },
{
    if !contains_lit(block, "DatatypeProperty") {
        return None;
    }
    let (iri, inner) = match block_head_exec(block, base, &chars_of("</rdf:Description>")) {
        None => return None,
        Some(h) => h,
    };
    if !contains_lit(&inner, "rdfs:range") {
        return None;
    }
    match extract_property_resource(&inner, "rdfs:range", base) {
        None => None,
        Some(r) => Some((string_of(&iri), string_of(&datatype_ofn_ref(&r)))),
    }
}

pub open spec fn datatype_range_fn(base: Seq<char>) -> spec_fn(Seq<char>) -> Option<PairView> {
    |b: Seq<char>| datatype_range_pair(b, base)
}

pub open spec fn datatype_description_range_fn(base: Seq<char>) -> spec_fn(Seq<char>) -> Option<
    PairView,
> {
    |b: Seq<char>| datatype_description_range(b, base)
}

/// The datatype property ranges of the document: those of the `owl:DatatypeProperty`
/// elements, then those of the descriptions of datatype properties.
pub open spec fn datatype_property_ranges(s: Seq<char>) -> Seq<PairView> {
    element_walk(s, "owl:DatatypeProperty"@, EndRule::Tagged, 0, datatype_range_fn(xml_base(s)))
        + element_walk(
        s,
        "rdf:Description"@,
        EndRule::Balanced,
        0,
        datatype_description_range_fn(xml_base(s)),
    )
}

/// Collect each datatype property's range, as `datatype_property_ranges` lists them.
pub fn collect_datatype_property_ranges(rdf: &str) -> (r: Vec<(String, String)>)
    ensures
        pair_views(r@) == datatype_property_ranges(rdf@),
{
    let s = chars_of(rdf);
    let base = parse_xml_base(&s);
    let f = |b: &Vec<char>| -> (r: Option<(String, String)>)
        ensures
            match r {
                Some(v) => datatype_range_pair(b@, base@) == Some(v@),
                None => datatype_range_pair(b@, base@) is None,
            },
        { datatype_range_pair_exec(b, &base) };
    let mut out = collect_elements(
        &s,
        &chars_of("owl:DatatypeProperty"),
        EndRule::Tagged,
        f,
        Ghost(datatype_range_fn(base@)),
    );
    let g = |b: &Vec<char>| -> (r: Option<(String, String)>)
        ensures
            match r {
                Some(v) => datatype_description_range(b@, base@) == Some(v@),
                None => datatype_description_range(b@, base@) is None,
            },
        { datatype_description_range_exec(b, &base) };
    let more = collect_elements(
        &s,
        &chars_of("rdf:Description"),
        EndRule::Balanced,
        g,
        Ghost(datatype_description_range_fn(base@)),
    );
    assert(pair_views(out@) =~= out@.map_values(|x: (String, String)| x@));
    assert(pair_views(more@) =~= more@.map_values(|x: (String, String)| x@));
    append_pairs(&mut out, more);
    out
}

} // verus!

verus! {

/// The resources that the elements named `tag` name, from `pos` on: each open tag's
/// `rdf:about` (or `{base}#{rdf:ID}`), resolved against `base`; the walk goes on after a
/// self-closing open tag, else after the element's end (or its open tag, where it does not
/// end).
pub open spec fn characteristic_scan(s: Seq<char>, tag: Seq<char>, base: Seq<char>, pos: int) -> Seq<
    Seq<char>,
>
    decreases s.len() - pos,
{
    if pos < 0 || pos >= s.len() {
        Seq::empty()
    } else {
        match find_from(s, pos, crate::xml::open_of(tag)) {
            None => Seq::empty(),
            Some(st) => if st < pos || st >= s.len() {
                Seq::empty()
            } else {
                match find_from(s, st, seq!['>']) {
                    None => Seq::empty(),
                    Some(g) => if g < st || g >= s.len() {
                        Seq::empty()
                    } else {
                        let open = s.subrange(st, g + 1);
                        let item = match about_or_id(open, base) {
                            Some(i) => seq![resolve_iri(i, base)],
                            None => Seq::empty(),
                        };
                        let next = if ends_with(trim_end(open), "/>"@) {
                            g + 1
                        } else {
                            match tagged_end(s, st, tag) {
                                Some(e) => e,
                                None => g + 1,
                            }
                        };
                        if next <= pos || next > s.len() {
                            item
                        } else {
                            item + characteristic_scan(s, tag, base, next)
                        }
                    },
                }
            },
        }
    }
}

fn characteristic_elements(s: &Vec<char>, tag: &Vec<char>, base: &Vec<char>) -> (r: Vec<Vec<char>>)
    ensures
        views(r@) == characteristic_scan(s@, tag@, base@, 0),
{
    let (open_t, _close) = crate::xml::open_close(tag);
    let gt: Vec<char> = vec!['>'];
    assert(gt@ =~= seq!['>']);
    let mut out: Vec<Vec<char>> = Vec::new();
    let mut pos: usize = 0;
    assert(views(out@) =~= Seq::<Seq<char>>::empty());
    while pos < s.len()
        invariant
            open_t@ == crate::xml::open_of(tag@),
            gt@ == seq!['>'],
            views(out@) + characteristic_scan(s@, tag@, base@, pos as int) == characteristic_scan(
                s@,
                tag@,
                base@,
                0,
            ),
        decreases s.len() - pos,
    {
        let ghost before = views(out@);
        let st = match find(s, pos, &open_t) {
            None => {
                assert(before =~= before + Seq::<Seq<char>>::empty());
                return out;
            },
            Some(st) => st,
        };
        proof {
            lemma_find_from_bounds(s@, pos as int, open_t@);
        }
        if st >= s.len() {
            assert(before =~= before + Seq::<Seq<char>>::empty());
            return out;
        }
        let g = match find(s, st, &gt) {
            None => {
                assert(before =~= before + Seq::<Seq<char>>::empty());
                return out;
            },
            Some(g) => g,
        };
        proof {
            lemma_find_from_bounds(s@, st as int, gt@);
        }
        if g >= s.len() {
            assert(before =~= before + Seq::<Seq<char>>::empty());
            return out;
        }
        let open = slice(s, st, g + 1);
        match about_or_id_exec(&open, base) {
            Some(i) => {
                let v = resolve_relative_iri(&i, base);
                out.push(v);
            },
            None => {},
        }
        let ghost item = match about_or_id(open@, base@) {
            Some(i) => seq![resolve_iri(i, base@)],
            None => Seq::<Seq<char>>::empty(),
        };
        assert(views(out@) =~= before + item);
        let self_closing = crate::text::ends_with_exec(
            &crate::text::trim_end_exec(&open),
            &chars_of("/>"),
        );
        let next = if self_closing {
            g + 1
        } else {
            match tag_element_end(s, st, tag) {
                Some(e) => e,
                None => g + 1,
            }
        };
        if next <= pos || next > s.len() {
            return out;
        }
        assert(views(out@) + characteristic_scan(s@, tag@, base@, next as int) =~= before
            + characteristic_scan(s@, tag@, base@, pos as int));
        pos = next;
    }
    let ghost fin = views(out@);
    assert(fin =~= fin + characteristic_scan(s@, tag@, base@, pos as int));
    out
}

/// A description of a resource whose `rdf:type` is `type_iri` (or whose body holds
/// `resource="type_iri"`): the resource.
pub open spec fn typed_resource(block: Seq<char>, base: Seq<char>, type_iri: Seq<char>) -> Option<
    Seq<char>,
> {
    if block.len() == 0 {
        None
    } else {
        let oe = crate::descriptions::first_gt_or_zero(block);
        match about_or_id(block.subrange(0, oe + 1), base) {
            None => None,
            Some(about) => {
                let cs = match rfind(block, "</rdf:Description>"@) {
                    Some(c) => c,
                    None => block.len() as int,
                };
                if cs < oe + 1 {
                    None
                } else {
                    let inner = block.subrange(oe + 1, cs);
                    if property_resource(inner, "rdf:type"@, base) == Some(type_iri) || contains(
                        inner,
                        "resource=\""@ + type_iri + "\""@,
                    ) || contains(inner, "resource='"@ + type_iri + "'"@) {
                        Some(resolve_iri(about, base))
                    } else {
                        None
                    }
                }
            },
        }
    }
}

fn typed_resource_exec(block: &Vec<char>, base: &Vec<char>, type_iri: &Vec<char>) -> (r: Option<
    Vec<char>,
>)
    ensures
        match r {
            Some(v) => typed_resource(block@, base@, type_iri@) == Some(v@),
            None => typed_resource(block@, base@, type_iri@) is None,
        },
{
    if block.len() == 0 {
        return None;
    }
    let oe = crate::descriptions::first_gt_or_zero_exec(block);
    let open = slice(block, 0, oe + 1);
    let about = match about_or_id_exec(&open, base) {
        None => return None,
        Some(a) => a,
    };
    let cs = match rfind_lit(block, "</rdf:Description>") {
        Some(c) => {
            proof {
                lemma_rfind_bounds(block@, "</rdf:Description>"@);
            }
            c
        },
        None => block.len(),
    };
    if cs < oe + 1 {
        return None;
    }
    let inner = slice(block, oe + 1, cs);
    let by_type = match extract_property_resource(&inner, "rdf:type", base) {
        Some(t) => vec_eq(&t, type_iri),
        None => false,
    };
    let mut dq = chars_of("resource=\"");
    push_all(&mut dq, type_iri);
    dq.push('"');
    let mut sq = chars_of("resource='");
    push_all(&mut sq, type_iri);
    sq.push('\'');
    proof {
        reveal_strlit("\"");
        reveal_strlit("'");
        assert(dq@ =~= "resource=\""@ + type_iri@ + "\""@);
        assert(sq@ =~= "resource='"@ + type_iri@ + "'"@);
    }
    if by_type || crate::text::contains_exec(&inner, &dq) || crate::text::contains_exec(&inner, &sq) {
        Some(resolve_relative_iri(&about, base))
    } else {
        None
    }
}

pub open spec fn typed_resource_fn(base: Seq<char>, type_iri: Seq<char>) -> spec_fn(Seq<char>) -> Option<
    Seq<char>,
> {
    |b: Seq<char>| typed_resource(b, base, type_iri)
}

/// `owl:FunctionalProperty`.
pub open spec fn functional_iri() -> Seq<char> {
    "http://www.w3.org/2002/07/owl#FunctionalProperty"@
}

/// The functional properties the document names, with repeats: those of the
/// `owl:FunctionalProperty` elements, then the descriptions typed `owl:FunctionalProperty`.
pub open spec fn functional_candidates(s: Seq<char>) -> Seq<Seq<char>> {
    characteristic_scan(s, "owl:FunctionalProperty"@, xml_base(s), 0) + element_walk(
        s,
        "rdf:Description"@,
        EndRule::Balanced,
        0,
        typed_resource_fn(xml_base(s), functional_iri()),
    )
}

/// Collect the object properties declared functional, sorted and without repeats.
pub fn collect_functional_object_properties(rdf: &str) -> (r: Vec<String>)
    ensures
        str_views(r@) == sorted_members(functional_candidates(rdf@).to_set()),
{
    let s = chars_of(rdf);
    let base = parse_xml_base(&s);
    let a = characteristic_elements(&s, &chars_of("owl:FunctionalProperty"), &base);
    let ty = chars_of("http://www.w3.org/2002/07/owl#FunctionalProperty");
    let f = |b: &Vec<char>| -> (r: Option<Vec<char>>)
        ensures
            match r {
                Some(v) => typed_resource(b@, base@, ty@) == Some(v@),
                None => typed_resource(b@, base@, ty@) is None,
            },
        { typed_resource_exec(b, &base, &ty) };
    let b = collect_elements(
        &s,
        &chars_of("rdf:Description"),
        EndRule::Balanced,
        f,
        Ghost(typed_resource_fn(base@, ty@)),
    );
    assert(views(b@) =~= b@.map_values(|x: Vec<char>| x@));
    let mut all = a;
    let mut bb = b;
    let ghost av = views(all@);
    let ghost bv = views(bb@);
    all.append(&mut bb);
    assert(views(all@) =~= av + bv);
    let out = crate::iri_set::sorted_strings(&all);
    assert(str_views(out@) =~= out@.map_values(|x: String| x@));
    out
}

} // verus!

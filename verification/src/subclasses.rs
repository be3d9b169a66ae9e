//! Subclass axioms on class resources whose superclass is a property restriction, and the
//! declared datatype properties that tell data restrictions from object ones.
use vstd::prelude::*;

use crate::ids::{list_contains, views};
use crate::iri_set::{sorted_members, sorted_strings};
use crate::pairs::{block_head, block_head_exec};
use crate::reified::{qname_prefix, qname_prefix_exec};
use crate::restrictions::{extract_property_resource, filler, filler_exec, object_restriction, object_restriction_chars, property_resource, text_content, text_content_lit};
use crate::scan::{collect_elements, element_walk, pair_views, str_views, EndRule, PairView};
use crate::text::{at_lit, chars_of, contains, contains_lit, copy, find_from, find_lit, lemma_find_from_bounds, matches_at, push_all, push_str, slice, string_of, trim, trim_exec};
use crate::xml::{attribute, element_inner, element_inner_lit, element_qname, element_qname_exec, extract_attribute, find_top_level_lit, is_builtin_prefix, is_builtin_prefix_exec, parse_xml_base, resolve_iri, resolve_relative_iri, top_level_element, xml_base};

verus! {

/// The datatype properties that the `<owl:DatatypeProperty` open tags from `pos` on declare:
/// by `rdf:about` resolved against `base`, or as `{base}#{rdf:ID}`.
pub open spec fn datatype_declarations(s: Seq<char>, base: Seq<char>, pos: int) -> Seq<Seq<char>>
    decreases s.len() - pos,
{
    if pos < 0 || pos > s.len() {
        Seq::empty()
    } else {
        match find_from(s, pos, "<owl:DatatypeProperty"@) {
            None => Seq::empty(),
            Some(st) => if st < pos || st >= s.len() {
                Seq::empty()
            } else {
                match find_from(s, st, seq!['>']) {
                    None => Seq::empty(),
                    Some(g) => if g < st || g >= s.len() {
                        Seq::empty()
                    } else {
                        let open = s.subrange(st, g + 1);
                        (match attribute(open, "rdf:about"@) {
                            Some(a) => seq![resolve_iri(a, base)],
                            None => match attribute(open, "rdf:ID"@) {
                                Some(id) => seq![base + seq!['#'] + id],
                                None => Seq::empty(),
                            },
                        }) + datatype_declarations(s, base, g + 1)
                    },
                }
            },
        }
    }
}

/// The datatype properties the document declares, in document order, with repeats.
pub open spec fn declared_datatype_properties(s: Seq<char>) -> Seq<Seq<char>> {
    datatype_declarations(s, xml_base(s), 0)
}

/// The datatype properties the document declares, in document order.
pub fn declared_datatype_chars(s: &Vec<char>) -> (r: Vec<Vec<char>>)
    ensures
        views(r@) == declared_datatype_properties(s@),
{
    let base = parse_xml_base(s);
    let mut out: Vec<Vec<char>> = Vec::new();
    let mut pos: usize = 0;
    proof {
        reveal_strlit(">");
    }
    assert(views(out@) =~= Seq::<Seq<char>>::empty());
    while pos <= s.len()
        invariant
            base@ == xml_base(s@),
            ">"@ == seq!['>'],
            views(out@) + datatype_declarations(s@, base@, pos as int) == declared_datatype_properties(
                s@,
            ),
        decreases s.len() + 1 - pos,
    {
        let ghost before = views(out@);
        let st = match find_lit(s, pos, "<owl:DatatypeProperty") {
            None => {
                assert(before =~= before + Seq::<Seq<char>>::empty());
                return out;
            },
            Some(st) => st,
        };
        proof {
            lemma_find_from_bounds(s@, pos as int, "<owl:DatatypeProperty"@);
        }
        if st >= s.len() {
            assert(before =~= before + Seq::<Seq<char>>::empty());
            return out;
        }
        let g = match find_lit(s, st, ">") {
            None => {
                assert(before =~= before + Seq::<Seq<char>>::empty());
                return out;
            },
            Some(g) => g,
        };
        proof {
            lemma_find_from_bounds(s@, st as int, seq!['>']);
        }
        if g >= s.len() {
            assert(before =~= before + Seq::<Seq<char>>::empty());
            return out;
        }
        let open = slice(s, st, g + 1);
        match extract_attribute(&open, "rdf:about") {
            Some(a) => {
                let v = resolve_relative_iri(&a, &base);
                out.push(v);
                assert(views(out@) =~= before + seq![v@]);
            },
            None => match extract_attribute(&open, "rdf:ID") {
                Some(id) => {
                    let mut v = copy(&base);
                    v.push('#');
                    push_all(&mut v, &id);
                    assert(v@ =~= base@ + seq!['#'] + id@);
                    out.push(v);
                    assert(views(out@) =~= before + seq![v@]);
                },
                None => {
                    assert(views(out@) =~= before + Seq::<Seq<char>>::empty());
                },
            },
        }
        assert(views(out@) + datatype_declarations(s@, base@, g + 1) =~= before
            + datatype_declarations(s@, base@, pos as int));
        pos = g + 1;
    }
    let ghost fin = views(out@);
    assert(fin =~= fin + datatype_declarations(s@, base@, pos as int));
    out
}

/// The datatype properties the document declares by `owl:DatatypeProperty`, sorted and
/// without repeats.
pub fn declared_datatype_property_iris(rdf: &str) -> (r: Vec<String>)
    ensures
        str_views(r@) == sorted_members(declared_datatype_properties(rdf@).to_set()),
{
    let s = chars_of(rdf);
    let l = declared_datatype_chars(&s);
    let r = sorted_strings(&l);
    assert(str_views(r@) =~= r@.map_values(|x: String| x@));
    r
}

/// Whether an element with a user property name (a prefix other than `owl`, `rdf`, `rdfs`,
/// `xsd` and `xml`) opens in `s` at or after `pos`; close tags and comments are stepped over.
pub open spec fn user_property_scan(s: Seq<char>, pos: int) -> bool
    decreases s.len() - pos,
{
    if pos < 0 || pos > s.len() {
        false
    } else {
        match find_from(s, pos, seq!['<']) {
            None => false,
            Some(st) => if st < pos || st >= s.len() {
                false
            } else if matches_at(s, st, "</"@) || matches_at(s, st, "<!--"@) {
                user_property_scan(s, st + 1)
            } else {
                match find_from(s, st, seq!['>']) {
                    None => false,
                    Some(g) => if g < st || g >= s.len() {
                        false
                    } else {
                        match element_qname(s.subrange(st, g + 1)) {
                            Some(q) => if !is_builtin_prefix(qname_prefix(q)) {
                                true
                            } else {
                                user_property_scan(s, g + 1)
                            },
                            None => user_property_scan(s, g + 1),
                        }
                    },
                }
            },
        }
    }
}

/// Whether `inner` holds an element with a user property name.
pub fn has_user_property_elements(inner: &Vec<char>) -> (b: bool)
    ensures
        b == user_property_scan(inner@, 0),
{
    let lt: Vec<char> = vec!['<'];
    let gt: Vec<char> = vec!['>'];
    assert(lt@ =~= seq!['<']);
    assert(gt@ =~= seq!['>']);
    let mut pos: usize = 0;
    while pos <= inner.len()
        invariant
            lt@ == seq!['<'],
            gt@ == seq!['>'],
            user_property_scan(inner@, 0) == user_property_scan(inner@, pos as int),
        decreases inner.len() + 1 - pos,
    {
        let st = match crate::text::find(inner, pos, &lt) {
            None => return false,
            Some(st) => st,
        };
        proof {
            lemma_find_from_bounds(inner@, pos as int, lt@);
        }
        if st >= inner.len() {
            return false;
        }
        if at_lit(inner, st, "</") || at_lit(inner, st, "<!--") {
            pos = st + 1;
            continue;
        }
        let g = match crate::text::find(inner, st, &gt) {
            None => return false,
            Some(g) => g,
        };
        proof {
            lemma_find_from_bounds(inner@, st as int, gt@);
        }
        if g >= inner.len() {
            return false;
        }
        let tag = slice(inner, st, g + 1);
        match element_qname_exec(&tag) {
            Some(q) => {
                if !is_builtin_prefix_exec(&qname_prefix_exec(&q)) {
                    return true;
                }
            },
            None => {},
        }
        pos = g + 1;
    }
    false
}

/// Whether the body of a description is that of an anonymous-free restriction on a class: it
/// has `owl:onProperty`, no `<rdf:type`, no `owl:sourceIndividual`, and no user property.
pub open spec fn is_class_restriction(inner: Seq<char>) -> bool {
    !contains(inner, "<rdf:type"@) && !contains(inner, "owl:sourceIndividual"@) && contains(
        inner,
        "owl:onProperty"@,
    ) && !user_property_scan(inner, 0)
}

pub fn is_class_restriction_description(inner: &Vec<char>) -> (b: bool)
    ensures
        b == is_class_restriction(inner@),
{
    if contains_lit(inner, "<rdf:type") || contains_lit(inner, "owl:sourceIndividual") {
        return false;
    }
    if !contains_lit(inner, "owl:onProperty") {
        return false;
    }
    !has_user_property_elements(inner)
}

/// `ObjectMaxCardinality`, `ObjectMinCardinality` or `ObjectExactCardinality` (named by
/// `head`) of `n` on `on`, with `tail` after the property.
pub open spec fn cardinality(head: Seq<char>, n: Seq<char>, on: Seq<char>, tail: Seq<char>) -> Seq<
    char,
> {
    head + seq!['('] + trim(n) + " <"@ + on + seq!['>'] + tail + seq![')']
}

fn cardinality_exec(head: &str, n: &Vec<char>, on: &Vec<char>, tail: &Vec<char>) -> (r: Vec<char>)
    ensures
        r@ == cardinality(head@, n@, on@, tail@),
{
    let mut out = chars_of(head);
    out.push('(');
    push_all(&mut out, &trim_exec(n));
    push_str(&mut out, " <");
    push_all(&mut out, on);
    out.push('>');
    push_all(&mut out, tail);
    out.push(')');
    out
}

/// A restriction written as the body of a class resource: the restriction element it holds,
/// if any, else its `owl:onProperty` (an object property, not one of `dt_props`) with the
/// first of `owl:someValuesFrom`, `owl:allValuesFrom`, `owl:hasValue`, `owl:maxCardinality`,
/// `owl:maxQualifiedCardinality` (on `owl:onClass`, else `owl:Thing`), `owl:minCardinality`
/// and `owl:cardinality` that it has.
pub open spec fn inline_restriction(inner: Seq<char>, base: Seq<char>, dt_props: Seq<Seq<char>>) -> Option<
    Seq<char>,
> {
    if contains(inner, "<owl:Restriction"@) {
        object_restriction(inner, base, dt_props)
    } else {
        match property_resource(inner, "owl:onProperty"@, base) {
            None => None,
            Some(on) => if dt_props.contains(on) {
                None
            } else {
                match filler(inner, "owl:someValuesFrom"@, base) {
                    Some(f) => Some("ObjectSomeValuesFrom(<"@ + on + "> "@ + f + seq![')']),
                    None => match filler(inner, "owl:allValuesFrom"@, base) {
                        Some(f) => Some("ObjectAllValuesFrom(<"@ + on + "> "@ + f + seq![')']),
                        None => match filler(inner, "owl:hasValue"@, base) {
                            Some(v) => Some("ObjectHasValue(<"@ + on + "> "@ + v + seq![')']),
                            None => match text_content(inner, "owl:maxCardinality"@) {
                                Some(n) => Some(
                                    cardinality("ObjectMaxCardinality"@, n, on, Seq::empty()),
                                ),
                                None => match text_content(inner, "owl:maxQualifiedCardinality"@) {
                                    Some(n) => Some(
                                        cardinality(
                                            "ObjectMaxCardinality"@,
                                            n,
                                            on,
                                            seq![' '] + match property_resource(
                                                inner,
                                                "owl:onClass"@,
                                                base,
                                            ) {
                                                Some(c) => seq!['<'] + c + seq!['>'],
                                                None => "owl:Thing"@,
                                            },
                                        ),
                                    ),
                                    None => match text_content(inner, "owl:minCardinality"@) {
                                        Some(n) => Some(
                                            cardinality(
                                                "ObjectMinCardinality"@,
                                                n,
                                                on,
                                                Seq::empty(),
                                            ),
                                        ),
                                        None => match text_content(inner, "owl:cardinality"@) {
                                            Some(n) => Some(
                                                cardinality(
                                                    "ObjectExactCardinality"@,
                                                    n,
                                                    on,
                                                    Seq::empty(),
                                                ),
                                            ),
                                            None => None,
                                        },
                                    },
                                },
                            },
                        },
                    },
                }
            },
        }
    }
}

fn filler_form(head: &str, on: &Vec<char>, f: &Vec<char>) -> (r: Vec<char>)
    ensures
        r@ == head@ + on@ + "> "@ + f@ + seq![')'],
{
    let mut out = chars_of(head);
    push_all(&mut out, on);
    push_str(&mut out, "> ");
    push_all(&mut out, f);
    out.push(')');
    out
}

/// The restriction a class resource's body states, as `inline_restriction` says.
pub fn inline_restriction_ce_to_ofn(inner: &Vec<char>, base: &Vec<char>, dt_props: &Vec<Vec<char>>) -> (r:
    Option<Vec<char>>)
    ensures
        match r {
            Some(v) => inline_restriction(inner@, base@, views(dt_props@)) == Some(v@),
            None => inline_restriction(inner@, base@, views(dt_props@)) is None,
        },
{
    if contains_lit(inner, "<owl:Restriction") {
        return object_restriction_chars(inner, base, dt_props);
    }
    let on = match extract_property_resource(inner, "owl:onProperty", base) {
        None => return None,
        Some(o) => o,
    };
    if list_contains(dt_props, &on) {
        return None;
    }
    if let Some(f) = filler_exec(inner, "owl:someValuesFrom", base) {
        return Some(filler_form("ObjectSomeValuesFrom(<", &on, &f));
    }
    if let Some(f) = filler_exec(inner, "owl:allValuesFrom", base) {
        return Some(filler_form("ObjectAllValuesFrom(<", &on, &f));
    }
    if let Some(v) = filler_exec(inner, "owl:hasValue", base) {
        return Some(filler_form("ObjectHasValue(<", &on, &v));
    }
    let empty: Vec<char> = Vec::new();
    assert(empty@ =~= Seq::<char>::empty());
    if let Some(n) = text_content_lit(inner, "owl:maxCardinality") {
        return Some(cardinality_exec("ObjectMaxCardinality", &n, &on, &empty));
    }
    if let Some(n) = text_content_lit(inner, "owl:maxQualifiedCardinality") {
        let mut tail: Vec<char> = vec![' '];
        match extract_property_resource(inner, "owl:onClass", base) {
            Some(c) => {
                tail.push('<');
                push_all(&mut tail, &c);
                tail.push('>');
                assert(tail@ =~= seq![' '] + (seq!['<'] + c@ + seq!['>']));
            },
            None => {
                push_str(&mut tail, "owl:Thing");
                assert(tail@ =~= seq![' '] + "owl:Thing"@);
            },
        }
        return Some(cardinality_exec("ObjectMaxCardinality", &n, &on, &tail));
    }
    if let Some(n) = text_content_lit(inner, "owl:minCardinality") {
        return Some(cardinality_exec("ObjectMinCardinality", &n, &on, &empty));
    }
    if let Some(n) = text_content_lit(inner, "owl:cardinality") {
        return Some(cardinality_exec("ObjectExactCardinality", &n, &on, &empty));
    }
    None
}

} // verus!

verus! {

/// A class description whose body is a restriction: the class and the restriction.
pub open spec fn description_restriction_subclass(
    block: Seq<char>,
    base: Seq<char>,
    dt_props: Seq<Seq<char>>,
) -> Option<PairView> {
    match block_head(block, base, "</rdf:Description>"@) {
        None => None,
        Some((iri, inner)) => if !is_class_restriction(inner) {
            None
        } else {
            match inline_restriction(inner, base, dt_props) {
                None => None,
                Some(ce) => Some((iri, ce)),
            }
        },
    }
}

fn description_restriction_subclass_exec(
    block: &Vec<char>,
    base: &Vec<char>,
    dt_props: &Vec<Vec<char>>,
) -> (r: Option<(String, String)>)
    ensures
        match r {
            Some(v) => description_restriction_subclass(block@, base@, views(dt_props@)) == Some(
                v@,
            ),
            None => description_restriction_subclass(block@, base@, views(dt_props@)) is None,
        },
{
    let (iri, inner) = match block_head_exec(block, base, &chars_of("</rdf:Description>")) {
        None => return None,
        Some(h) => h,
    };
    if !is_class_restriction_description(&inner) {
        return None;
    }
    match inline_restriction_ce_to_ofn(&inner, base, dt_props) {
        None => None,
        Some(ce) => Some((string_of(&iri), string_of(&ce))),
    }
}

/// An `owl:Class` element whose first top-level `rdfs:subClassOf` holds a restriction: the
/// class and the restriction.
pub open spec fn class_restriction_subclass(
    block: Seq<char>,
    base: Seq<char>,
    dt_props: Seq<Seq<char>>,
) -> Option<PairView> {
    match block_head(block, base, "</owl:Class>"@) {
        None => None,
        Some((iri, inner)) => match top_level_element(inner, "rdfs:subClassOf"@) {
            None => None,
            Some((a, e)) => match object_restriction(
                trim(element_inner(inner.subrange(a, e), "rdfs:subClassOf"@)),
                base,
                dt_props,
            ) {
                None => None,
                Some(ce) => Some((iri, ce)),
            },
        },
    }
}

fn class_restriction_subclass_exec(block: &Vec<char>, base: &Vec<char>, dt_props: &Vec<Vec<char>>) -> (r:
    Option<(String, String)>)
    ensures
        match r {
            Some(v) => class_restriction_subclass(block@, base@, views(dt_props@)) == Some(v@),
            None => class_restriction_subclass(block@, base@, views(dt_props@)) is None,
        },
{
    let (iri, inner) = match block_head_exec(block, base, &chars_of("</owl:Class>")) {
        None => return None,
        Some(h) => h,
    };
    let (a, e) = match find_top_level_lit(&inner, "rdfs:subClassOf") {
        None => return None,
        Some(b) => b,
    };
    let sub_block = slice(&inner, a, e);
    let sub_inner = element_inner_lit(&sub_block, "rdfs:subClassOf");
    match object_restriction_chars(&trim_exec(&sub_inner), base, dt_props) {
        None => None,
        Some(ce) => Some((string_of(&iri), string_of(&ce))),
    }
}

pub open spec fn description_restriction_fn(base: Seq<char>, dt_props: Seq<Seq<char>>) -> spec_fn(
    Seq<char>,
) -> Option<PairView> {
    |b: Seq<char>| description_restriction_subclass(b, base, dt_props)
}

pub open spec fn class_restriction_fn(base: Seq<char>, dt_props: Seq<Seq<char>>) -> spec_fn(
    Seq<char>,
) -> Option<PairView> {
    |b: Seq<char>| class_restriction_subclass(b, base, dt_props)
}

/// The classes of the document whose superclass is a restriction, with the restriction: the
/// descriptions first, then the `owl:Class` elements.
pub open spec fn restriction_subclasses(s: Seq<char>) -> Seq<PairView> {
    let base = xml_base(s);
    let dt = declared_datatype_properties(s);
    element_walk(s, "rdf:Description"@, EndRule::Balanced, 0, description_restriction_fn(base, dt))
        + element_walk(s, "owl:Class"@, EndRule::Tagged, 0, class_restriction_fn(base, dt))
}

/// Collect the subclass axioms whose superclass is a restriction, as
/// `restriction_subclasses` lists them.
pub fn collect_restriction_subclasses(rdf: &str) -> (r: Vec<(String, String)>)
    ensures
        pair_views(r@) == restriction_subclasses(rdf@),
{
    let s = chars_of(rdf);
    let base = parse_xml_base(&s);
    let dt = declared_datatype_chars(&s);
    let f = |b: &Vec<char>| -> (r: Option<(String, String)>)
        ensures
            match r {
                Some(v) => description_restriction_subclass(b@, base@, views(dt@)) == Some(v@),
                None => description_restriction_subclass(b@, base@, views(dt@)) is None,
            },
        { description_restriction_subclass_exec(b, &base, &dt) };
    let mut out = collect_elements(
        &s,
        &chars_of("rdf:Description"),
        EndRule::Balanced,
        f,
        Ghost(description_restriction_fn(base@, views(dt@))),
    );
    let g = |b: &Vec<char>| -> (r: Option<(String, String)>)
        ensures
            match r {
                Some(v) => class_restriction_subclass(b@, base@, views(dt@)) == Some(v@),
                None => class_restriction_subclass(b@, base@, views(dt@)) is None,
            },
        { class_restriction_subclass_exec(b, &base, &dt) };
    let mut more = collect_elements(
        &s,
        &chars_of("owl:Class"),
        EndRule::Tagged,
        g,
        Ghost(class_restriction_fn(base@, views(dt@))),
    );
    let ghost a = pair_views(out@);
    let ghost b = pair_views(more@);
    assert(a =~= out@.map_values(|x: (String, String)| x@));
    assert(b =~= more@.map_values(|x: (String, String)| x@));
    out.append(&mut more);
    assert(pair_views(out@) =~= a + b);
    out
}

} // verus!

verus! {

/// From `pos` on, the bounds of the first element named `tag` among consecutive sibling
/// elements: whitespace is skipped and each element stepped over whole; text ends the search.
pub open spec fn sibling_scan(s: Seq<char>, tag: Seq<char>, pos: int) -> Option<(int, int)>
    decreases s.len() - pos,
{
    if pos < 0 || pos >= s.len() {
        None
    } else {
        let p = crate::xml::skip_ascii_ws(s, pos);
        if p < pos || p >= s.len() || s[p] != '<' {
            None
        } else {
            let name = crate::xml::tag_name_at(s, p);
            match crate::xml::tagged_end(s, p, name) {
                None => None,
                Some(e) => if name == tag {
                    Some((p, e))
                } else if e > p && e <= s.len() {
                    sibling_scan(s, tag, e)
                } else {
                    None
                },
            }
        }
    }
}

/// The bounds of the first element named `tag` among the consecutive sibling elements of `s`
/// from `from` on, as `sibling_scan` says.
pub fn find_top_level_element_from(s: &Vec<char>, from: usize, tag: &Vec<char>) -> (r: Option<
    (usize, usize),
>)
    ensures
        match r {
            Some((a, e)) => sibling_scan(s@, tag@, from as int) == Some((a as int, e as int))
                && from <= a < e <= s.len(),
            None => sibling_scan(s@, tag@, from as int) is None,
        },
{
    let mut pos = from;
    while pos < s.len()
        invariant
            from <= pos,
            sibling_scan(s@, tag@, from as int) == sibling_scan(s@, tag@, pos as int),
        decreases s.len() - pos,
    {
        let p = crate::xml::skip_ascii_ws_exec(s, pos);
        if p >= s.len() || s[p] != '<' {
            return None;
        }
        let name = crate::xml::tag_name_exec(s, p);
        let e = match crate::xml::tag_element_end(s, p, &name) {
            None => return None,
            Some(e) => e,
        };
        if crate::xml::vec_eq(&name, tag) {
            return Some((p, e));
        }
        pos = e;
    }
    None
}

/// The superclass an `rdfs:subClassOf` element states: the class its open tag names by
/// `rdf:resource`; else the restriction it holds; else the class of the first `rdf:about="..."`
/// or, failing that, `rdf:resource="..."` in its body.
pub open spec fn superclass(sub_block: Seq<char>, base: Seq<char>, dt_props: Seq<Seq<char>>) -> Option<
    Seq<char>,
> {
    match find_from(sub_block, 0, seq!['>']) {
        None => None,
        Some(oe) => match attribute(sub_block.subrange(0, oe + 1), "rdf:resource"@) {
            Some(r) => Some(crate::ofn_terms::entity_ref(resolve_iri(r, base))),
            None => {
                let inner = element_inner(sub_block, "rdfs:subClassOf"@);
                if contains(inner, "<owl:Restriction"@) {
                    object_restriction(trim(inner), base, dt_props)
                } else {
                    match crate::object_assertions::value_after(inner, "rdf:about=\""@) {
                        Some(a) => Some(crate::ofn_terms::entity_ref(resolve_iri(a, base))),
                        None => match crate::object_assertions::value_after(
                            inner,
                            "rdf:resource=\""@,
                        ) {
                            Some(r) => Some(crate::ofn_terms::entity_ref(resolve_iri(r, base))),
                            None => None,
                        },
                    }
                }
            },
        },
    }
}

pub fn superclass_ofn_from_subclass_element(
    sub_block: &Vec<char>,
    base: &Vec<char>,
    dt_props: &Vec<Vec<char>>,
) -> (r: Option<Vec<char>>)
    ensures
        match r {
            Some(v) => superclass(sub_block@, base@, views(dt_props@)) == Some(v@),
            None => superclass(sub_block@, base@, views(dt_props@)) is None,
        },
{
    proof {
        reveal_strlit(">");
        assert(">"@ =~= seq!['>']);
        reveal_strlit("rdf:about=\"");
        reveal_strlit("rdf:resource=\"");
    }
    let oe = match find_lit(sub_block, 0, ">") {
        None => return None,
        Some(o) => o,
    };
    proof {
        lemma_find_from_bounds(sub_block@, 0, seq!['>']);
        assert(oe < sub_block.len());
    }
    if let Some(r) = extract_attribute(&slice(sub_block, 0, oe + 1), "rdf:resource") {
        return Some(crate::ofn_terms::ofn_entity_ref(&resolve_relative_iri(&r, base)));
    }
    let inner = element_inner_lit(sub_block, "rdfs:subClassOf");
    if contains_lit(&inner, "<owl:Restriction") {
        return object_restriction_chars(&trim_exec(&inner), base, dt_props);
    }
    if let Some(a) = crate::object_assertions::value_after_exec(&inner, "rdf:about=\"") {
        return Some(crate::ofn_terms::ofn_entity_ref(&resolve_relative_iri(&a, base)));
    }
    if let Some(r) = crate::object_assertions::value_after_exec(&inner, "rdf:resource=\"") {
        return Some(crate::ofn_terms::ofn_entity_ref(&resolve_relative_iri(&r, base)));
    }
    None
}

/// The `(class, superclass)` pairs of the consecutive `rdfs:subClassOf` elements of `inner`
/// from `pos` on.
pub open spec fn subclass_scan(
    inner: Seq<char>,
    sub: Seq<char>,
    base: Seq<char>,
    dt_props: Seq<Seq<char>>,
    pos: int,
) -> Seq<PairView>
    decreases inner.len() - pos,
{
    match sibling_scan(inner, "rdfs:subClassOf"@, pos) {
        None => Seq::empty(),
        Some((a, e)) => if pos < 0 || a < pos || e <= a || e > inner.len() {
            Seq::empty()
        } else {
            (match superclass(inner.subrange(a, e), base, dt_props) {
                Some(sup) => seq![(sub, sup)],
                None => Seq::empty(),
            }) + subclass_scan(inner, sub, base, dt_props, e)
        },
    }
}

/// The subclass axioms a class element (closed by `close`) states with `rdfs:subClassOf`.
pub open spec fn class_subclasses(
    block: Seq<char>,
    base: Seq<char>,
    dt_props: Seq<Seq<char>>,
    close: Seq<char>,
) -> Seq<PairView> {
    match block_head(block, base, close) {
        None => Seq::empty(),
        Some((sub, inner)) => subclass_scan(inner, sub, base, dt_props, 0),
    }
}

fn class_subclasses_exec(block: &Vec<char>, base: &Vec<char>, dt_props: &Vec<Vec<char>>, close: &str) -> (r:
    Vec<(String, String)>)
    ensures
        pair_views(r@) == class_subclasses(block@, base@, views(dt_props@), close@),
{
    let mut out: Vec<(String, String)> = Vec::new();
    assert(pair_views(out@) =~= Seq::<PairView>::empty());
    let (sub, inner) = match block_head_exec(block, base, &chars_of(close)) {
        None => return out,
        Some(h) => h,
    };
    let tag = chars_of("rdfs:subClassOf");
    let mut pos: usize = 0;
    let ghost dv = views(dt_props@);
    assert(class_subclasses(block@, base@, dv, close@) == subclass_scan(inner@, sub@, base@, dv, 0));
    while pos < inner.len()
        invariant
            tag@ == "rdfs:subClassOf"@,
            dv == views(dt_props@),
            class_subclasses(block@, base@, dv, close@) == subclass_scan(inner@, sub@, base@, dv, 0),
            pair_views(out@) + subclass_scan(inner@, sub@, base@, dv, pos as int) == subclass_scan(
                inner@,
                sub@,
                base@,
                dv,
                0,
            ),
        decreases inner.len() - pos,
    {
        let ghost before = pair_views(out@);
        let (a, e) = match find_top_level_element_from(&inner, pos, &tag) {
            None => {
                assert(before =~= before + Seq::<PairView>::empty());
                return out;
            },
            Some(b) => b,
        };
        match superclass_ofn_from_subclass_element(&slice(&inner, a, e), base, dt_props) {
            Some(sup) => {
                out.push((string_of(&sub), string_of(&sup)));
                assert(pair_views(out@) =~= before + seq![(sub@, sup@)]);
            },
            None => {
                assert(pair_views(out@) =~= before + Seq::<PairView>::empty());
            },
        }
        assert(pair_views(out@) + subclass_scan(inner@, sub@, base@, dv, e as int) =~= before
            + subclass_scan(inner@, sub@, base@, dv, pos as int));
        pos = e;
    }
    let ghost fin = pair_views(out@);
    assert(fin =~= fin + subclass_scan(inner@, sub@, base@, dv, pos as int));
    out
}

pub open spec fn class_subclasses_fn(base: Seq<char>, dt_props: Seq<Seq<char>>, close: Seq<char>) -> spec_fn(
    Seq<char>,
) -> Seq<PairView> {
    |b: Seq<char>| class_subclasses(b, base, dt_props, close)
}

/// The subclass axioms of the document's class resources: the descriptions first, then the
/// `owl:Class` elements.
pub open spec fn subclass_axioms(s: Seq<char>) -> Seq<PairView> {
    let base = xml_base(s);
    let dt = declared_datatype_properties(s);
    crate::scan::element_walk_many(
        s,
        "rdf:Description"@,
        EndRule::Balanced,
        0,
        class_subclasses_fn(base, dt, "</rdf:Description>"@),
    ) + crate::scan::element_walk_many(
        s,
        "owl:Class"@,
        EndRule::Tagged,
        0,
        class_subclasses_fn(base, dt, "</owl:Class>"@),
    )
}

/// Collect the `(class, superclass)` pairs that class resources state with
/// `rdfs:subClassOf`, as `subclass_axioms` lists them.
pub fn collect_subclass_axioms(rdf: &str) -> (r: Vec<(String, String)>)
    ensures
        pair_views(r@) == subclass_axioms(rdf@),
{
    let s = chars_of(rdf);
    let base = parse_xml_base(&s);
    let dt = declared_datatype_chars(&s);
    let f = |b: &Vec<char>| -> (r: Vec<(String, String)>)
        ensures
            r@.map_values(|x: (String, String)| x@) == class_subclasses(
                b@,
                base@,
                views(dt@),
                "</rdf:Description>"@,
            ),
        {
            let r = class_subclasses_exec(b, &base, &dt, "</rdf:Description>");
            assert(pair_views(r@) =~= r@.map_values(|x: (String, String)| x@));
            r
        };
    let mut out = crate::scan::collect_elements_many(
        &s,
        &chars_of("rdf:Description"),
        EndRule::Balanced,
        f,
        Ghost(class_subclasses_fn(base@, views(dt@), "</rdf:Description>"@)),
    );
    let g = |b: &Vec<char>| -> (r: Vec<(String, String)>)
        ensures
            r@.map_values(|x: (String, String)| x@) == class_subclasses(
                b@,
                base@,
                views(dt@),
                "</owl:Class>"@,
            ),
        {
            let r = class_subclasses_exec(b, &base, &dt, "</owl:Class>");
            assert(pair_views(r@) =~= r@.map_values(|x: (String, String)| x@));
            r
        };
    let mut more = crate::scan::collect_elements_many(
        &s,
        &chars_of("owl:Class"),
        EndRule::Tagged,
        g,
        Ghost(class_subclasses_fn(base@, views(dt@), "</owl:Class>"@)),
    );
    let ghost a = pair_views(out@);
    let ghost b = pair_views(more@);
    assert(a =~= out@.map_values(|x: (String, String)| x@));
    assert(b =~= more@.map_values(|x: (String, String)| x@));
    out.append(&mut more);
    assert(pair_views(out@) =~= a + b);
    out
}

} // verus!

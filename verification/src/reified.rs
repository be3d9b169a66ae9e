//! Negative data property assertions written as reified `rdf:Description` statements.
use vstd::prelude::*;

use crate::complex::{general_block_end, general_block_end_exec};
use crate::ids::views;
use crate::restrictions::{extract_property_resource, property_resource, text_content, text_content_lit};
use crate::text::{chars_of, contains, contains_lit, copy, ends_with, find, find_from, find_lit, index_of, index_of_exec, lemma_find_from_bounds, lemma_rfind_bounds, matches_at, at_lit, push_all, rfind, rfind_lit, slice, string_of, trim, trim_end, trim_end_exec, trim_exec};
use crate::xml::{attribute, close_of, element_inner, element_inner_lit, element_qname, element_qname_exec, expand_qname, expand_qname_exec, extract_attribute, find_top_level_lit, is_builtin_prefix, is_builtin_prefix_exec, open_close, parse_xml_base, resolve_iri, resolve_relative_iri, top_level_element, xml_base, xmlns_declarations, xmlns_of, Namespaces};

verus! {

/// The bounds of the first element named `tag` among the elements of `inner`, stepping over
/// each sibling element whole, with its text.
pub fn find_top_level_element_bounds(inner: &str, tag: &str) -> (r: Option<(usize, usize, String)>)
    ensures
        match r {
            Some((a, e, t)) => top_level_element(inner@, tag@) == Some((a as int, e as int))
                && t@ == inner@.subrange(a as int, e as int),
            None => top_level_element(inner@, tag@) is None,
        },
{
    let s = chars_of(inner);
    match find_top_level_lit(&s, tag) {
        None => None,
        Some((a, e)) => Some((a, e, string_of(&slice(&s, a, e)))),
    }
}

/// The trimmed text between the open and close tags of the top-level element named `tag`.
pub fn element_text_content(block: &str, tag: &str) -> (r: Option<String>)
    ensures
        match r {
            Some(v) => text_content(block@, tag@) == Some(v@),
            None => text_content(block@, tag@) is None,
        },
{
    let s = chars_of(block);
    match text_content_lit(&s, tag) {
        None => None,
        Some(v) => Some(string_of(&v)),
    }
}

/// A negative data property assertion: the individual, the property, the literal it does not
/// have, and the positive assertion its source description makes, if any.
#[derive(Debug)]
pub struct ReifiedDataNpa {
    /// The individual the assertion is about.
    pub subject: String,
    /// The data property.
    pub property: String,
    /// The value the individual does not have.
    pub value_literal: String,
    /// A data property value that the source description asserts, if any.
    pub positive_property: Option<(String, String)>,
}

/// What a `ReifiedDataNpa` holds, as sequences.
pub type ReifiedView = (Seq<char>, Seq<char>, Seq<char>, Option<(Seq<char>, Seq<char>)>);

impl ReifiedDataNpa {
    /// The fields as sequences.
    pub open spec fn view(&self) -> ReifiedView {
        (
            self.subject@,
            self.property@,
            self.value_literal@,
            match self.positive_property {
                Some((p, v)) => Some((p@, v@)),
                None => None,
            },
        )
    }
}

/// The prefix of a qualified name (all of it when it has no `:`).
pub open spec fn qname_prefix(q: Seq<char>) -> Seq<char> {
    match index_of(q, ':') {
        Some(c) => q.subrange(0, c),
        None => q,
    }
}

pub fn qname_prefix_exec(q: &Vec<char>) -> (r: Vec<char>)
    ensures
        r@ == qname_prefix(q@),
{
    match index_of_exec(q, ':') {
        Some(c) => {
            proof {
                lemma_find_from_bounds(q@, 0, seq![':']);
            }
            slice(q, 0, c)
        },
        None => copy(q),
    }
}

/// From `pos` on, the first element with a user property name
/// (expanded through the namespaces) and a literal body, as the property and its trimmed text.
pub open spec fn positive_scan(inner: Seq<char>, ns: Seq<(Seq<char>, Seq<char>)>, pos: int) -> Option<
    (Seq<char>, Seq<char>),
>
    decreases inner.len() - pos,
{
    if pos < 0 || pos > inner.len() {
        None
    } else {
        match find_from(inner, pos, seq!['<']) {
            None => None,
            Some(st) => if st < pos || st >= inner.len() {
                None
            } else if matches_at(inner, st, "</"@) || matches_at(inner, st, "<!--"@) {
                positive_scan(inner, ns, st + 1)
            } else {
                match find_from(inner, st, seq!['>']) {
                    None => None,
                    Some(g) => if g < st || g >= inner.len() {
                        None
                    } else {
                        let tag = inner.subrange(st, g + 1);
                        match element_qname(tag) {
                            None => positive_scan(inner, ns, g + 1),
                            Some(q) => if is_builtin_prefix(qname_prefix(q)) {
                                positive_scan(inner, ns, g + 1)
                            } else {
                                match expand_qname(q, ns) {
                                    None => None,
                                    Some(iri) => if ends_with(trim_end(tag), "/>"@) {
                                        positive_scan(inner, ns, g + 1)
                                    } else {
                                        match find_from(inner, st, close_of(q)) {
                                            None => None,
                                            Some(cs) => if cs < g + 1 || cs > inner.len() {
                                                None
                                            } else {
                                                let body = trim(inner.subrange(g + 1, cs));
                                                if body.len() > 0 && body[0] != '<' {
                                                    Some((iri, body))
                                                } else {
                                                    positive_scan(inner, ns, g + 1)
                                                }
                                            },
                                        }
                                    },
                                }
                            },
                        }
                    },
                }
            },
        }
    }
}

fn positive_scan_exec(inner: &Vec<char>, ns: &Namespaces) -> (r: Option<(Vec<char>, Vec<char>)>)
    requires
        ns.wf(),
    ensures
        match r {
            Some((p, v)) => positive_scan(inner@, ns.entries(), 0) == Some((p@, v@)),
            None => positive_scan(inner@, ns.entries(), 0) is None,
        },
{
    let lt: Vec<char> = vec!['<'];
    let gt: Vec<char> = vec!['>'];
    assert(lt@ =~= seq!['<']);
    assert(gt@ =~= seq!['>']);
    let mut pos: usize = 0;
    loop
        invariant
            pos <= inner.len(),
            ns.wf(),
            lt@ == seq!['<'],
            gt@ == seq!['>'],
            positive_scan(inner@, ns.entries(), 0) == positive_scan(
                inner@,
                ns.entries(),
                pos as int,
            ),
        decreases inner.len() - pos,
    {
        let st = match find(inner, pos, &lt) {
            None => return None,
            Some(s) => s,
        };
        proof {
            lemma_find_from_bounds(inner@, pos as int, lt@);
        }
        if st >= inner.len() {
            return None;
        }
        if at_lit(inner, st, "</") || at_lit(inner, st, "<!--") {
            pos = st + 1;
            continue;
        }
        let g = match find(inner, st, &gt) {
            None => return None,
            Some(g) => g,
        };
        proof {
            lemma_find_from_bounds(inner@, st as int, gt@);
            assert(g < inner.len());
        }
        let tag = slice(inner, st, g + 1);
        let q = match element_qname_exec(&tag) {
            None => {
                pos = g + 1;
                continue;
            },
            Some(q) => q,
        };
        if is_builtin_prefix_exec(&qname_prefix_exec(&q)) {
            pos = g + 1;
            continue;
        }
        let iri = match expand_qname_exec(&q, ns) {
            None => return None,
            Some(i) => i,
        };
        if crate::text::ends_with_exec(&trim_end_exec(&tag), &chars_of("/>")) {
            pos = g + 1;
            continue;
        }
        let (_, close) = open_close(&q);
        let cs = match find(inner, st, &close) {
            None => return None,
            Some(c) => c,
        };
        proof {
            lemma_find_from_bounds(inner@, st as int, close@);
        }
        if cs < g + 1 {
            return None;
        }
        let body = trim_exec(&slice(inner, g + 1, cs));
        if body.len() > 0 && body[0] != '<' {
            return Some((iri, body));
        }
        pos = g + 1;
    }
}

/// The `rdf:about` (or `{base}#{rdf:ID}`) of the first
/// `rdf:Description` open tag.
pub open spec fn description_about(inner: Seq<char>, base: Seq<char>) -> Option<Seq<char>> {
    match find_from(inner, 0, "<rdf:Description"@) {
        None => None,
        Some(idx) => match find_from(inner, idx, seq!['>']) {
            None => None,
            Some(oe) => {
                let open = inner.subrange(idx, oe + 1);
                match attribute(open, "rdf:about"@) {
                    Some(a) => Some(a),
                    None => match attribute(open, "rdf:ID"@) {
                        Some(id) => Some(base + seq!['#'] + id),
                        None => None,
                    },
                }
            },
        },
    }
}

/// The about-or-id of an open tag: `rdf:about`, or `{base}#{rdf:ID}`.
pub open spec fn about_or_id(open: Seq<char>, base: Seq<char>) -> Option<Seq<char>> {
    match attribute(open, "rdf:about"@) {
        Some(a) => Some(a),
        None => match attribute(open, "rdf:ID"@) {
            Some(id) => Some(base + seq!['#'] + id),
            None => None,
        },
    }
}

pub fn about_or_id_exec(open: &Vec<char>, base: &Vec<char>) -> (r: Option<Vec<char>>)
    ensures
        match r {
            Some(v) => about_or_id(open@, base@) == Some(v@),
            None => about_or_id(open@, base@) is None,
        },
{
    if let Some(a) = extract_attribute(open, "rdf:about") {
        return Some(a);
    }
    if let Some(id) = extract_attribute(open, "rdf:ID") {
        let mut out = copy(base);
        out.push('#');
        push_all(&mut out, &id);
        assert(out@ =~= base@ + seq!['#'] + id@);
        return Some(out);
    }
    None
}

fn description_about_exec(inner: &Vec<char>, base: &Vec<char>) -> (r: Option<Vec<char>>)
    ensures
        match r {
            Some(v) => description_about(inner@, base@) == Some(v@),
            None => description_about(inner@, base@) is None,
        },
{
    proof {
        reveal_strlit(">");
        assert(">"@ =~= seq!['>']);
    }
    let idx = match find_lit(inner, 0, "<rdf:Description") {
        None => return None,
        Some(i) => i,
    };
    proof {
        lemma_find_from_bounds(inner@, 0, "<rdf:Description"@);
    }
    let oe = match find_lit(inner, idx, ">") {
        None => return None,
        Some(o) => o,
    };
    proof {
        lemma_find_from_bounds(inner@, idx as int, seq!['>']);
        assert(oe < inner.len());
    }
    let open = slice(inner, idx, oe + 1);
    about_or_id_exec(&open, base)
}

/// The individual a source element names: the first description inside it, or else its own
/// open tag, resolved against `base`.
pub open spec fn source_subject(source_inner: Seq<char>, source_block: Seq<char>, base: Seq<char>) -> Option<
    Seq<char>,
> {
    let found = match description_about(source_inner, base) {
        Some(x) => Some(x),
        None => match find_from(source_block, 0, seq!['>']) {
            None => None,
            Some(so) => about_or_id(source_block.subrange(0, so + 1), base),
        },
    };
    match found {
        Some(iri) => Some(resolve_iri(iri, base)),
        None => None,
    }
}

/// A description with `owl:sourceIndividual`,
/// `owl:assertionProperty` and `owl:targetValue` (and no `owl:targetIndividual`) as a negative
/// data property assertion.
pub open spec fn reified_data_npa(
    block: Seq<char>,
    base: Seq<char>,
    ns: Seq<(Seq<char>, Seq<char>)>,
) -> Option<ReifiedView> {
    match find_from(block, 0, seq!['>']) {
        None => None,
        Some(oe) => match rfind(block, "</rdf:Description>"@) {
            None => None,
            Some(ci) => if ci < oe + 1 {
                None
            } else {
                let inner = block.subrange(oe + 1, ci);
                if !contains(inner, "owl:sourceIndividual"@) || !contains(
                    inner,
                    "owl:assertionProperty"@,
                ) || !contains(inner, "owl:targetValue"@) || contains(
                    inner,
                    "owl:targetIndividual"@,
                ) {
                    None
                } else {
                    match property_resource(inner, "owl:assertionProperty"@, base) {
                        None => None,
                        Some(property) => match text_content(inner, "owl:targetValue"@) {
                            None => None,
                            Some(value) => match top_level_element(inner, "owl:sourceIndividual"@) {
                                None => None,
                                Some((a, e)) => {
                                    let source_block = inner.subrange(a, e);
                                    let source_inner = element_inner(
                                        source_block,
                                        "owl:sourceIndividual"@,
                                    );
                                    match source_subject(source_inner, source_block, base) {
                                        None => None,
                                        Some(subject) => Some(
                                            (
                                                subject,
                                                property,
                                                trim(value),
                                                positive_scan(source_inner, ns, 0),
                                            ),
                                        ),
                                    }
                                },
                            },
                        },
                    }
                }
            },
        },
    }
}

fn reified_data_npa_exec(block: &Vec<char>, base: &Vec<char>, ns: &Namespaces) -> (r: Option<
    ReifiedDataNpa,
>)
    requires
        ns.wf(),
    ensures
        match r {
            Some(n) => reified_data_npa(block@, base@, ns.entries()) == Some(n.view()),
            None => reified_data_npa(block@, base@, ns.entries()) is None,
        },
{
    proof {
        reveal_strlit(">");
        assert(">"@ =~= seq!['>']);
    }
    let oe = match find_lit(block, 0, ">") {
        None => return None,
        Some(o) => o,
    };
    proof {
        lemma_find_from_bounds(block@, 0, seq!['>']);
        assert(oe < block.len());
    }
    let ci = match rfind_lit(block, "</rdf:Description>") {
        None => return None,
        Some(c) => c,
    };
    proof {
        lemma_rfind_bounds(block@, "</rdf:Description>"@);
    }
    if ci < oe + 1 {
        return None;
    }
    let inner = slice(block, oe + 1, ci);
    if !contains_lit(&inner, "owl:sourceIndividual") || !contains_lit(&inner, "owl:assertionProperty")
        || !contains_lit(&inner, "owl:targetValue") || contains_lit(&inner, "owl:targetIndividual") {
        return None;
    }
    let property = match extract_property_resource(&inner, "owl:assertionProperty", base) {
        None => return None,
        Some(p) => p,
    };
    let value = match text_content_lit(&inner, "owl:targetValue") {
        None => return None,
        Some(v) => v,
    };
    let (a, e) = match find_top_level_lit(&inner, "owl:sourceIndividual") {
        None => return None,
        Some(b) => b,
    };
    let source_block = slice(&inner, a, e);
    let source_inner = element_inner_lit(&source_block, "owl:sourceIndividual");
    let found = match description_about_exec(&source_inner, base) {
        Some(x) => Some(x),
        None => match find_lit(&source_block, 0, ">") {
            None => None,
            Some(so) => {
                proof {
                    lemma_find_from_bounds(source_block@, 0, seq!['>']);
                    assert(so < source_block.len());
                }
                about_or_id_exec(&slice(&source_block, 0, so + 1), base)
            },
        },
    };
    let subject = match found {
        None => return None,
        Some(iri) => resolve_relative_iri(&iri, base),
    };
    let positive = match positive_scan_exec(&source_inner, ns) {
        Some((p, v)) => Some((string_of(&p), string_of(&v))),
        None => None,
    };
    Some(
        ReifiedDataNpa {
            subject: string_of(&subject),
            property: string_of(&property),
            value_literal: string_of(&trim_exec(&value)),
            positive_property: positive,
        },
    )
}

/// The walk of `collect_reified_data_npas` from `pos` over the `rdf:Description` elements.
pub open spec fn reified_scan(
    s: Seq<char>,
    base: Seq<char>,
    ns: Seq<(Seq<char>, Seq<char>)>,
    pos: int,
) -> Seq<ReifiedView>
    decreases s.len() - pos,
{
    if pos < 0 || pos >= s.len() {
        Seq::empty()
    } else {
        match find_from(s, pos, "<rdf:Description"@) {
            None => Seq::empty(),
            Some(st) => if st < pos || st >= s.len() {
                Seq::empty()
            } else {
                match general_block_end(s, st, "rdf:Description"@, "</rdf:Description>"@) {
                    None => Seq::empty(),
                    Some(end) => if end <= st || end > s.len() {
                        Seq::empty()
                    } else {
                        (match reified_data_npa(s.subrange(st, end), base, ns) {
                            Some(n) => seq![n],
                            None => Seq::empty(),
                        }) + reified_scan(s, base, ns, end)
                    },
                }
            },
        }
    }
}

/// `collect_reified_data_npas`: the negative data property assertions of the document, in
/// order.
pub open spec fn reified_data_npas(s: Seq<char>) -> Seq<ReifiedView> {
    reified_scan(s, xml_base(s), xmlns_of(s), 0)
}

/// The views of a list of assertions.
pub open spec fn npa_views(v: Seq<ReifiedDataNpa>) -> Seq<ReifiedView> {
    v.map_values(|n: ReifiedDataNpa| n.view())
}

/// Collect the negative data property assertions written as reified descriptions.
pub fn collect_reified_data_npas(rdf: &str) -> (r: Vec<ReifiedDataNpa>)
    ensures
        npa_views(r@) == reified_data_npas(rdf@),
{
    let s = chars_of(rdf);
    let base = parse_xml_base(&s);
    let ns = xmlns_declarations(&s);
    let desc = chars_of("rdf:Description");
    let close = chars_of("</rdf:Description>");
    let mut out: Vec<ReifiedDataNpa> = Vec::new();
    let mut pos: usize = 0;
    assert(npa_views(out@) =~= Seq::<ReifiedView>::empty());
    while pos < s.len()
        invariant
            s@ == rdf@,
            ns.wf(),
            ns.entries() == xmlns_of(s@),
            base@ == xml_base(s@),
            desc@ == "rdf:Description"@,
            close@ == "</rdf:Description>"@,
            npa_views(out@) + reified_scan(s@, base@, ns.entries(), pos as int)
                == reified_data_npas(s@),
        decreases s.len() - pos,
    {
        let st = match find_lit(&s, pos, "<rdf:Description") {
            None => {
                assert(npa_views(out@) =~= npa_views(out@) + Seq::<ReifiedView>::empty());
                return out;
            },
            Some(st) => st,
        };
        proof {
            lemma_find_from_bounds(s@, pos as int, "<rdf:Description"@);
        }
        if st >= s.len() {
            assert(npa_views(out@) =~= npa_views(out@) + Seq::<ReifiedView>::empty());
            return out;
        }
        let end = match general_block_end_exec(&s, st, &desc, &close) {
            None => {
                assert(npa_views(out@) =~= npa_views(out@) + Seq::<ReifiedView>::empty());
                return out;
            },
            Some(e) => e,
        };
        if end <= st || end > s.len() {
            assert(npa_views(out@) =~= npa_views(out@) + Seq::<ReifiedView>::empty());
            return out;
        }
        let ghost before = npa_views(out@);
        let block = slice(&s, st, end);
        match reified_data_npa_exec(&block, &base, &ns) {
            Some(n) => {
                let ghost nv = n.view();
                out.push(n);
                assert(npa_views(out@) =~= before + seq![nv]);
            },
            None => {
                assert(npa_views(out@) =~= before + Seq::<ReifiedView>::empty());
            },
        }
        proof {
            assert(npa_views(out@) + reified_scan(s@, base@, ns.entries(), end as int) =~= before
                + reified_scan(s@, base@, ns.entries(), pos as int));
        }
        pos = end;
    }
    assert(npa_views(out@) =~= npa_views(out@) + reified_scan(
        s@,
        base@,
        ns.entries(),
        pos as int,
    ));
    out
}

} // verus!

verus! {

/// A negative object property assertion: the individual, the property, the individual it is
/// not related to, and an object property assertion its source description makes, if any.
pub struct ReifiedNpa {
    /// The individual the assertion is about.
    pub subject: String,
    /// The object property.
    pub property: String,
    /// The individual the subject is not related to.
    pub object: String,
    /// A property and object that the source description asserts, if any.
    pub positive_property: Option<(String, String)>,
}

/// What a `ReifiedNpa` holds, as sequences.
pub type NpaView = (Seq<char>, Seq<char>, Seq<char>, Option<(Seq<char>, Seq<char>)>);

impl View for ReifiedNpa {
    type V = NpaView;

    open spec fn view(&self) -> NpaView {
        (
            self.subject@,
            self.property@,
            self.object@,
            match self.positive_property {
                Some((p, v)) => Some((p@, v@)),
                None => None,
            },
        )
    }
}

/// From `pos` on, the first element with a user property name (expanded through the
/// namespaces) and an `rdf:resource`, as the property and the resource resolved against
/// `base`.  A user property name that no namespace expands ends the search.
pub open spec fn object_positive_scan(
    inner: Seq<char>,
    base: Seq<char>,
    ns: Seq<(Seq<char>, Seq<char>)>,
    pos: int,
) -> Option<(Seq<char>, Seq<char>)>
    decreases inner.len() - pos,
{
    if pos < 0 || pos > inner.len() {
        None
    } else {
        match find_from(inner, pos, seq!['<']) {
            None => None,
            Some(st) => if st < pos || st >= inner.len() {
                None
            } else if matches_at(inner, st, "</"@) || matches_at(inner, st, "<!--"@) {
                object_positive_scan(inner, base, ns, st + 1)
            } else {
                match find_from(inner, st, seq!['>']) {
                    None => None,
                    Some(g) => if g < st || g >= inner.len() {
                        None
                    } else {
                        let tag = inner.subrange(st, g + 1);
                        match element_qname(tag) {
                            None => object_positive_scan(inner, base, ns, g + 1),
                            Some(q) => if is_builtin_prefix(qname_prefix(q)) {
                                object_positive_scan(inner, base, ns, g + 1)
                            } else {
                                match expand_qname(q, ns) {
                                    None => None,
                                    Some(iri) => match attribute(tag, "rdf:resource"@) {
                                        Some(r) => Some((iri, resolve_iri(r, base))),
                                        None => object_positive_scan(inner, base, ns, g + 1),
                                    },
                                }
                            },
                        }
                    },
                }
            },
        }
    }
}

fn object_positive_scan_exec(inner: &Vec<char>, base: &Vec<char>, ns: &Namespaces) -> (r: Option<
    (Vec<char>, Vec<char>),
>)
    requires
        ns.wf(),
    ensures
        match r {
            Some((p, v)) => object_positive_scan(inner@, base@, ns.entries(), 0) == Some((p@, v@)),
            None => object_positive_scan(inner@, base@, ns.entries(), 0) is None,
        },
{
    let lt: Vec<char> = vec!['<'];
    let gt: Vec<char> = vec!['>'];
    assert(lt@ =~= seq!['<']);
    assert(gt@ =~= seq!['>']);
    let mut pos: usize = 0;
    loop
        invariant
            pos <= inner.len(),
            ns.wf(),
            lt@ == seq!['<'],
            gt@ == seq!['>'],
            object_positive_scan(inner@, base@, ns.entries(), 0) == object_positive_scan(
                inner@,
                base@,
                ns.entries(),
                pos as int,
            ),
        decreases inner.len() - pos,
    {
        let st = match find(inner, pos, &lt) {
            None => return None,
            Some(s) => s,
        };
        proof {
            lemma_find_from_bounds(inner@, pos as int, lt@);
        }
        if st >= inner.len() {
            return None;
        }
        if at_lit(inner, st, "</") || at_lit(inner, st, "<!--") {
            pos = st + 1;
            continue;
        }
        let g = match find(inner, st, &gt) {
            None => return None,
            Some(g) => g,
        };
        proof {
            lemma_find_from_bounds(inner@, st as int, gt@);
            assert(g < inner.len());
        }
        let tag = slice(inner, st, g + 1);
        let q = match element_qname_exec(&tag) {
            None => {
                pos = g + 1;
                continue;
            },
            Some(q) => q,
        };
        if is_builtin_prefix_exec(&qname_prefix_exec(&q)) {
            pos = g + 1;
            continue;
        }
        let iri = match expand_qname_exec(&q, ns) {
            None => return None,
            Some(i) => i,
        };
        if let Some(r) = extract_attribute(&tag, "rdf:resource") {
            return Some((iri, resolve_relative_iri(&r, base)));
        }
        pos = g + 1;
    }
}

/// A description with `owl:sourceIndividual`, `owl:assertionProperty` and
/// `owl:targetIndividual` (and no `owl:targetValue`) as a negative object property assertion.
pub open spec fn reified_npa(block: Seq<char>, base: Seq<char>, ns: Seq<(Seq<char>, Seq<char>)>) -> Option<
    NpaView,
> {
    match find_from(block, 0, seq!['>']) {
        None => None,
        Some(oe) => match rfind(block, "</rdf:Description>"@) {
            None => None,
            Some(ci) => if ci < oe + 1 {
                None
            } else {
                let inner = block.subrange(oe + 1, ci);
                if !contains(inner, "owl:sourceIndividual"@) || !contains(
                    inner,
                    "owl:assertionProperty"@,
                ) || contains(inner, "owl:targetValue"@) {
                    None
                } else {
                    match property_resource(inner, "owl:assertionProperty"@, base) {
                        None => None,
                        Some(property) => match property_resource(
                            inner,
                            "owl:targetIndividual"@,
                            base,
                        ) {
                            None => None,
                            Some(object) => match top_level_element(
                                inner,
                                "owl:sourceIndividual"@,
                            ) {
                                None => None,
                                Some((a, e)) => {
                                    let source_block = inner.subrange(a, e);
                                    let source_inner = element_inner(
                                        source_block,
                                        "owl:sourceIndividual"@,
                                    );
                                    match source_subject(source_inner, source_block, base) {
                                        None => None,
                                        Some(subject) => Some(
                                            (
                                                subject,
                                                property,
                                                object,
                                                object_positive_scan(source_inner, base, ns, 0),
                                            ),
                                        ),
                                    }
                                },
                            },
                        },
                    }
                }
            },
        },
    }
}

fn reified_npa_exec(block: &Vec<char>, base: &Vec<char>, ns: &Namespaces) -> (r: Option<ReifiedNpa>)
    requires
        ns.wf(),
    ensures
        match r {
            Some(n) => reified_npa(block@, base@, ns.entries()) == Some(n@),
            None => reified_npa(block@, base@, ns.entries()) is None,
        },
{
    proof {
        reveal_strlit(">");
        assert(">"@ =~= seq!['>']);
    }
    let oe = match find_lit(block, 0, ">") {
        None => return None,
        Some(o) => o,
    };
    proof {
        lemma_find_from_bounds(block@, 0, seq!['>']);
        assert(oe < block.len());
    }
    let ci = match rfind_lit(block, "</rdf:Description>") {
        None => return None,
        Some(c) => c,
    };
    proof {
        lemma_rfind_bounds(block@, "</rdf:Description>"@);
    }
    if ci < oe + 1 {
        return None;
    }
    let inner = slice(block, oe + 1, ci);
    if !contains_lit(&inner, "owl:sourceIndividual") || !contains_lit(&inner, "owl:assertionProperty")
        || contains_lit(&inner, "owl:targetValue") {
        return None;
    }
    let property = match extract_property_resource(&inner, "owl:assertionProperty", base) {
        None => return None,
        Some(p) => p,
    };
    let object = match extract_property_resource(&inner, "owl:targetIndividual", base) {
        None => return None,
        Some(o) => o,
    };
    let (a, e) = match find_top_level_lit(&inner, "owl:sourceIndividual") {
        None => return None,
        Some(b) => b,
    };
    let source_block = slice(&inner, a, e);
    let source_inner = element_inner_lit(&source_block, "owl:sourceIndividual");
    let found = match description_about_exec(&source_inner, base) {
        Some(x) => Some(x),
        None => match find_lit(&source_block, 0, ">") {
            None => None,
            Some(so) => {
                proof {
                    lemma_find_from_bounds(source_block@, 0, seq!['>']);
                    assert(so < source_block.len());
                }
                about_or_id_exec(&slice(&source_block, 0, so + 1), base)
            },
        },
    };
    let subject = match found {
        None => return None,
        Some(iri) => resolve_relative_iri(&iri, base),
    };
    let positive = match object_positive_scan_exec(&source_inner, base, ns) {
        Some((p, v)) => Some((string_of(&p), string_of(&v))),
        None => None,
    };
    Some(
        ReifiedNpa {
            subject: string_of(&subject),
            property: string_of(&property),
            object: string_of(&object),
            positive_property: positive,
        },
    )
}

pub open spec fn reified_npa_fn(base: Seq<char>, ns: Seq<(Seq<char>, Seq<char>)>) -> spec_fn(
    Seq<char>,
) -> Option<NpaView> {
    |b: Seq<char>| reified_npa(b, base, ns)
}

/// The negative object property assertions of the document, in order.
pub open spec fn reified_npas(s: Seq<char>) -> Seq<NpaView> {
    crate::scan::element_walk(
        s,
        "rdf:Description"@,
        crate::scan::EndRule::Balanced,
        0,
        reified_npa_fn(xml_base(s), xmlns_of(s)),
    )
}

/// Collect the negative object property assertions written as reified descriptions.
pub fn collect_reified_npas(rdf: &str) -> (r: Vec<ReifiedNpa>)
    ensures
        r@.map_values(|n: ReifiedNpa| n@) == reified_npas(rdf@),
{
    let s = chars_of(rdf);
    let base = parse_xml_base(&s);
    let ns = xmlns_declarations(&s);
    let f = |b: &Vec<char>| -> (r: Option<ReifiedNpa>)
        ensures
            match r {
                Some(n) => reified_npa(b@, base@, ns.entries()) == Some(n@),
                None => reified_npa(b@, base@, ns.entries()) is None,
            },
        { reified_npa_exec(b, &base, &ns) };
    crate::scan::collect_elements(
        &s,
        &chars_of("rdf:Description"),
        crate::scan::EndRule::Balanced,
        f,
        Ghost(reified_npa_fn(base@, ns.entries())),
    )
}

} // verus!

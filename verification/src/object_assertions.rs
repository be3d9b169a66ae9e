//! Object property assertions read off individual descriptions in RDF/XML.
use vstd::prelude::*;

use crate::complex::{general_block_end, general_block_end_exec};
use crate::descriptions::{first_gt_or_zero, first_gt_or_zero_exec};
use crate::reified::{about_or_id, about_or_id_exec, qname_prefix, qname_prefix_exec};
use crate::text::{at_lit, chars_of, copy, decimal, ends_with, find, find_from, find_lit, index_of, index_of_exec, lemma_find_from_bounds, lemma_rfind_bounds, matches_at, push_all, push_decimal, push_range, push_str, rfind, rfind_exec, rfind_lit, slice, starts_with, string_of, trim, trim_exec};
use crate::xml::{attribute, close_of, expand_qname, expand_qname_exec, extract_attribute, is_builtin_prefix, is_builtin_prefix_exec, open_close, parse_xml_base, resolve_iri, resolve_relative_iri, skip_ascii_ws, skip_ascii_ws_exec, tag_element_end, tag_name_at, tag_name_exec, tagged_end, xml_base, xmlns_declarations, xmlns_of, Namespaces};

verus! {

/// A subject, property and object, as sequences.
pub type TripleView = (Seq<char>, Seq<char>, Seq<char>);

/// The views of a list of triples of strings.
pub open spec fn triple_views(v: Seq<(String, String, String)>) -> Seq<TripleView> {
    v.map_values(|t: (String, String, String)| (t.0@, t.1@, t.2@))
}

/// `{base}#_{node}`.
pub open spec fn blank_iri(base: Seq<char>, node: Seq<char>) -> Seq<char> {
    base + "#_"@ + node
}

pub(crate) fn blank_iri_exec(base: &Vec<char>, node: &Vec<char>) -> (r: Vec<char>)
    ensures
        r@ == blank_iri(base@, node@),
{
    let mut out = copy(base);
    push_str(&mut out, "#_");
    push_all(&mut out, node);
    out
}

/// The value after the first `marker` of `s`: up to the next `"`, or else up to the next
/// `marker` (`split(marker).nth(1)` then `split('"').next()`).
pub open spec fn value_after(s: Seq<char>, marker: Seq<char>) -> Option<Seq<char>> {
    match find_from(s, 0, marker) {
        None => None,
        Some(k) => {
            let vs = k + marker.len();
            let ve = match find_from(s, vs, marker) {
                Some(n) => n,
                None => s.len() as int,
            };
            let seg = s.subrange(vs, ve);
            Some(
                match index_of(seg, '"') {
                    Some(q) => seg.subrange(0, q),
                    None => seg,
                },
            )
        },
    }
}

pub(crate) fn value_after_exec(s: &Vec<char>, marker: &str) -> (r: Option<Vec<char>>)
    requires
        marker@.len() > 0,
    ensures
        match r {
            Some(v) => value_after(s@, marker@) == Some(v@),
            None => value_after(s@, marker@) is None,
        },
{
    let m = chars_of(marker);
    let k = match find(s, 0, &m) {
        None => return None,
        Some(k) => k,
    };
    proof {
        lemma_find_from_bounds(s@, 0, m@);
        assert(k + m.len() <= s.len());
    }
    let vs = k + m.len();
    let ve = match find(s, vs, &m) {
        Some(n) => {
            proof {
                lemma_find_from_bounds(s@, vs as int, m@);
            }
            n
        },
        None => s.len(),
    };
    let seg = slice(s, vs, ve);
    match index_of_exec(&seg, '"') {
        Some(q) => {
            proof {
                lemma_find_from_bounds(seg@, 0, seq!['"']);
            }
            Some(slice(&seg, 0, q))
        },
        None => Some(seg),
    }
}

/// The object a property element names — by
/// `rdf:resource`, `rdf:about` or `rdf:nodeID` on its open tag, or by the first `rdf:about` or
/// `rdf:nodeID` value inside it.
pub open spec fn object_iri(
    prop_open: Seq<char>,
    prop_block: Seq<char>,
    tag: Seq<char>,
    base: Seq<char>,
) -> Option<Seq<char>> {
    match attribute(prop_open, "rdf:resource"@) {
        Some(r) => Some(resolve_iri(r, base)),
        None => match attribute(prop_open, "rdf:about"@) {
            Some(a) => Some(resolve_iri(a, base)),
            None => match attribute(prop_open, "rdf:nodeID"@) {
                Some(n) => Some(blank_iri(base, n)),
                None => match rfind(prop_block, close_of(tag)) {
                    None => None,
                    Some(cs) => match find_from(prop_block, 0, seq!['>']) {
                        None => None,
                        Some(poe) => if cs < poe + 1 {
                            None
                        } else {
                            let child = prop_block.subrange(poe + 1, cs);
                            match value_after(child, "rdf:about=\""@) {
                                Some(a) => Some(resolve_iri(a, base)),
                                None => match value_after(child, "rdf:nodeID=\""@) {
                                    Some(n) => Some(blank_iri(base, n)),
                                    None => None,
                                },
                            }
                        },
                    },
                },
            },
        },
    }
}

fn object_iri_exec(
    prop_open: &Vec<char>,
    prop_block: &Vec<char>,
    tag: &Vec<char>,
    base: &Vec<char>,
) -> (r: Option<Vec<char>>)
    ensures
        match r {
            Some(v) => object_iri(prop_open@, prop_block@, tag@, base@) == Some(v@),
            None => object_iri(prop_open@, prop_block@, tag@, base@) is None,
        },
{
    if let Some(r) = extract_attribute(prop_open, "rdf:resource") {
        return Some(resolve_relative_iri(&r, base));
    }
    if let Some(a) = extract_attribute(prop_open, "rdf:about") {
        return Some(resolve_relative_iri(&a, base));
    }
    if let Some(n) = extract_attribute(prop_open, "rdf:nodeID") {
        return Some(blank_iri_exec(base, &n));
    }
    let (_, close) = open_close(tag);
    let cs = match rfind_exec(prop_block, &close) {
        None => return None,
        Some(c) => c,
    };
    proof {
        lemma_rfind_bounds(prop_block@, close@);
        reveal_strlit(">");
        assert(">"@ =~= seq!['>']);
    }
    let poe = match find_lit(prop_block, 0, ">") {
        None => return None,
        Some(p) => p,
    };
    proof {
        lemma_find_from_bounds(prop_block@, 0, seq!['>']);
        assert(poe < prop_block.len());
    }
    if cs < poe + 1 {
        return None;
    }
    let child = slice(prop_block, poe + 1, cs);
    proof {
        reveal_strlit("rdf:about=\"");
        reveal_strlit("rdf:nodeID=\"");
    }
    if let Some(a) = value_after_exec(&child, "rdf:about=\"") {
        return Some(resolve_relative_iri(&a, base));
    }
    if let Some(n) = value_after_exec(&child, "rdf:nodeID=\"") {
        return Some(blank_iri_exec(base, &n));
    }
    None
}

/// The `owl:Thing` element that a property element holds as its
/// content.
pub open spec fn thing_child(prop_block: Seq<char>, tag: Seq<char>) -> Option<Seq<char>> {
    match find_from(prop_block, 0, seq!['>']) {
        None => None,
        Some(poe) => match rfind(prop_block, close_of(tag)) {
            None => None,
            Some(cs) => if cs < poe + 1 {
                None
            } else {
                let child = trim(prop_block.subrange(poe + 1, cs));
                if !starts_with(child, "<owl:Thing"@) {
                    None
                } else if ends_with(child, "/>"@) {
                    Some(child)
                } else {
                    match tagged_end(child, 0, "owl:Thing"@) {
                        None => None,
                        Some(end) => if end > child.len() {
                            None
                        } else {
                            Some(child.subrange(0, end))
                        },
                    }
                }
            },
        },
    }
}

fn thing_child_exec(prop_block: &Vec<char>, tag: &Vec<char>) -> (r: Option<Vec<char>>)
    ensures
        match r {
            Some(v) => thing_child(prop_block@, tag@) == Some(v@),
            None => thing_child(prop_block@, tag@) is None,
        },
{
    proof {
        reveal_strlit(">");
        assert(">"@ =~= seq!['>']);
    }
    let poe = match find_lit(prop_block, 0, ">") {
        None => return None,
        Some(p) => p,
    };
    proof {
        lemma_find_from_bounds(prop_block@, 0, seq!['>']);
        assert(poe < prop_block.len());
    }
    let (_, close) = open_close(tag);
    let cs = match rfind_exec(prop_block, &close) {
        None => return None,
        Some(c) => c,
    };
    proof {
        lemma_rfind_bounds(prop_block@, close@);
    }
    if cs < poe + 1 {
        return None;
    }
    let child = trim_exec(&slice(prop_block, poe + 1, cs));
    if !at_lit(&child, 0, "<owl:Thing") {
        return None;
    }
    if crate::text::ends_with_exec(&child, &chars_of("/>")) {
        return Some(child);
    }
    match tag_element_end(&child, 0, &chars_of("owl:Thing")) {
        None => None,
        Some(end) => Some(slice(&child, 0, end)),
    }
}

/// The description of a nested `owl:Thing` named `object`, as the reader is given it:
/// `<owl:Thing rdf:about="{object}">` around the body of `thing` (`None` where that body cannot
/// be cut out).
pub open spec fn wrapped_thing(thing: Seq<char>, object: Seq<char>) -> Option<Seq<char>> {
    if ends_with(thing, "/>"@) {
        Some("<owl:Thing rdf:about=\""@ + object + "\"></owl:Thing>"@)
    } else {
        let oe = match find_from(thing, 0, seq!['>']) {
            Some(i) => i + 1,
            None => 0,
        };
        let close = match rfind(thing, "</owl:Thing>"@) {
            Some(c) => c,
            None => thing.len() as int,
        };
        if oe > close {
            None
        } else {
            Some(
                "<owl:Thing rdf:about=\""@ + object + "\">"@ + thing.subrange(oe, close)
                    + "</owl:Thing>"@,
            )
        }
    }
}

fn wrapped_thing_exec(thing: &Vec<char>, object: &Vec<char>) -> (r: Option<Vec<char>>)
    ensures
        match r {
            Some(v) => wrapped_thing(thing@, object@) == Some(v@),
            None => wrapped_thing(thing@, object@) is None,
        },
{
    if crate::text::ends_with_exec(thing, &chars_of("/>")) {
        let mut out = chars_of("<owl:Thing rdf:about=\"");
        push_all(&mut out, object);
        push_str(&mut out, "\"></owl:Thing>");
        return Some(out);
    }
    proof {
        reveal_strlit(">");
        assert(">"@ =~= seq!['>']);
    }
    let oe = match find_lit(thing, 0, ">") {
        Some(i) => {
            proof {
                lemma_find_from_bounds(thing@, 0, seq!['>']);
                assert(i < thing.len());
            }
            i + 1
        },
        None => 0,
    };
    let close = match rfind_lit(thing, "</owl:Thing>") {
        Some(c) => {
            proof {
                lemma_rfind_bounds(thing@, "</owl:Thing>"@);
            }
            c
        },
        None => thing.len(),
    };
    if oe > close {
        return None;
    }
    let mut out = chars_of("<owl:Thing rdf:about=\"");
    push_all(&mut out, object);
    push_str(&mut out, "\">");
    push_range(&mut out, thing, oe, close);
    push_str(&mut out, "</owl:Thing>");
    Some(out)
}

/// The subject and the body of an individual element: the subject given, or else the one its
/// open tag names (resolved against `base`), and the text between its open tag and its last
/// `</open_tag>`.
pub open spec fn subject_and_inner(
    subject: Option<Seq<char>>,
    block: Seq<char>,
    open_tag: Seq<char>,
    base: Seq<char>,
) -> Option<(Seq<char>, Seq<char>)> {
    match find_from(block, 0, seq!['>']) {
        None => None,
        Some(oe) => {
            let sub = match subject {
                Some(s) => Some(s),
                None => match about_or_id(block.subrange(0, oe + 1), base) {
                    Some(i) => Some(resolve_iri(i, base)),
                    None => None,
                },
            };
            match sub {
                None => None,
                Some(s) => match rfind(block, close_of(open_tag)) {
                    None => None,
                    Some(cs) => if cs < oe + 1 {
                        None
                    } else {
                        Some((s, block.subrange(oe + 1, cs)))
                    },
                },
            }
        },
    }
}

fn subject_and_inner_exec(
    subject: Option<Vec<char>>,
    block: &Vec<char>,
    open_tag: &Vec<char>,
    base: &Vec<char>,
) -> (r: Option<(Vec<char>, Vec<char>)>)
    ensures
        match r {
            Some((s, i)) => subject_and_inner(
                match subject {
                    Some(x) => Some(x@),
                    None => None,
                },
                block@,
                open_tag@,
                base@,
            ) == Some((s@, i@)),
            None => subject_and_inner(
                match subject {
                    Some(x) => Some(x@),
                    None => None,
                },
                block@,
                open_tag@,
                base@,
            ) is None,
        },
        r matches Some((_, i)) ==> i.len() < block.len(),
{
    proof {
        reveal_strlit(">");
        assert(">"@ =~= seq!['>']);
    }
    let oe = match find_lit(block, 0, ">") {
        None => return None,
        Some(o) => o,
    };
    proof {
        lemma_find_from_bounds(block@, 0, seq!['>']);
        assert(oe < block.len());
    }
    let sub = match subject {
        Some(s) => s,
        None => match about_or_id_exec(&slice(block, 0, oe + 1), base) {
            Some(i) => resolve_relative_iri(&i, base),
            None => return None,
        },
    };
    let (_, close) = open_close(open_tag);
    let cs = match rfind_exec(block, &close) {
        None => return None,
        Some(c) => c,
    };
    proof {
        lemma_rfind_bounds(block@, close@);
    }
    if cs < oe + 1 {
        return None;
    }
    Some((sub, slice(block, oe + 1, cs)))
}

/// The assertions of the individual that a property element holds as an `owl:Thing`, named
/// `object`, read only where its body is shorter than `limit`, and the count they end with.
pub open spec fn nested_assertions(
    thing: Seq<char>,
    object: Seq<char>,
    base: Seq<char>,
    ns: Seq<(Seq<char>, Seq<char>)>,
    anon: nat,
    limit: int,
) -> (Seq<TripleView>, nat)
    decreases limit + 1, 0int,
{
    match wrapped_thing(thing, object) {
        None => (Seq::empty(), anon),
        Some(w) => match subject_and_inner(Some(object), w, "owl:Thing"@, base) {
            Some((s2, in2)) => if in2.len() < limit {
                member_scan(s2, in2, 0, base, ns, anon)
            } else {
                (Seq::empty(), anon)
            },
            None => (Seq::empty(), anon),
        },
    }
}

/// The scan over the property elements of
/// `inner` from `pos`, with `anon` nested individuals named so far: the assertions it makes and
/// the count it ends with.  A property element whose content is an `owl:Thing` names a fresh
/// node `{base}#_anon{n}` and its assertions are read too.
pub open spec fn member_scan(
    subject: Seq<char>,
    inner: Seq<char>,
    pos: int,
    base: Seq<char>,
    ns: Seq<(Seq<char>, Seq<char>)>,
    anon: nat,
) -> (Seq<TripleView>, nat)
    decreases inner.len() + 1, inner.len() - pos + 1,
{
    if pos < 0 || pos >= inner.len() {
        (Seq::empty(), anon)
    } else {
        let p = skip_ascii_ws(inner, pos);
        if p < pos || p >= inner.len() || inner[p] != '<' {
            (Seq::empty(), anon)
        } else if matches_at(inner, p, "</"@) || matches_at(inner, p, "<!--"@) {
            member_scan(subject, inner, p + 1, base, ns, anon)
        } else {
            let name = tag_name_at(inner, p);
            match tagged_end(inner, p, name) {
                None => (Seq::empty(), anon),
                Some(end) => if end <= p || end > inner.len() {
                    (Seq::empty(), anon)
                } else if is_builtin_prefix(qname_prefix(name)) {
                    member_scan(subject, inner, end, base, ns, anon)
                } else {
                    match expand_qname(name, ns) {
                        None => member_scan(subject, inner, end, base, ns, anon),
                        Some(prop) => {
                            let pb = inner.subrange(p, end);
                            let popen = pb.subrange(0, first_gt_or_zero(pb) + 1);
                            match object_iri(popen, pb, name, base) {
                                Some(obj) => {
                                    let rest = member_scan(subject, inner, end, base, ns, anon);
                                    (seq![(subject, prop, obj)] + rest.0, rest.1)
                                },
                                None => match thing_child(pb, name) {
                                    None => member_scan(subject, inner, end, base, ns, anon),
                                    Some(tb) => {
                                        let a1 = anon + 1;
                                        let object = blank_iri(base, "anon"@ + decimal(a1));
                                        let nested = nested_assertions(
                                            tb,
                                            object,
                                            base,
                                            ns,
                                            a1,
                                            end - p,
                                        );
                                        let rest = member_scan(
                                            subject,
                                            inner,
                                            end,
                                            base,
                                            ns,
                                            nested.1,
                                        );
                                        (seq![(subject, prop, object)] + nested.0 + rest.0, rest.1)
                                    },
                                },
                            }
                        },
                    }
                },
            }
        }
    }
}

/// The text pushed for one triple.
fn push_triple(out: &mut Vec<(String, String, String)>, s: &Vec<char>, p: &Vec<char>, o: &Vec<char>)
    ensures
        triple_views(final(out)@) == triple_views(old(out)@).push((s@, p@, o@)),
{
    let ghost before = triple_views(out@);
    out.push((string_of(s), string_of(p), string_of(o)));
    assert(triple_views(out@) =~= before.push((s@, p@, o@)));
}

/// `nested_assertions`.
fn nested_exec(
    thing: &Vec<char>,
    object: &Vec<char>,
    base: &Vec<char>,
    ns: &Namespaces,
    anon: usize,
    limit: usize,
    out: &mut Vec<(String, String, String)>,
) -> (new_anon: usize)
    requires
        ns.wf(),
        anon + limit <= usize::MAX + 1,
    ensures
        triple_views(final(out)@) == triple_views(old(out)@) + nested_assertions(
            thing@,
            object@,
            base@,
            ns.entries(),
            anon as nat,
            limit as int,
        ).0,
        new_anon == nested_assertions(
            thing@,
            object@,
            base@,
            ns.entries(),
            anon as nat,
            limit as int,
        ).1,
        anon <= new_anon,
        limit > 0 ==> new_anon < anon + limit,
        limit == 0 ==> new_anon == anon,
    decreases limit + 1, 0int,
{
    let ghost before = triple_views(out@);
    match wrapped_thing_exec(thing, object) {
        None => {
            assert(triple_views(out@) =~= before + Seq::<TripleView>::empty());
            anon
        },
        Some(w) => match subject_and_inner_exec(Some(copy(object)), &w, &chars_of("owl:Thing"), base) {
            Some((s2, in2)) => {
                if in2.len() < limit {
                    member_scan_exec(&s2, &in2, base, ns, anon, out)
                } else {
                    assert(triple_views(out@) =~= before + Seq::<TripleView>::empty());
                    anon
                }
            },
            None => {
                assert(triple_views(out@) =~= before + Seq::<TripleView>::empty());
                anon
            },
        },
    }
}

/// One step of `member_scan` at `pos`: the assertions of one property element (and of the
/// nested individual it holds), and where the scan goes on, if anywhere.
#[verifier::spinoff_prover]
fn member_step(
    subject: &Vec<char>,
    inner: &Vec<char>,
    base: &Vec<char>,
    ns: &Namespaces,
    pos: usize,
    cur: usize,
    out: &mut Vec<(String, String, String)>,
) -> (r: (Option<usize>, usize))
    requires
        ns.wf(),
        pos < inner.len(),
        cur + (inner.len() - pos) <= usize::MAX,
    ensures
        ({
            let here = member_scan(subject@, inner@, pos as int, base@, ns.entries(), cur as nat);
            match r.0 {
                None => triple_views(final(out)@) == triple_views(old(out)@) + here.0 && r.1 == cur
                    && here.1 == cur,
                Some(np) => pos < np <= inner.len() && cur <= r.1 <= cur + (np - pos) && triple_views(
                    final(out)@,
                ) + member_scan(subject@, inner@, np as int, base@, ns.entries(), r.1 as nat).0
                    == triple_views(old(out)@) + here.0 && member_scan(
                    subject@,
                    inner@,
                    np as int,
                    base@,
                    ns.entries(),
                    r.1 as nat,
                ).1 == here.1,
            }
        }),
    decreases inner.len() + 1, 1int,
{
    let ghost here = member_scan(subject@, inner@, pos as int, base@, ns.entries(), cur as nat);
    let ghost before = triple_views(out@);
    let p = skip_ascii_ws_exec(inner, pos);
    if p >= inner.len() || inner[p] != '<' {
        assert(triple_views(out@) =~= triple_views(out@) + here.0);
        return (None, cur);
    }
    if at_lit(inner, p, "</") || at_lit(inner, p, "<!--") {
        return (Some(p + 1), cur);
    }
    let name = tag_name_exec(inner, p);
    let end = match tag_element_end(inner, p, &name) {
        None => {
            assert(triple_views(out@) =~= triple_views(out@) + here.0);
            return (None, cur);
        },
        Some(e) => e,
    };
    if is_builtin_prefix_exec(&qname_prefix_exec(&name)) {
        return (Some(end), cur);
    }
    let prop = match expand_qname_exec(&name, ns) {
        None => {
            return (Some(end), cur);
        },
        Some(pr) => pr,
    };
    let pb = slice(inner, p, end);
    let poe = first_gt_or_zero_exec(&pb);
    let popen = slice(&pb, 0, poe + 1);
    match object_iri_exec(&popen, &pb, &name, base) {
        Some(obj) => {
            push_triple(out, subject, &prop, &obj);
            proof {
                let rest = member_scan(subject@, inner@, end as int, base@, ns.entries(), cur as nat);
                assert(triple_views(out@) + rest.0 =~= before + here.0);
            }
            (Some(end), cur)
        },
        None => match thing_child_exec(&pb, &name) {
            None => (Some(end), cur),
            Some(tb) => {
                let a1 = cur + 1;
                let mut node = chars_of("anon");
                push_decimal(&mut node, a1);
                let object = blank_iri_exec(base, &node);
                push_triple(out, subject, &prop, &object);
                let ghost after_head = triple_views(out@);
                let next_anon = nested_exec(&tb, &object, base, ns, a1, end - p, out);
                proof {
                    let nested = nested_assertions(tb@, object@, base@, ns.entries(), a1 as nat, end - p);
                    assert(triple_views(out@) =~= after_head + nested.0);
                    let rest = member_scan(subject@, inner@, end as int, base@, ns.entries(), nested.1);
                    assert(triple_views(out@) + rest.0 =~= before + here.0);
                }
                (Some(end), next_anon)
            },
        },
    }
}

fn member_scan_exec(
    subject: &Vec<char>,
    inner: &Vec<char>,
    base: &Vec<char>,
    ns: &Namespaces,
    anon: usize,
    out: &mut Vec<(String, String, String)>,
) -> (new_anon: usize)
    requires
        ns.wf(),
        anon + inner.len() <= usize::MAX,
    ensures
        triple_views(final(out)@) == triple_views(old(out)@) + member_scan(
            subject@,
            inner@,
            0,
            base@,
            ns.entries(),
            anon as nat,
        ).0,
        new_anon == member_scan(subject@, inner@, 0, base@, ns.entries(), anon as nat).1,
        anon <= new_anon <= anon + inner.len(),
    decreases inner.len() + 1, 2int,
{
    let ghost start = triple_views(out@);
    let ghost total = member_scan(subject@, inner@, 0, base@, ns.entries(), anon as nat);
    let mut pos: usize = 0;
    let mut cur: usize = anon;
    while pos < inner.len()
        invariant
            ns.wf(),
            pos <= inner.len(),
            anon <= cur <= anon + pos,
            anon + inner.len() <= usize::MAX,
            start == triple_views(old(out)@),
            total == member_scan(subject@, inner@, 0, base@, ns.entries(), anon as nat),
            triple_views(out@) + member_scan(
                subject@,
                inner@,
                pos as int,
                base@,
                ns.entries(),
                cur as nat,
            ).0 == start + total.0,
            member_scan(subject@, inner@, pos as int, base@, ns.entries(), cur as nat).1
                == total.1,
        decreases inner.len() - pos,
    {
        let (next, c2) = member_step(subject, inner, base, ns, pos, cur, out);
        match next {
            None => {
                return cur;
            },
            Some(np) => {
                pos = np;
                cur = c2;
            },
        }
    }
    proof {
        let here = member_scan(subject@, inner@, pos as int, base@, ns.entries(), cur as nat);
        assert(triple_views(out@) =~= triple_views(out@) + here.0);
    }
    cur
}

} // verus!

verus! {

/// The assertions of one individual element; an
/// `owl:Thing` without a name is named `{base}#_thing1`.
pub open spec fn block_assertions(
    block: Seq<char>,
    open_tag: Seq<char>,
    base: Seq<char>,
    ns: Seq<(Seq<char>, Seq<char>)>,
) -> Seq<TripleView> {
    match find_from(block, 0, seq!['>']) {
        None => Seq::empty(),
        Some(oe) => {
            let (sub, anon0) = match about_or_id(block.subrange(0, oe + 1), base) {
                Some(i) => (Some(resolve_iri(i, base)), 0nat),
                None => if open_tag == "owl:Thing"@ {
                    (Some(blank_iri(base, "thing1"@)), 1nat)
                } else {
                    (None, 0nat)
                },
            };
            match subject_and_inner(sub, block, open_tag, base) {
                None => Seq::empty(),
                Some((sj, inner)) => member_scan(sj, inner, 0, base, ns, anon0).0,
            }
        },
    }
}

fn block_assertions_exec(
    block: &Vec<char>,
    open_tag: &Vec<char>,
    base: &Vec<char>,
    ns: &Namespaces,
    out: &mut Vec<(String, String, String)>,
)
    requires
        ns.wf(),
    ensures
        triple_views(final(out)@) == triple_views(old(out)@) + block_assertions(
            block@,
            open_tag@,
            base@,
            ns.entries(),
        ),
{
    proof {
        reveal_strlit(">");
        assert(">"@ =~= seq!['>']);
    }
    let ghost before = triple_views(out@);
    let oe = match find_lit(block, 0, ">") {
        None => {
            assert(triple_views(out@) =~= before + Seq::<TripleView>::empty());
            return;
        },
        Some(o) => o,
    };
    proof {
        lemma_find_from_bounds(block@, 0, seq!['>']);
        assert(oe < block.len());
    }
    let (sub, anon0): (Option<Vec<char>>, usize) = match about_or_id_exec(
        &slice(block, 0, oe + 1),
        base,
    ) {
        Some(i) => (Some(resolve_relative_iri(&i, base)), 0),
        None => if crate::xml::vec_eq(open_tag, &chars_of("owl:Thing")) {
            (Some(blank_iri_exec(base, &chars_of("thing1"))), 1)
        } else {
            (None, 0)
        },
    };
    match subject_and_inner_exec(sub, block, open_tag, base) {
        None => {
            assert(triple_views(out@) =~= before + Seq::<TripleView>::empty());
        },
        Some((sj, inner)) => {
            let _ = member_scan_exec(&sj, &inner, base, ns, anon0, out);
        },
    }
}

/// The first individual element at or after `pos`: `<rdf:Description`,
/// `<owl:NamedIndividual` or `<owl:Thing`, whichever comes first.
pub open spec fn next_subject_element(s: Seq<char>, pos: int) -> Option<int> {
    let a = find_from(s, pos, "<rdf:Description"@);
    let b = find_from(s, pos, "<owl:NamedIndividual"@);
    let c = find_from(s, pos, "<owl:Thing"@);
    let ab = match (a, b) {
        (Some(x), Some(y)) => Some(if x <= y { x } else { y }),
        (Some(x), None) => Some(x),
        (None, y) => y,
    };
    match (ab, c) {
        (Some(x), Some(y)) => Some(if x <= y { x } else { y }),
        (Some(x), None) => Some(x),
        (None, y) => y,
    }
}

/// The element name of the individual element at `start`.
pub open spec fn subject_tag(s: Seq<char>, start: int) -> Seq<char> {
    if matches_at(s, start, "<owl:NamedIndividual"@) {
        "owl:NamedIndividual"@
    } else if matches_at(s, start, "<owl:Thing"@) {
        "owl:Thing"@
    } else {
        "rdf:Description"@
    }
}

/// The walk of `collect_object_property_assertions` from `pos`.
pub open spec fn object_assertion_scan(
    s: Seq<char>,
    base: Seq<char>,
    ns: Seq<(Seq<char>, Seq<char>)>,
    pos: int,
) -> Seq<TripleView>
    decreases s.len() - pos,
{
    if pos < 0 || pos >= s.len() {
        Seq::empty()
    } else {
        match next_subject_element(s, pos) {
            None => Seq::empty(),
            Some(st) => if st < pos || st >= s.len() {
                Seq::empty()
            } else {
                let tag = subject_tag(s, st);
                match general_block_end(s, st, tag, close_of(tag)) {
                    None => Seq::empty(),
                    Some(end) => if end <= st || end > s.len() {
                        Seq::empty()
                    } else {
                        block_assertions(s.subrange(st, end), tag, base, ns)
                            + object_assertion_scan(s, base, ns, end)
                    },
                }
            },
        }
    }
}

/// `collect_object_property_assertions`: the object property assertions that the individual
/// elements of the document make, in order.
pub open spec fn object_property_assertions(s: Seq<char>) -> Seq<TripleView> {
    object_assertion_scan(s, xml_base(s), xmlns_of(s), 0)
}

fn min_opt(a: Option<usize>, b: Option<usize>) -> (r: Option<usize>)
    ensures
        r == match (a, b) {
            (Some(x), Some(y)) => Some(if x <= y { x } else { y }),
            (Some(x), None) => Some(x),
            (None, y) => y,
        },
{
    match (a, b) {
        (Some(x), Some(y)) => Some(if x <= y { x } else { y }),
        (Some(x), None) => Some(x),
        (None, y) => y,
    }
}

/// One step of the walk of `collect_object_property_assertions` at `pos`: the assertions of
/// the next individual element, and where the walk goes on, if anywhere.
#[verifier::spinoff_prover]
fn object_assertion_step(
    s: &Vec<char>,
    base: &Vec<char>,
    ns: &Namespaces,
    pos: usize,
    out: &mut Vec<(String, String, String)>,
) -> (r: Option<usize>)
    requires
        ns.wf(),
        pos < s.len(),
    ensures
        match r {
            None => triple_views(final(out)@) == triple_views(old(out)@) + object_assertion_scan(
                s@,
                base@,
                ns.entries(),
                pos as int,
            ),
            Some(np) => pos < np <= s.len() && triple_views(final(out)@) + object_assertion_scan(
                s@,
                base@,
                ns.entries(),
                np as int,
            ) == triple_views(old(out)@) + object_assertion_scan(
                s@,
                base@,
                ns.entries(),
                pos as int,
            ),
        },
{
    let ghost before = triple_views(out@);
    let a = find_lit(s, pos, "<rdf:Description");
    let b = find_lit(s, pos, "<owl:NamedIndividual");
    let c = find_lit(s, pos, "<owl:Thing");
    proof {
        lemma_find_from_bounds(s@, pos as int, "<rdf:Description"@);
        lemma_find_from_bounds(s@, pos as int, "<owl:NamedIndividual"@);
        lemma_find_from_bounds(s@, pos as int, "<owl:Thing"@);
    }
    let st = match min_opt(min_opt(a, b), c) {
        None => {
            assert(triple_views(out@) =~= before + Seq::<TripleView>::empty());
            return None;
        },
        Some(st) => st,
    };
    if st >= s.len() {
        assert(triple_views(out@) =~= before + Seq::<TripleView>::empty());
        return None;
    }
    let tag = if at_lit(s, st, "<owl:NamedIndividual") {
        chars_of("owl:NamedIndividual")
    } else if at_lit(s, st, "<owl:Thing") {
        chars_of("owl:Thing")
    } else {
        chars_of("rdf:Description")
    };
    let (_, close) = open_close(&tag);
    let end = match general_block_end_exec(s, st, &tag, &close) {
        None => {
            assert(triple_views(out@) =~= before + Seq::<TripleView>::empty());
            return None;
        },
        Some(e) => e,
    };
    if end <= st || end > s.len() {
        assert(triple_views(out@) =~= before + Seq::<TripleView>::empty());
        return None;
    }
    let block = slice(s, st, end);
    block_assertions_exec(&block, &tag, base, ns, out);
    proof {
        assert(triple_views(out@) + object_assertion_scan(s@, base@, ns.entries(), end as int)
            =~= before + object_assertion_scan(s@, base@, ns.entries(), pos as int));
    }
    Some(end)
}

/// Collect the object property assertions `(subject, property, object)` that the individual
/// elements of an RDF/XML document make.
pub fn collect_object_property_assertions(rdf: &str) -> (r: Vec<(String, String, String)>)
    ensures
        triple_views(r@) == object_property_assertions(rdf@),
{
    let s = chars_of(rdf);
    let base = parse_xml_base(&s);
    let ns = xmlns_declarations(&s);
    let mut out: Vec<(String, String, String)> = Vec::new();
    let mut pos: usize = 0;
    assert(triple_views(out@) =~= Seq::<TripleView>::empty());
    while pos < s.len()
        invariant
            s@ == rdf@,
            ns.wf(),
            ns.entries() == xmlns_of(s@),
            base@ == xml_base(s@),
            triple_views(out@) + object_assertion_scan(s@, base@, ns.entries(), pos as int)
                == object_property_assertions(s@),
        decreases s.len() - pos,
    {
        match object_assertion_step(&s, &base, &ns, pos, &mut out) {
            None => {
                return out;
            },
            Some(np) => {
                pos = np;
            },
        }
    }
    assert(triple_views(out@) =~= triple_views(out@) + object_assertion_scan(
        s@,
        base@,
        ns.entries(),
        pos as int,
    ));
    out
}

} // verus!

//! Boolean class expressions written in RDF/XML: members of `rdf:parseType="Collection"`
//! collections and of `rdf:List` chains, and the `intersectionOf` / `unionOf` / `oneOf`
//! expressions built from them.
use vstd::prelude::*;

use crate::ids::views;
use crate::ofn_terms::{entity_ref, ofn_entity_ref};
use crate::restrictions::{object_restriction, object_restriction_chars};
use crate::subclasses::{inline_restriction, inline_restriction_ce_to_ofn};
use crate::text::{chars_of, contains, contains_lit, copy, find, find_from, find_lit, lemma_find_from_bounds, push_all, push_str, slice, starts_with, starts_with_exec, trim, trim_exec, trim_start, trim_start_exec};
use crate::xml::{attribute, element_inner, element_inner_lit, extract_attribute, find_top_level_lit, resolve_iri, resolve_relative_iri, top_level_element};

verus! {

/// A member of a class collection or list as a class expression: what the `rdf:first` inside
/// it gives, if anything; else the class its open tag names by `rdf:about` or `rdf:resource`;
/// else the restriction it holds; else what its `owl:Class` gives (the restriction written in
/// its body, or, for one nested deeper, that element as a member); else a restriction written
/// in its body; else, for an anonymous description, a nominal of the base.
#[verifier::opaque]
pub open spec fn member_ofn(block: Seq<char>, base: Seq<char>, dt_props: Seq<Seq<char>>) -> Option<
    Seq<char>,
>
    decreases block.len(),
{
    let first = if contains(block, "<rdf:first"@) {
        let fi = trim(element_inner(block, "rdf:first"@));
        if fi.len() < block.len() {
            member_ofn(fi, base, dt_props)
        } else {
            None
        }
    } else {
        None
    };
    if first is Some {
        first
    } else {
        match find_from(block, 0, seq!['>']) {
            None => None,
            Some(oe) => {
                let open = block.subrange(0, oe + 1);
                match attribute(open, "rdf:about"@) {
                    Some(a) => Some(entity_ref(resolve_iri(a, base))),
                    None => match attribute(open, "rdf:resource"@) {
                        Some(r) => Some(entity_ref(resolve_iri(r, base))),
                        None => if contains(block, "<owl:Restriction"@) {
                            object_restriction(block, base, dt_props)
                        } else {
                            let from_class = if starts_with(trim_start(block), "<owl:Class"@) {
                                inline_restriction(
                                    trim(element_inner(block, "owl:Class"@)),
                                    base,
                                    dt_props,
                                )
                            } else if contains(block, "<owl:Class"@) {
                                match top_level_element(block, "owl:Class"@) {
                                    Some((a, e)) => if 0 <= a <= e <= block.len() && e - a
                                        < block.len() {
                                        member_ofn(block.subrange(a, e), base, dt_props)
                                    } else {
                                        None
                                    },
                                    None => None,
                                }
                            } else {
                                None
                            };
                            if from_class is Some {
                                from_class
                            } else if contains(block, "owl:onProperty"@) {
                                inline_restriction(block, base, dt_props)
                            } else if starts_with(trim_start(block), "<rdf:Description"@) {
                                Some(entity_ref(base + "#_:nominal0"@))
                            } else {
                                None
                            }
                        },
                    },
                }
            },
        }
    }
}

/// A collection or list member as a class expression, as `member_ofn` says.
pub fn member_block_to_ofn(block: &Vec<char>, base: &Vec<char>, dt_props: &Vec<Vec<char>>) -> (r:
    Option<Vec<char>>)
    ensures
        match r {
            Some(v) => member_ofn(block@, base@, views(dt_props@)) == Some(v@),
            None => member_ofn(block@, base@, views(dt_props@)) is None,
        },
    decreases block.len(),
{
    proof {
        reveal(member_ofn);
    }
    if contains_lit(block, "<rdf:first") {
        let fi = trim_exec(&element_inner_lit(block, "rdf:first"));
        if fi.len() < block.len() {
            if let Some(o) = member_block_to_ofn(&fi, base, dt_props) {
                return Some(o);
            }
        }
    }
    proof {
        reveal_strlit(">");
        assert(">"@ =~= seq!['>']);
    }
    let oe = match find_lit(block, 0, ">") {
        None => return None,
        Some(o) => o,
    };
    proof {
        lemma_find_from_bounds(block@, 0, seq!['>']);
        assert(oe < block.len());
    }
    let open = slice(block, 0, oe + 1);
    if let Some(a) = extract_attribute(&open, "rdf:about") {
        return Some(ofn_entity_ref(&resolve_relative_iri(&a, base)));
    }
    if let Some(r) = extract_attribute(&open, "rdf:resource") {
        return Some(ofn_entity_ref(&resolve_relative_iri(&r, base)));
    }
    if contains_lit(block, "<owl:Restriction") {
        return object_restriction_chars(block, base, dt_props);
    }
    let ts = trim_start_exec(block);
    if starts_with_exec(&ts, &chars_of("<owl:Class")) {
        let inner = trim_exec(&element_inner_lit(block, "owl:Class"));
        if let Some(o) = inline_restriction_ce_to_ofn(&inner, base, dt_props) {
            return Some(o);
        }
    } else if contains_lit(block, "<owl:Class") {
        match find_top_level_lit(block, "owl:Class") {
            Some((a, e)) => {
                if e - a < block.len() {
                    let class_block = slice(block, a, e);
                    if let Some(o) = member_block_to_ofn(&class_block, base, dt_props) {
                        return Some(o);
                    }
                }
            },
            None => {},
        }
    }
    if contains_lit(block, "owl:onProperty") {
        return inline_restriction_ce_to_ofn(block, base, dt_props);
    }
    if starts_with_exec(&ts, &chars_of("<rdf:Description")) {
        let mut nominal = copy(base);
        push_str(&mut nominal, "#_:nominal0");
        return Some(ofn_entity_ref(&nominal));
    }
    None
}

} // verus!

verus! {

/// The members of a collection body from `pos` on: whitespace is skipped, and each element
/// (ended as `tagged_end` ends one of its name) gives its class expression, if any; the walk
/// stops at text or at an element that does not end.
pub open spec fn children_scan(inner: Seq<char>, base: Seq<char>, dt_props: Seq<Seq<char>>, pos: int) -> Seq<
    Seq<char>,
>
    decreases inner.len() - pos,
{
    if pos < 0 || pos >= inner.len() {
        Seq::empty()
    } else {
        let p = crate::xml::skip_ascii_ws(inner, pos);
        if p < pos || p >= inner.len() || inner[p] != '<' {
            Seq::empty()
        } else {
            match crate::xml::tagged_end(inner, p, crate::xml::tag_name_at(inner, p)) {
                None => Seq::empty(),
                Some(end) => if end <= p || end > inner.len() {
                    Seq::empty()
                } else {
                    crate::scan::opt_seq(member_ofn(inner.subrange(p, end), base, dt_props))
                        + children_scan(inner, base, dt_props, end)
                },
            }
        }
    }
}

/// The start and end of the body of a collection element: after its first `>` (or from the
/// start), up to the last close tag of its own name (or to the end).
pub open spec fn collection_body(cb: Seq<char>) -> (int, int) {
    let oe = match find_from(cb, 0, seq!['>']) {
        Some(o) => o + 1,
        None => 0,
    };
    let cs = match crate::text::rfind(cb, seq!['>']) {
        None => cb.len() as int,
        Some(_) => match crate::xml::element_name(cb) {
            None => cb.len() as int,
            Some(tag) => match crate::text::rfind(cb, crate::xml::close_of(tag)) {
                Some(c) => c,
                None => cb.len() as int,
            },
        },
    };
    (oe, cs)
}

/// The members of an `rdf:parseType="Collection"` element, in order.
pub open spec fn collection_children(cb: Seq<char>, base: Seq<char>, dt_props: Seq<Seq<char>>) -> Seq<
    Seq<char>,
> {
    let (oe, cs) = collection_body(cb);
    if oe > cs {
        Seq::empty()
    } else {
        children_scan(cb.subrange(oe, cs), base, dt_props, 0)
    }
}

/// The members of a collection element, as `collection_children` says.
pub fn parse_collection_children_ofn(cb: &Vec<char>, base: &Vec<char>, dt_props: &Vec<Vec<char>>) -> (r:
    Vec<Vec<char>>)
    ensures
        views(r@) == collection_children(cb@, base@, views(dt_props@)),
{
    let gt: Vec<char> = vec!['>'];
    assert(gt@ =~= seq!['>']);
    let cb_len = cb.len();
    let oe = match find(cb, 0, &gt) {
        Some(o) => {
            proof {
                lemma_find_from_bounds(cb@, 0, gt@);
                assert(find_from(cb@, 0, gt@) == Some(o as int));
                assert(crate::text::matches_at(cb@, o as int, gt@));
                assert(gt@.len() == 1);
                assert(o + 1 <= cb@.len());
            }
            o + 1
        },
        None => 0,
    };
    let cs = match crate::text::rfind_exec(cb, &gt) {
        None => cb.len(),
        Some(_) => match crate::xml::element_name_exec(cb) {
            None => cb.len(),
            Some(tag) => {
                let (_, close) = crate::xml::open_close(&tag);
                match crate::text::rfind_exec(cb, &close) {
                    Some(c) => {
                        proof {
                            crate::text::lemma_rfind_bounds(cb@, close@);
                        }
                        c
                    },
                    None => cb.len(),
                }
            },
        },
    };
    let mut out: Vec<Vec<char>> = Vec::new();
    if oe > cs {
        assert(views(out@) =~= Seq::<Seq<char>>::empty());
        return out;
    }
    let inner = slice(cb, oe, cs);
    let mut pos: usize = 0;
    assert(views(out@) =~= Seq::<Seq<char>>::empty());
    assert(collection_children(cb@, base@, views(dt_props@)) == children_scan(
        inner@,
        base@,
        views(dt_props@),
        0,
    ));
    while pos < inner.len()
        invariant
            collection_children(cb@, base@, views(dt_props@)) == children_scan(
                inner@,
                base@,
                views(dt_props@),
                0,
            ),
            views(out@) + children_scan(inner@, base@, views(dt_props@), pos as int)
                == children_scan(inner@, base@, views(dt_props@), 0),
        decreases inner.len() - pos,
    {
        let ghost before = views(out@);
        let p = crate::xml::skip_ascii_ws_exec(&inner, pos);
        if p >= inner.len() || inner[p] != '<' {
            assert(before =~= before + Seq::<Seq<char>>::empty());
            return out;
        }
        let name = crate::xml::tag_name_exec(&inner, p);
        let end = match crate::xml::tag_element_end(&inner, p, &name) {
            None => {
                assert(before =~= before + Seq::<Seq<char>>::empty());
                return out;
            },
            Some(e) => e,
        };
        let member = slice(&inner, p, end);
        match member_block_to_ofn(&member, base, dt_props) {
            Some(o) => {
                let ghost ov = o@;
                out.push(o);
                assert(views(out@) =~= before + seq![ov]);
            },
            None => {
                assert(views(out@) =~= before + Seq::<Seq<char>>::empty());
            },
        }
        assert(views(out@) + children_scan(inner@, base@, views(dt_props@), end as int) =~= before
            + children_scan(inner@, base@, views(dt_props@), pos as int));
        pos = end;
    }
    let ghost fin = views(out@);
    assert(fin =~= fin + children_scan(inner@, base@, views(dt_props@), pos as int));
    out
}

} // verus!

verus! {

/// The list inside an operator element: its `owl:unionOf` body (or the element itself), and
/// in that the `rdf:List` element's body (or what holds it).
pub open spec fn list_content(op_block: Seq<char>) -> Seq<char> {
    let inner = element_inner(op_block, "owl:unionOf"@);
    let content = if inner.len() == 0 {
        op_block
    } else {
        inner
    };
    let list_block = match top_level_element(content, "rdf:List"@) {
        Some((a, e)) => content.subrange(a, e),
        None => content,
    };
    let list_inner = element_inner(list_block, "rdf:List"@);
    if list_inner.len() == 0 {
        list_block
    } else {
        list_inner
    }
}

fn list_content_exec(op_block: &Vec<char>) -> (r: Vec<char>)
    ensures
        r@ == list_content(op_block@),
{
    let inner = element_inner_lit(op_block, "owl:unionOf");
    let content = if inner.len() == 0 {
        copy(op_block)
    } else {
        inner
    };
    let list_block = match find_top_level_lit(&content, "rdf:List") {
        Some((a, e)) => slice(&content, a, e),
        None => content,
    };
    let list_inner = element_inner_lit(&list_block, "rdf:List");
    if list_inner.len() == 0 {
        list_block
    } else {
        list_inner
    }
}

/// Whether an `rdf:rest` element ends its list: it mentions `rdf:nil` or `#nil`, or its
/// `rdf:resource` holds `nil`.
pub open spec fn is_nil_rest(rest_elem: Seq<char>) -> bool {
    contains(rest_elem, "rdf:nil"@) || contains(rest_elem, "#nil"@) || match attribute(
        rest_elem,
        "rdf:resource"@,
    ) {
        Some(r) => contains(r, "nil"@),
        None => false,
    }
}

fn is_nil_rest_exec(rest_elem: &Vec<char>) -> (b: bool)
    ensures
        b == is_nil_rest(rest_elem@),
{
    contains_lit(rest_elem, "rdf:nil") || contains_lit(rest_elem, "#nil") || match extract_attribute(
        rest_elem,
        "rdf:resource",
    ) {
        Some(r) => contains_lit(&r, "nil"),
        None => false,
    }
}

/// The members of a list chain: each level's top-level `rdf:first` gives its member, if any,
/// and its top-level `rdf:rest` goes on to the next level until one that ends the list.
/// Nothing where a level has no `rdf:rest`, or where the chain would repeat a level.
pub open spec fn list_walk(rest_block: Seq<char>, base: Seq<char>, dt_props: Seq<Seq<char>>) -> Option<
    Seq<Seq<char>>,
>
    decreases rest_block.len(),
{
    let here = match top_level_element(rest_block, "rdf:first"@) {
        Some((a, e)) => crate::scan::opt_seq(
            member_ofn(rest_block.subrange(a, e), base, dt_props),
        ),
        None => Seq::empty(),
    };
    match top_level_element(rest_block, "rdf:rest"@) {
        None => None,
        Some((a, e)) => if !(0 <= a <= e <= rest_block.len()) {
            None
        } else {
            let rest_elem = rest_block.subrange(a, e);
            if is_nil_rest(rest_elem) {
                Some(here)
            } else if e - a < rest_block.len() {
                match list_walk(rest_elem, base, dt_props) {
                    Some(m) => Some(here + m),
                    None => None,
                }
            } else {
                None
            }
        },
    }
}

/// The members of the `rdf:List` an operator element holds; nothing where there are none.
pub open spec fn list_members(op_block: Seq<char>, base: Seq<char>, dt_props: Seq<Seq<char>>) -> Option<
    Seq<Seq<char>>,
> {
    match list_walk(list_content(op_block), base, dt_props) {
        Some(m) => if m.len() == 0 {
            None
        } else {
            Some(m)
        },
        None => None,
    }
}

/// The members of the `rdf:List` an operator element holds, as `list_members` says.
pub fn parse_rdf_list_members_ofn(op_block: &Vec<char>, base: &Vec<char>, dt_props: &Vec<Vec<char>>) -> (r:
    Option<Vec<Vec<char>>>)
    ensures
        match r {
            Some(v) => list_members(op_block@, base@, views(dt_props@)) == Some(views(v@)),
            None => list_members(op_block@, base@, views(dt_props@)) is None,
        },
{
    let start = list_content_exec(op_block);
    let ghost dv = views(dt_props@);
    let mut cur = copy(&start);
    let mut members: Vec<Vec<char>> = Vec::new();
    assert(views(members@) =~= Seq::<Seq<char>>::empty());
    assert(list_walk(start@, base@, dv) == match list_walk(cur@, base@, dv) {
        Some(m) => Some(views(members@) + m),
        None => None::<Seq<Seq<char>>>,
    }) by {
        match list_walk(cur@, base@, dv) {
            Some(m) => {
                assert(views(members@) + m =~= m);
            },
            None => {},
        }
    }
    loop
        invariant
            dv == views(dt_props@),
            start@ == list_content(op_block@),
            list_walk(start@, base@, dv) == match list_walk(cur@, base@, dv) {
                Some(m) => Some(views(members@) + m),
                None => None::<Seq<Seq<char>>>,
            },
        decreases cur.len(),
    {
        let ghost before = views(members@);
        let mut here: Vec<Vec<char>> = Vec::new();
        match find_top_level_lit(&cur, "rdf:first") {
            Some((a, e)) => {
                let fb = slice(&cur, a, e);
                match member_block_to_ofn(&fb, base, dt_props) {
                    Some(o) => here.push(o),
                    None => {},
                }
            },
            None => {},
        }
        let ghost hv = views(here@);
        assert(hv == match top_level_element(cur@, "rdf:first"@) {
            Some((a, e)) => crate::scan::opt_seq(member_ofn(cur@.subrange(a, e), base@, dv)),
            None => Seq::<Seq<char>>::empty(),
        }) by {
            match top_level_element(cur@, "rdf:first"@) {
                Some((a, e)) => {
                    match member_ofn(cur@.subrange(a, e), base@, dv) {
                        Some(o) => {
                            assert(hv =~= seq![o]);
                        },
                        None => {
                            assert(hv =~= Seq::<Seq<char>>::empty());
                        },
                    }
                },
                None => {
                    assert(hv =~= Seq::<Seq<char>>::empty());
                },
            }
        }
        let (a, e) = match find_top_level_lit(&cur, "rdf:rest") {
            None => return None,
            Some(b) => b,
        };
        let rest_elem = slice(&cur, a, e);
        if is_nil_rest_exec(&rest_elem) {
            members.append(&mut here);
            assert(views(members@) =~= before + hv);
            if members.len() == 0 {
                return None;
            }
            return Some(members);
        }
        if e - a >= cur.len() {
            return None;
        }
        members.append(&mut here);
        assert(views(members@) =~= before + hv);
        proof {
            match list_walk(rest_elem@, base@, dv) {
                Some(m) => {
                    assert(views(members@) + m =~= before + (hv + m));
                },
                None => {},
            }
        }
        cur = rest_elem;
    }
}

} // verus!

verus! {

/// The members a list node description holds: its `rdf:first` (a named resource, or a member
/// element), then after its `rdf:rest` a collection's members, or the member that the
/// `rdf:rest` body describes (unless it names the rest by a resource).  Nothing where there is
/// no top-level `rdf:rest` or no member.
pub open spec fn list_description(inner: Seq<char>, base: Seq<char>, dt_props: Seq<Seq<char>>) -> Option<
    Seq<Seq<char>>,
> {
    let first: Seq<Seq<char>> = match crate::restrictions::property_resource(
        inner,
        "rdf:first"@,
        base,
    ) {
        Some(f) => seq![entity_ref(f)],
        None => match top_level_element(inner, "rdf:first"@) {
            Some((a, e)) => crate::scan::opt_seq(member_ofn(inner.subrange(a, e), base, dt_props)),
            None => Seq::empty(),
        },
    };
    match top_level_element(inner, "rdf:rest"@) {
        None => None,
        Some((a, e)) => {
            let rest_block = inner.subrange(a, e);
            let more: Seq<Seq<char>> = if contains(rest_block, "parseType=\"Collection\""@)
                || contains(rest_block, "parseType='Collection'"@) {
                collection_children(rest_block, base, dt_props)
            } else if crate::restrictions::property_resource(rest_block, "rdf:rest"@, base) is Some {
                Seq::empty()
            } else if contains(rest_block, "rdf:Description"@) || contains(
                rest_block,
                "owl:Class"@,
            ) {
                crate::scan::opt_seq(
                    member_ofn(trim(element_inner(rest_block, "rdf:rest"@)), base, dt_props),
                )
            } else {
                Seq::empty()
            };
            if first.len() + more.len() == 0 {
                None
            } else {
                Some(first + more)
            }
        },
    }
}

fn opt_vec(o: Option<Vec<char>>) -> (r: Vec<Vec<char>>)
    ensures
        views(r@) == crate::scan::opt_seq(
            match o {
                Some(v) => Some(v@),
                None => None::<Seq<char>>,
            },
        ),
{
    let mut r: Vec<Vec<char>> = Vec::new();
    match o {
        Some(v) => {
            let ghost vv = v@;
            r.push(v);
            assert(views(r@) =~= seq![vv]);
        },
        None => {
            assert(views(r@) =~= Seq::<Seq<char>>::empty());
        },
    }
    r
}

/// The members of a list node description, as `list_description` says.
pub fn parse_rdf_list_description(inner: &Vec<char>, base: &Vec<char>, dt_props: &Vec<Vec<char>>) -> (r:
    Option<Vec<Vec<char>>>)
    ensures
        match r {
            Some(v) => list_description(inner@, base@, views(dt_props@)) == Some(views(v@)),
            None => list_description(inner@, base@, views(dt_props@)) is None,
        },
{
    let mut first: Vec<Vec<char>> = match crate::restrictions::extract_property_resource(
        inner,
        "rdf:first",
        base,
    ) {
        Some(f) => {
            let mut v: Vec<Vec<char>> = Vec::new();
            let fr = ofn_entity_ref(&f);
            let ghost fv = fr@;
            v.push(fr);
            assert(views(v@) =~= seq![fv]);
            v
        },
        None => match find_top_level_lit(inner, "rdf:first") {
            Some((a, e)) => opt_vec(member_block_to_ofn(&slice(inner, a, e), base, dt_props)),
            None => {
                let v: Vec<Vec<char>> = Vec::new();
                assert(views(v@) =~= Seq::<Seq<char>>::empty());
                v
            },
        },
    };
    let (a, e) = match find_top_level_lit(inner, "rdf:rest") {
        None => return None,
        Some(b) => b,
    };
    let rest_block = slice(inner, a, e);
    let mut more: Vec<Vec<char>> = if contains_lit(&rest_block, "parseType=\"Collection\"")
        || contains_lit(&rest_block, "parseType='Collection'") {
        parse_collection_children_ofn(&rest_block, base, dt_props)
    } else if crate::restrictions::extract_property_resource(&rest_block, "rdf:rest", base).is_some() {
        let v: Vec<Vec<char>> = Vec::new();
        assert(views(v@) =~= Seq::<Seq<char>>::empty());
        v
    } else if contains_lit(&rest_block, "rdf:Description") || contains_lit(&rest_block, "owl:Class") {
        let ri = trim_exec(&element_inner_lit(&rest_block, "rdf:rest"));
        opt_vec(member_block_to_ofn(&ri, base, dt_props))
    } else {
        let v: Vec<Vec<char>> = Vec::new();
        assert(views(v@) =~= Seq::<Seq<char>>::empty());
        v
    };
    let ghost f0 = views(first@);
    let ghost m0 = views(more@);
    first.append(&mut more);
    assert(views(first@) =~= f0 + m0);
    if first.len() == 0 {
        None
    } else {
        Some(first)
    }
}

/// A list node: the `rdf:nodeID` of a description and the members it lists.
pub struct NodeList {
    /// The node's identifier.
    pub node: Vec<char>,
    /// The class expressions of its members.
    pub members: Vec<Vec<char>>,
}

impl View for NodeList {
    type V = (Seq<char>, Seq<Seq<char>>);

    open spec fn view(&self) -> (Seq<char>, Seq<Seq<char>>) {
        (self.node@, views(self.members@))
    }
}

/// A description with an `rdf:nodeID` whose body holds `rdf:first`: the node and its members.
pub open spec fn node_list(block: Seq<char>, base: Seq<char>, dt_props: Seq<Seq<char>>) -> Option<
    (Seq<char>, Seq<Seq<char>>),
> {
    if block.len() == 0 {
        None
    } else {
        let oe = crate::descriptions::first_gt_or_zero(block);
        match attribute(block.subrange(0, oe + 1), "rdf:nodeID"@) {
            None => None,
            Some(node) => {
                let cs = match crate::text::rfind(block, "</rdf:Description>"@) {
                    Some(c) => c,
                    None => block.len() as int,
                };
                if cs < oe + 1 {
                    None
                } else {
                    let inner = block.subrange(oe + 1, cs);
                    if !contains(inner, "rdf:first"@) {
                        None
                    } else {
                        match list_description(inner, base, dt_props) {
                            Some(m) => Some((node, m)),
                            None => None,
                        }
                    }
                }
            },
        }
    }
}

fn node_list_exec(block: &Vec<char>, base: &Vec<char>, dt_props: &Vec<Vec<char>>) -> (r: Option<
    NodeList,
>)
    ensures
        match r {
            Some(n) => node_list(block@, base@, views(dt_props@)) == Some(n@),
            None => node_list(block@, base@, views(dt_props@)) is None,
        },
{
    if block.len() == 0 {
        return None;
    }
    let oe = crate::descriptions::first_gt_or_zero_exec(block);
    let node = match extract_attribute(&slice(block, 0, oe + 1), "rdf:nodeID") {
        None => return None,
        Some(n) => n,
    };
    let cs = match crate::text::rfind_lit(block, "</rdf:Description>") {
        Some(c) => {
            proof {
                crate::text::lemma_rfind_bounds(block@, "</rdf:Description>"@);
            }
            c
        },
        None => block.len(),
    };
    if cs < oe + 1 {
        return None;
    }
    let inner = slice(block, oe + 1, cs);
    if !contains_lit(&inner, "rdf:first") {
        return None;
    }
    match parse_rdf_list_description(&inner, base, dt_props) {
        Some(m) => Some(NodeList { node, members: m }),
        None => None,
    }
}

pub open spec fn node_list_fn(base: Seq<char>, dt_props: Seq<Seq<char>>) -> spec_fn(Seq<char>) -> Option<
    (Seq<char>, Seq<Seq<char>>),
> {
    |b: Seq<char>| node_list(b, base, dt_props)
}

/// The list nodes of the document, in order.
pub open spec fn node_lists(s: Seq<char>, base: Seq<char>, dt_props: Seq<Seq<char>>) -> Seq<
    (Seq<char>, Seq<Seq<char>>),
> {
    crate::scan::element_walk(
        s,
        "rdf:Description"@,
        crate::scan::EndRule::Balanced,
        0,
        node_list_fn(base, dt_props),
    )
}

/// The list nodes of the document, as `node_lists` says.
pub fn build_rdf_collection_node_map(s: &Vec<char>, base: &Vec<char>, dt_props: &Vec<Vec<char>>) -> (r:
    Vec<NodeList>)
    ensures
        r@.map_values(|n: NodeList| n@) == node_lists(s@, base@, views(dt_props@)),
{
    let f = |b: &Vec<char>| -> (r: Option<NodeList>)
        ensures
            match r {
                Some(n) => node_list(b@, base@, views(dt_props@)) == Some(n@),
                None => node_list(b@, base@, views(dt_props@)) is None,
            },
        { node_list_exec(b, base, dt_props) };
    crate::scan::collect_elements(
        s,
        &chars_of("rdf:Description"),
        crate::scan::EndRule::Balanced,
        f,
        Ghost(node_list_fn(base@, views(dt_props@))),
    )
}

/// The members that the last list node named `key` lists.
pub open spec fn node_lookup(nodes: Seq<(Seq<char>, Seq<Seq<char>>)>, key: Seq<char>) -> Option<
    Seq<Seq<char>>,
>
    decreases nodes.len(),
{
    if nodes.len() == 0 {
        None
    } else if nodes.last().0 == key {
        Some(nodes.last().1)
    } else {
        node_lookup(nodes.drop_last(), key)
    }
}

fn node_lookup_exec(nodes: &Vec<NodeList>, key: &Vec<char>) -> (r: Option<Vec<Vec<char>>>)
    ensures
        match r {
            Some(v) => node_lookup(nodes@.map_values(|n: NodeList| n@), key@) == Some(views(v@)),
            None => node_lookup(nodes@.map_values(|n: NodeList| n@), key@) is None,
        },
{
    let ghost nv = nodes@.map_values(|n: NodeList| n@);
    let mut i = nodes.len();
    assert(nv.take(i as int) =~= nv);
    while i > 0
        invariant
            i <= nodes.len(),
            nv == nodes@.map_values(|n: NodeList| n@),
            node_lookup(nv, key@) == node_lookup(nv.take(i as int), key@),
        decreases i,
    {
        let n = &nodes[i - 1];
        assert(nv.take(i as int).last() == n@);
        assert(nv.take(i as int).drop_last() =~= nv.take(i - 1));
        if crate::xml::vec_eq(&n.node, key) {
            let mut out: Vec<Vec<char>> = Vec::new();
            let mut j: usize = 0;
            while j < n.members.len()
                invariant
                    j <= n.members.len(),
                    views(out@) == views(n.members@).take(j as int),
                decreases n.members.len() - j,
            {
                let c = copy(&n.members[j]);
                assert(c@ == views(n.members@)[j as int]);
                let ghost before = views(out@);
                out.push(c);
                assert(views(out@) =~= before.push(c@));
                assert(views(n.members@).take(j + 1) =~= views(n.members@).take(j as int).push(c@));
                j += 1;
            }
            assert(views(n.members@).take(n.members.len() as int) =~= views(n.members@));
            return Some(out);
        }
        i -= 1;
    }
    assert(nv.take(0) =~= Seq::<(Seq<char>, Seq<Seq<char>>)>::empty());
    None
}

/// The members an operator element lists: a collection's members; the members of the
/// `rdf:List` it holds; the members of the list node it names by `rdf:nodeID`; or the one
/// class it names by `rdf:resource`.
pub open spec fn collection_members(
    op_block: Seq<char>,
    base: Seq<char>,
    dt_props: Seq<Seq<char>>,
    nodes: Seq<(Seq<char>, Seq<Seq<char>>)>,
) -> Option<Seq<Seq<char>>> {
    if contains(op_block, "parseType=\"Collection\""@) || contains(
        op_block,
        "parseType='Collection'"@,
    ) {
        Some(collection_children(op_block, base, dt_props))
    } else if contains(op_block, "rdf:List"@) || contains(op_block, "<rdf:first"@) {
        list_members(op_block, base, dt_props)
    } else {
        match attribute(op_block, "rdf:nodeID"@) {
            Some(node) => node_lookup(nodes, node),
            None => match attribute(op_block, "rdf:resource"@) {
                Some(r) => Some(seq![entity_ref(resolve_iri(r, base))]),
                None => None,
            },
        }
    }
}

pub fn collection_members_ofn(
    op_block: &Vec<char>,
    base: &Vec<char>,
    dt_props: &Vec<Vec<char>>,
    nodes: &Vec<NodeList>,
) -> (r: Option<Vec<Vec<char>>>)
    ensures
        match r {
            Some(v) => collection_members(
                op_block@,
                base@,
                views(dt_props@),
                nodes@.map_values(|n: NodeList| n@),
            ) == Some(views(v@)),
            None => collection_members(
                op_block@,
                base@,
                views(dt_props@),
                nodes@.map_values(|n: NodeList| n@),
            ) is None,
        },
{
    if contains_lit(op_block, "parseType=\"Collection\"") || contains_lit(
        op_block,
        "parseType='Collection'",
    ) {
        return Some(parse_collection_children_ofn(op_block, base, dt_props));
    }
    if contains_lit(op_block, "rdf:List") || contains_lit(op_block, "<rdf:first") {
        return parse_rdf_list_members_ofn(op_block, base, dt_props);
    }
    if let Some(node) = extract_attribute(op_block, "rdf:nodeID") {
        return node_lookup_exec(nodes, &node);
    }
    if let Some(r) = extract_attribute(op_block, "rdf:resource") {
        let mut v: Vec<Vec<char>> = Vec::new();
        let e = ofn_entity_ref(&resolve_relative_iri(&r, base));
        let ghost ev = e@;
        v.push(e);
        assert(views(v@) =~= seq![ev]);
        return Some(v);
    }
    None
}

/// The class expression an operator element `tag` of `inner` builds with `ctor` from its
/// members: the member itself when there is one, nothing when there are none.
pub open spec fn boolean_operator(
    inner: Seq<char>,
    tag: Seq<char>,
    ctor: Seq<char>,
    base: Seq<char>,
    dt_props: Seq<Seq<char>>,
    nodes: Seq<(Seq<char>, Seq<Seq<char>>)>,
) -> Option<Seq<char>> {
    match top_level_element(inner, tag) {
        None => None,
        Some((a, e)) => match collection_members(inner.subrange(a, e), base, dt_props, nodes) {
            None => None,
            Some(m) => if m.len() == 0 {
                None
            } else if m.len() == 1 {
                Some(m[0])
            } else {
                Some(ctor + seq!['('] + crate::restrictions::join_spaced(m) + seq![')'])
            },
        },
    }
}

pub fn boolean_operator_ofn(
    inner: &Vec<char>,
    tag: &str,
    ctor: &str,
    base: &Vec<char>,
    dt_props: &Vec<Vec<char>>,
    nodes: &Vec<NodeList>,
) -> (r: Option<Vec<char>>)
    ensures
        match r {
            Some(v) => boolean_operator(
                inner@,
                tag@,
                ctor@,
                base@,
                views(dt_props@),
                nodes@.map_values(|n: NodeList| n@),
            ) == Some(v@),
            None => boolean_operator(
                inner@,
                tag@,
                ctor@,
                base@,
                views(dt_props@),
                nodes@.map_values(|n: NodeList| n@),
            ) is None,
        },
{
    let (a, e) = match find_top_level_lit(inner, tag) {
        None => return None,
        Some(b) => b,
    };
    let m = match collection_members_ofn(&slice(inner, a, e), base, dt_props, nodes) {
        None => return None,
        Some(m) => m,
    };
    if m.len() == 0 {
        return None;
    }
    if m.len() == 1 {
        assert(views(m@)[0] == m@[0]@);
        return Some(copy(&m[0]));
    }
    let mut out = chars_of(ctor);
    out.push('(');
    push_all(&mut out, &crate::restrictions::join_spaced_exec(&m));
    out.push(')');
    Some(out)
}

/// `ObjectOneOf` of the members of the top-level `owl:oneOf` of `inner`, where it has any.
pub open spec fn one_of(
    inner: Seq<char>,
    base: Seq<char>,
    dt_props: Seq<Seq<char>>,
    nodes: Seq<(Seq<char>, Seq<Seq<char>>)>,
) -> Option<Seq<char>> {
    match top_level_element(inner, "owl:oneOf"@) {
        None => None,
        Some((a, e)) => match collection_members(inner.subrange(a, e), base, dt_props, nodes) {
            None => None,
            Some(m) => if m.len() == 0 {
                None
            } else {
                Some("ObjectOneOf("@ + crate::restrictions::join_spaced(m) + seq![')'])
            },
        },
    }
}

pub fn one_of_ofn(inner: &Vec<char>, base: &Vec<char>, dt_props: &Vec<Vec<char>>, nodes: &Vec<NodeList>) -> (r:
    Option<Vec<char>>)
    ensures
        match r {
            Some(v) => one_of(inner@, base@, views(dt_props@), nodes@.map_values(|n: NodeList| n@))
                == Some(v@),
            None => one_of(inner@, base@, views(dt_props@), nodes@.map_values(|n: NodeList| n@)) is None,
        },
{
    let (a, e) = match find_top_level_lit(inner, "owl:oneOf") {
        None => return None,
        Some(b) => b,
    };
    let m = match collection_members_ofn(&slice(inner, a, e), base, dt_props, nodes) {
        None => return None,
        Some(m) => m,
    };
    if m.len() == 0 {
        return None;
    }
    let mut out = chars_of("ObjectOneOf(");
    push_all(&mut out, &crate::restrictions::join_spaced_exec(&m));
    out.push(')');
    Some(out)
}

} // verus!

verus! {

/// The IRI the `n`th anonymous class gets: `{base}#_:anon{n}`.
pub open spec fn anon_iri(base: Seq<char>, n: nat) -> Seq<char> {
    base + "#_:anon"@ + crate::text::decimal(n)
}

/// The boolean class expression of `inner`: its intersection, else its union, else its
/// enumeration.
pub open spec fn boolean_expression(
    inner: Seq<char>,
    base: Seq<char>,
    dt_props: Seq<Seq<char>>,
    nodes: Seq<(Seq<char>, Seq<Seq<char>>)>,
) -> Option<Seq<char>> {
    match boolean_operator(
        inner,
        "owl:intersectionOf"@,
        "ObjectIntersectionOf"@,
        base,
        dt_props,
        nodes,
    ) {
        Some(c) => Some(c),
        None => match boolean_operator(inner, "owl:unionOf"@, "ObjectUnionOf"@, base, dt_props, nodes) {
            Some(c) => Some(c),
            None => one_of(inner, base, dt_props, nodes),
        },
    }
}

fn boolean_expression_exec(
    inner: &Vec<char>,
    base: &Vec<char>,
    dt_props: &Vec<Vec<char>>,
    nodes: &Vec<NodeList>,
) -> (r: Option<Vec<char>>)
    ensures
        match r {
            Some(v) => boolean_expression(
                inner@,
                base@,
                views(dt_props@),
                nodes@.map_values(|n: NodeList| n@),
            ) == Some(v@),
            None => boolean_expression(
                inner@,
                base@,
                views(dt_props@),
                nodes@.map_values(|n: NodeList| n@),
            ) is None,
        },
{
    if let Some(c) = boolean_operator_ofn(
        inner,
        "owl:intersectionOf",
        "ObjectIntersectionOf",
        base,
        dt_props,
        nodes,
    ) {
        return Some(c);
    }
    if let Some(c) = boolean_operator_ofn(inner, "owl:unionOf", "ObjectUnionOf", base, dt_props, nodes) {
        return Some(c);
    }
    one_of_ofn(inner, base, dt_props, nodes)
}

/// A class element (closed by `close`) as a class and its boolean class expression, and the
/// count of anonymous classes after it: a class its open tag does not name gets the next
/// anonymous IRI, whether or not it has a boolean expression.
pub open spec fn boolean_equivalence(
    block: Seq<char>,
    base: Seq<char>,
    dt_props: Seq<Seq<char>>,
    nodes: Seq<(Seq<char>, Seq<Seq<char>>)>,
    close: Seq<char>,
    counter: nat,
) -> (Option<crate::scan::PairView>, nat) {
    match find_from(block, 0, seq!['>']) {
        None => (None, counter),
        Some(oe) => {
            let (iri, c2) = match crate::reified::about_or_id(block.subrange(0, oe + 1), base) {
                Some(i) => (resolve_iri(i, base), counter),
                None => (anon_iri(base, counter + 1), counter + 1),
            };
            match crate::text::rfind(block, close) {
                None => (None, c2),
                Some(cs) => if cs < oe + 1 {
                    (None, c2)
                } else {
                    (
                        match boolean_expression(block.subrange(oe + 1, cs), base, dt_props, nodes) {
                            Some(c) => Some((iri, c)),
                            None => None,
                        },
                        c2,
                    )
                },
            }
        },
    }
}

/// The class equivalences of the elements named `tag` from `pos` on, with the count of
/// anonymous classes after them.
pub open spec fn boolean_walk(
    s: Seq<char>,
    tag: Seq<char>,
    rule: crate::scan::EndRule,
    close: Seq<char>,
    base: Seq<char>,
    dt_props: Seq<Seq<char>>,
    nodes: Seq<(Seq<char>, Seq<Seq<char>>)>,
    pos: int,
    counter: nat,
) -> (Seq<crate::scan::PairView>, nat)
    decreases s.len() - pos,
{
    if pos < 0 || pos >= s.len() {
        (Seq::empty(), counter)
    } else {
        match find_from(s, pos, crate::xml::open_of(tag)) {
            None => (Seq::empty(), counter),
            Some(st) => if st < pos || st >= s.len() {
                (Seq::empty(), counter)
            } else {
                match crate::scan::kind_end(s, st, tag, rule) {
                    None => (Seq::empty(), counter),
                    Some(end) => if end <= st || end > s.len() {
                        (Seq::empty(), counter)
                    } else {
                        let (p, c2) = boolean_equivalence(
                            s.subrange(st, end),
                            base,
                            dt_props,
                            nodes,
                            close,
                            counter,
                        );
                        let (rest, c3) = boolean_walk(
                            s,
                            tag,
                            rule,
                            close,
                            base,
                            dt_props,
                            nodes,
                            end,
                            c2,
                        );
                        (crate::scan::opt_seq(p) + rest, c3)
                    },
                }
            },
        }
    }
}

/// The classes that boolean expressions define, with the expressions: the descriptions first,
/// then the `owl:Class` elements, anonymous classes numbered across both.
pub open spec fn boolean_equivalences(s: Seq<char>) -> Seq<crate::scan::PairView> {
    let base = crate::xml::xml_base(s);
    let dt = crate::subclasses::declared_datatype_properties(s);
    let nodes = node_lists(s, base, dt);
    let (a, c) = boolean_walk(
        s,
        "rdf:Description"@,
        crate::scan::EndRule::Balanced,
        "</rdf:Description>"@,
        base,
        dt,
        nodes,
        0,
        0,
    );
    let (b, _) = boolean_walk(
        s,
        "owl:Class"@,
        crate::scan::EndRule::Tagged,
        "</owl:Class>"@,
        base,
        dt,
        nodes,
        0,
        c,
    );
    a + b
}

fn boolean_equivalence_exec(
    block: &Vec<char>,
    base: &Vec<char>,
    dt_props: &Vec<Vec<char>>,
    nodes: &Vec<NodeList>,
    close: &Vec<char>,
    counter: u128,
) -> (r: (Option<(String, String)>, u128))
    requires
        counter < u128::MAX,
    ensures
        (match r.0 {
            Some(v) => Some(v@),
            None => None::<crate::scan::PairView>,
        }, r.1 as nat) == boolean_equivalence(
            block@,
            base@,
            views(dt_props@),
            nodes@.map_values(|n: NodeList| n@),
            close@,
            counter as nat,
        ),
        r.1 <= counter + 1,
{
    proof {
        reveal_strlit(">");
        assert(">"@ =~= seq!['>']);
    }
    let oe = match find_lit(block, 0, ">") {
        None => return (None, counter),
        Some(o) => o,
    };
    proof {
        lemma_find_from_bounds(block@, 0, seq!['>']);
        assert(oe < block.len());
    }
    let (iri, c2) = match crate::reified::about_or_id_exec(&slice(block, 0, oe + 1), base) {
        Some(i) => (resolve_relative_iri(&i, base), counter),
        None => {
            let mut a = copy(base);
            push_str(&mut a, "#_:anon");
            crate::text::push_decimal_u128(&mut a, counter + 1);
            (a, counter + 1)
        },
    };
    let cs = match crate::text::rfind_exec(block, close) {
        None => return (None, c2),
        Some(c) => c,
    };
    proof {
        crate::text::lemma_rfind_bounds(block@, close@);
    }
    if cs < oe + 1 {
        return (None, c2);
    }
    match boolean_expression_exec(&slice(block, oe + 1, cs), base, dt_props, nodes) {
        Some(c) => (Some((crate::text::string_of(&iri), crate::text::string_of(&c))), c2),
        None => (None, c2),
    }
}

fn boolean_walk_exec(
    s: &Vec<char>,
    tag: &Vec<char>,
    rule: crate::scan::EndRule,
    close: &Vec<char>,
    base: &Vec<char>,
    dt_props: &Vec<Vec<char>>,
    nodes: &Vec<NodeList>,
    counter: u128,
) -> (r: (Vec<(String, String)>, u128))
    requires
        counter <= usize::MAX,
    ensures
        (crate::scan::pair_views(r.0@), r.1 as nat) == boolean_walk(
            s@,
            tag@,
            rule,
            close@,
            base@,
            views(dt_props@),
            nodes@.map_values(|n: NodeList| n@),
            0,
            counter as nat,
        ),
        r.1 <= counter + s.len(),
{
    let ghost dv = views(dt_props@);
    let ghost nv = nodes@.map_values(|n: NodeList| n@);
    let (open, _) = crate::xml::open_close(tag);
    let mut out: Vec<(String, String)> = Vec::new();
    let mut pos: usize = 0;
    let mut c: u128 = counter;
    assert(crate::scan::pair_views(out@) =~= Seq::<crate::scan::PairView>::empty());
    while pos < s.len()
        invariant
            open@ == crate::xml::open_of(tag@),
            counter <= usize::MAX,
            pos <= s.len(),
            c <= counter + pos,
            dv == views(dt_props@),
            nv == nodes@.map_values(|n: NodeList| n@),
            ({
                let (rest, cf) = boolean_walk(s@, tag@, rule, close@, base@, dv, nv, pos as int, c as nat);
                boolean_walk(s@, tag@, rule, close@, base@, dv, nv, 0, counter as nat) == (
                    crate::scan::pair_views(out@) + rest,
                    cf,
                )
            }),
        decreases s.len() - pos,
    {
        let ghost before = crate::scan::pair_views(out@);
        let st = match find(s, pos, &open) {
            None => {
                assert(before =~= before + Seq::<crate::scan::PairView>::empty());
                return (out, c);
            },
            Some(st) => st,
        };
        proof {
            lemma_find_from_bounds(s@, pos as int, open@);
        }
        if st >= s.len() {
            assert(before =~= before + Seq::<crate::scan::PairView>::empty());
            return (out, c);
        }
        let end = match crate::scan::kind_end_exec(s, st, tag, rule) {
            None => {
                assert(before =~= before + Seq::<crate::scan::PairView>::empty());
                return (out, c);
            },
            Some(e) => e,
        };
        if end <= st || end > s.len() {
            assert(before =~= before + Seq::<crate::scan::PairView>::empty());
            return (out, c);
        }
        let (p, c2) = boolean_equivalence_exec(&slice(s, st, end), base, dt_props, nodes, close, c);
        match p {
            Some(v) => {
                let ghost vv = v@;
                out.push(v);
                assert(crate::scan::pair_views(out@) =~= before + seq![vv]);
            },
            None => {
                assert(crate::scan::pair_views(out@) =~= before + Seq::<crate::scan::PairView>::empty());
            },
        }
        proof {
            let (rest, cf) = boolean_walk(s@, tag@, rule, close@, base@, dv, nv, end as int, c2 as nat);
            assert(crate::scan::pair_views(out@) + rest =~= before + (crate::scan::opt_seq(
                boolean_equivalence(s@.subrange(st as int, end as int), base@, dv, nv, close@, c as nat).0,
            ) + rest));
        }
        c = c2;
        pos = end;
    }
    proof {
        let ghost fin = crate::scan::pair_views(out@);
        assert(fin =~= fin + Seq::<crate::scan::PairView>::empty());
    }
    (out, c)
}

/// Collect the class equivalences that boolean expressions state, as
/// `boolean_equivalences` lists them.
pub fn collect_boolean_class_equivalences(rdf: &str) -> (r: Vec<(String, String)>)
    ensures
        crate::scan::pair_views(r@) == boolean_equivalences(rdf@),
{
    let s = chars_of(rdf);
    let base = crate::xml::parse_xml_base(&s);
    let dt = crate::subclasses::declared_datatype_chars(&s);
    let nodes = build_rdf_collection_node_map(&s, &base, &dt);
    let (mut a, c) = boolean_walk_exec(
        &s,
        &chars_of("rdf:Description"),
        crate::scan::EndRule::Balanced,
        &chars_of("</rdf:Description>"),
        &base,
        &dt,
        &nodes,
        0,
    );
    let (mut b, _) = boolean_walk_exec(
        &s,
        &chars_of("owl:Class"),
        crate::scan::EndRule::Tagged,
        &chars_of("</owl:Class>"),
        &base,
        &dt,
        &nodes,
        c,
    );
    let ghost av = crate::scan::pair_views(a@);
    let ghost bv = crate::scan::pair_views(b@);
    a.append(&mut b);
    assert(crate::scan::pair_views(a@) =~= av + bv);
    a
}

} // verus!

verus! {

/// An anonymous `owl:Class` element with a top-level intersection and a restriction as its
/// top-level superclass: the intersection and the restriction.
pub open spec fn anonymous_intersection(
    block: Seq<char>,
    base: Seq<char>,
    dt_props: Seq<Seq<char>>,
    nodes: Seq<(Seq<char>, Seq<Seq<char>>)>,
) -> Option<crate::scan::PairView> {
    if block.len() == 0 {
        None
    } else {
        let oe = crate::descriptions::first_gt_or_zero(block);
        let open = block.subrange(0, oe + 1);
        if attribute(open, "rdf:about"@) is Some || attribute(open, "rdf:ID"@) is Some {
            None
        } else {
            let cs = match crate::text::rfind(block, "</owl:Class>"@) {
                Some(c) => c,
                None => block.len() as int,
            };
            if cs < oe + 1 {
                None
            } else {
                let inner = block.subrange(oe + 1, cs);
                match boolean_operator(
                    inner,
                    "owl:intersectionOf"@,
                    "ObjectIntersectionOf"@,
                    base,
                    dt_props,
                    nodes,
                ) {
                    None => None,
                    Some(inter) => match top_level_element(inner, "rdfs:subClassOf"@) {
                        None => None,
                        Some((a, e)) => match object_restriction(
                            trim(element_inner(inner.subrange(a, e), "rdfs:subClassOf"@)),
                            base,
                            dt_props,
                        ) {
                            None => None,
                            Some(sup) => Some((inter, sup)),
                        },
                    },
                }
            }
        }
    }
}

fn anonymous_intersection_exec(
    block: &Vec<char>,
    base: &Vec<char>,
    dt_props: &Vec<Vec<char>>,
    nodes: &Vec<NodeList>,
) -> (r: Option<(Vec<char>, Vec<char>)>)
    ensures
        match r {
            Some(v) => anonymous_intersection(
                block@,
                base@,
                views(dt_props@),
                nodes@.map_values(|n: NodeList| n@),
            ) == Some(v@),
            None => anonymous_intersection(
                block@,
                base@,
                views(dt_props@),
                nodes@.map_values(|n: NodeList| n@),
            ) is None,
        },
{
    if block.len() == 0 {
        return None;
    }
    let oe = crate::descriptions::first_gt_or_zero_exec(block);
    let open = slice(block, 0, oe + 1);
    if extract_attribute(&open, "rdf:about").is_some() || extract_attribute(&open, "rdf:ID").is_some() {
        return None;
    }
    let cs = match crate::text::rfind_lit(block, "</owl:Class>") {
        Some(c) => {
            proof {
                crate::text::lemma_rfind_bounds(block@, "</owl:Class>"@);
            }
            c
        },
        None => block.len(),
    };
    if cs < oe + 1 {
        return None;
    }
    let inner = slice(block, oe + 1, cs);
    let inter = match boolean_operator_ofn(
        &inner,
        "owl:intersectionOf",
        "ObjectIntersectionOf",
        base,
        dt_props,
        nodes,
    ) {
        None => return None,
        Some(i) => i,
    };
    let (a, e) = match find_top_level_lit(&inner, "rdfs:subClassOf") {
        None => return None,
        Some(b) => b,
    };
    let sub_inner = element_inner_lit(&slice(&inner, a, e), "rdfs:subClassOf");
    match object_restriction_chars(&trim_exec(&sub_inner), base, dt_props) {
        None => None,
        Some(sup) => Some((inter, sup)),
    }
}

pub open spec fn anonymous_intersection_fn(
    base: Seq<char>,
    dt_props: Seq<Seq<char>>,
    nodes: Seq<(Seq<char>, Seq<Seq<char>>)>,
) -> spec_fn(Seq<char>) -> Option<crate::scan::PairView> {
    |b: Seq<char>| anonymous_intersection(b, base, dt_props, nodes)
}

/// The axioms for the `n`th anonymous class, subclass of `inter` and of `sup`.
pub open spec fn anonymous_axioms(base: Seq<char>, n: nat, inter: Seq<char>, sup: Seq<char>) -> Seq<
    char,
> {
    let anon = anon_iri(base, n);
    "Declaration(Class(<"@ + anon + ">))\nSubClassOf(<"@ + anon + "> "@ + inter
        + ")\nSubClassOf(<"@ + anon + "> "@ + sup + seq![')']
}

/// The axioms of the anonymous intersection classes of the document, numbered in order.
pub open spec fn anonymous_intersection_subclasses(s: Seq<char>) -> Seq<Seq<char>> {
    let base = crate::xml::xml_base(s);
    let dt = crate::subclasses::declared_datatype_properties(s);
    crate::scan::element_walk(
        s,
        "owl:Class"@,
        crate::scan::EndRule::Tagged,
        0,
        anonymous_intersection_fn(base, dt, node_lists(s, base, dt)),
    ).map(|i: int, p: crate::scan::PairView| anonymous_axioms(base, (i + 1) as nat, p.0, p.1))
}

/// Collect the axioms for each anonymous `owl:Class` that is an intersection with a
/// restriction as superclass, as `anonymous_intersection_subclasses` lists them.
pub fn collect_anonymous_intersection_subclasses(rdf: &str) -> (r: Vec<String>)
    ensures
        crate::scan::str_views(r@) == anonymous_intersection_subclasses(rdf@),
{
    let s = chars_of(rdf);
    let base = crate::xml::parse_xml_base(&s);
    let dt = crate::subclasses::declared_datatype_chars(&s);
    let nodes = build_rdf_collection_node_map(&s, &base, &dt);
    let f = |b: &Vec<char>| -> (r: Option<(Vec<char>, Vec<char>)>)
        ensures
            match r {
                Some(v) => anonymous_intersection(
                    b@,
                    base@,
                    views(dt@),
                    nodes@.map_values(|n: NodeList| n@),
                ) == Some(v@),
                None => anonymous_intersection(
                    b@,
                    base@,
                    views(dt@),
                    nodes@.map_values(|n: NodeList| n@),
                ) is None,
            },
        { anonymous_intersection_exec(b, &base, &dt, &nodes) };
    let found = crate::scan::collect_elements(
        &s,
        &chars_of("owl:Class"),
        crate::scan::EndRule::Tagged,
        f,
        Ghost(anonymous_intersection_fn(base@, views(dt@), nodes@.map_values(|n: NodeList| n@))),
    );
    let ghost fv = found@.map_values(|x: (Vec<char>, Vec<char>)| x@);
    let ghost want = fv.map(
        |i: int, p: crate::scan::PairView| anonymous_axioms(base@, (i + 1) as nat, p.0, p.1),
    );
    let mut out: Vec<String> = Vec::new();
    let mut i: usize = 0;
    assert(crate::scan::str_views(out@) =~= want.take(0));
    while i < found.len()
        invariant
            i <= found.len(),
            fv == found@.map_values(|x: (Vec<char>, Vec<char>)| x@),
            want == fv.map(
                |i: int, p: crate::scan::PairView| anonymous_axioms(base@, (i + 1) as nat, p.0, p.1),
            ),
            crate::scan::str_views(out@) == want.take(i as int),
        decreases found.len() - i,
    {
        let (inter, sup) = (&found[i].0, &found[i].1);
        let mut anon = copy(&base);
        push_str(&mut anon, "#_:anon");
        crate::text::push_decimal(&mut anon, i + 1);
        let mut text = chars_of("Declaration(Class(<");
        push_all(&mut text, &anon);
        push_str(&mut text, ">))\nSubClassOf(<");
        push_all(&mut text, &anon);
        push_str(&mut text, "> ");
        push_all(&mut text, inter);
        push_str(&mut text, ")\nSubClassOf(<");
        push_all(&mut text, &anon);
        push_str(&mut text, "> ");
        push_all(&mut text, sup);
        text.push(')');
        assert(fv[i as int] == (inter@, sup@));
        assert(text@ =~= want[i as int]);
        let t = crate::text::string_of(&text);
        let ghost before = crate::scan::str_views(out@);
        out.push(t);
        assert(crate::scan::str_views(out@) =~= before.push(t@));
        assert(want.take(i + 1) =~= want.take(i as int).push(want[i as int]));
        i += 1;
    }
    assert(want.take(found.len() as int) =~= want);
    out
}

} // verus!

verus! {

/// The members of `m` written as a bracketed IRI (`<...>`), in order.
pub open spec fn bracketed(m: Seq<Seq<char>>) -> Seq<Seq<char>>
    decreases m.len(),
{
    if m.len() == 0 {
        Seq::empty()
    } else {
        let x = m.last();
        bracketed(m.drop_last()) + if x.len() >= 2 && x[0] == '<' && x[x.len() - 1] == '>' {
            seq![x]
        } else {
            Seq::empty()
        }
    }
}

/// A class description with a top-level `owl:disjointUnionOf`: the class declared, stated
/// equivalent to the union of the members, and, with two or more bracketed members, those
/// members stated disjoint.
pub open spec fn disjoint_union(
    block: Seq<char>,
    base: Seq<char>,
    dt_props: Seq<Seq<char>>,
    nodes: Seq<(Seq<char>, Seq<Seq<char>>)>,
) -> Option<Seq<char>> {
    match crate::pairs::block_head(block, base, "</rdf:Description>"@) {
        None => None,
        Some((iri, inner)) => match top_level_element(inner, "owl:disjointUnionOf"@) {
            None => None,
            Some((a, e)) => match collection_members(inner.subrange(a, e), base, dt_props, nodes) {
                None => None,
                Some(m) => if m.len() == 0 {
                    None
                } else {
                    Some(
                        "Declaration(Class(<"@ + iri + ">))\nEquivalentClasses(<"@ + iri
                            + "> ObjectUnionOf("@ + crate::restrictions::join_spaced(m) + "))"@
                            + if bracketed(m).len() >= 2 {
                            "\nDisjointClasses("@ + crate::restrictions::join_spaced(bracketed(m))
                                + seq![')']
                        } else {
                            Seq::empty()
                        },
                    )
                },
            },
        },
    }
}

fn bracketed_exec(m: &Vec<Vec<char>>) -> (r: Vec<Vec<char>>)
    ensures
        views(r@) == bracketed(views(m@)),
{
    let ghost mv = views(m@);
    let mut out: Vec<Vec<char>> = Vec::new();
    let mut i: usize = 0;
    assert(mv.take(0) =~= Seq::<Seq<char>>::empty());
    assert(views(out@) =~= bracketed(mv.take(0)));
    while i < m.len()
        invariant
            i <= m.len(),
            mv == views(m@),
            views(out@) == bracketed(mv.take(i as int)),
        decreases m.len() - i,
    {
        let x = &m[i];
        assert(mv[i as int] == x@);
        assert(mv.take(i + 1).drop_last() =~= mv.take(i as int));
        assert(mv.take(i + 1).last() == x@);
        let ghost before = views(out@);
        if x.len() >= 2 && x[0] == '<' && x[x.len() - 1] == '>' {
            out.push(copy(x));
            assert(views(out@) =~= before + seq![x@]);
        } else {
            assert(views(out@) =~= before + Seq::<Seq<char>>::empty());
        }
        i += 1;
    }
    assert(mv.take(m.len() as int) =~= mv);
    out
}

fn disjoint_union_exec(
    block: &Vec<char>,
    base: &Vec<char>,
    dt_props: &Vec<Vec<char>>,
    nodes: &Vec<NodeList>,
) -> (r: Option<String>)
    ensures
        match r {
            Some(v) => disjoint_union(
                block@,
                base@,
                views(dt_props@),
                nodes@.map_values(|n: NodeList| n@),
            ) == Some(v@),
            None => disjoint_union(
                block@,
                base@,
                views(dt_props@),
                nodes@.map_values(|n: NodeList| n@),
            ) is None,
        },
{
    let (iri, inner) = match crate::pairs::block_head_exec(block, base, &chars_of("</rdf:Description>")) {
        None => return None,
        Some(h) => h,
    };
    let (a, e) = match find_top_level_lit(&inner, "owl:disjointUnionOf") {
        None => return None,
        Some(b) => b,
    };
    let m = match collection_members_ofn(&slice(&inner, a, e), base, dt_props, nodes) {
        None => return None,
        Some(m) => m,
    };
    if m.len() == 0 {
        return None;
    }
    let mut out = chars_of("Declaration(Class(<");
    push_all(&mut out, &iri);
    push_str(&mut out, ">))\nEquivalentClasses(<");
    push_all(&mut out, &iri);
    push_str(&mut out, "> ObjectUnionOf(");
    push_all(&mut out, &crate::restrictions::join_spaced_exec(&m));
    push_str(&mut out, "))");
    let b = bracketed_exec(&m);
    if b.len() >= 2 {
        push_str(&mut out, "\nDisjointClasses(");
        push_all(&mut out, &crate::restrictions::join_spaced_exec(&b));
        out.push(')');
    }
    Some(crate::text::string_of(&out))
}

pub open spec fn disjoint_union_fn(
    base: Seq<char>,
    dt_props: Seq<Seq<char>>,
    nodes: Seq<(Seq<char>, Seq<Seq<char>>)>,
) -> spec_fn(Seq<char>) -> Option<Seq<char>> {
    |b: Seq<char>| disjoint_union(b, base, dt_props, nodes)
}

/// The disjoint-union definitions of the document's class descriptions, in order.
pub open spec fn disjoint_unions(s: Seq<char>) -> Seq<Seq<char>> {
    let base = crate::xml::xml_base(s);
    let dt = crate::subclasses::declared_datatype_properties(s);
    crate::scan::element_walk(
        s,
        "rdf:Description"@,
        crate::scan::EndRule::Balanced,
        0,
        disjoint_union_fn(base, dt, node_lists(s, base, dt)),
    )
}

/// Collect the axioms of each class defined as a disjoint union, as `disjoint_unions` lists
/// them.
pub fn collect_disjoint_union_axioms(rdf: &str) -> (r: Vec<String>)
    ensures
        crate::scan::str_views(r@) == disjoint_unions(rdf@),
{
    let s = chars_of(rdf);
    let base = crate::xml::parse_xml_base(&s);
    let dt = crate::subclasses::declared_datatype_chars(&s);
    let nodes = build_rdf_collection_node_map(&s, &base, &dt);
    let f = |b: &Vec<char>| -> (r: Option<String>)
        ensures
            match r {
                Some(v) => disjoint_union(b@, base@, views(dt@), nodes@.map_values(|n: NodeList| n@))
                    == Some(v@),
                None => disjoint_union(b@, base@, views(dt@), nodes@.map_values(|n: NodeList| n@))
                    is None,
            },
        { disjoint_union_exec(b, &base, &dt, &nodes) };
    let r = crate::scan::collect_elements(
        &s,
        &chars_of("rdf:Description"),
        crate::scan::EndRule::Balanced,
        f,
        Ghost(disjoint_union_fn(base@, views(dt@), nodes@.map_values(|n: NodeList| n@))),
    );
    assert(crate::scan::str_views(r@) =~= r@.map_values(|x: String| x@));
    r
}

} // verus!

verus! {

/// The document mentions `syntax-ns#nil` and an `rdf:first` or `rdf:rest` element: a list
/// that the parser may find ill-founded.
pub open spec fn has_ill_founded_list(rdf: Seq<char>) -> bool {
    contains(rdf, "syntax-ns#nil"@) && (contains(rdf, "<rdf:first"@) || contains(rdf, "<rdf:rest"@))
}

pub fn contains_ill_founded_rdf_list(rdf: &str) -> (b: bool)
    ensures
        b == has_ill_founded_list(rdf@),
{
    let s = chars_of(rdf);
    contains_lit(&s, "syntax-ns#nil") && (contains_lit(&s, "<rdf:first") || contains_lit(&s, "<rdf:rest"))
}

} // verus!

//! Declarations injected for entities that RDF-based semantics uses by punning only.
use vstd::prelude::*;

use crate::disjoint::declaration_lines;
use crate::ids::{list_contains, views};
use crate::iri_set::{insert_sorted, lemma_concat_to_set, lemma_push_to_set, lemma_sorted_is_members, sorted_members, strictly_sorted};
use crate::text::{at_lit, chars_of, contains, contains_lit, copy, find, find_from, find_lit, last_index_of, last_index_of_exec, lemma_find_from_bounds, lemma_rfind_bounds, push_all, push_range, push_str, rfind, rfind_exec, slice, starts_with, string_of, trim, trim_exec, ends_with};
use crate::xml::{attribute, close_of, tag_element_end, tagged_end, element_qname, element_qname_exec, expand_qname, expand_qname_exec, extract_attribute, open_close, xmlns_declarations, xmlns_of, Namespaces};

verus! {

/// The values of attribute `attr` on the open tags that begin with `open`, from `pos`, in
/// order (the declared IRIs, for `rdf:about`).
pub open spec fn attr_values_scan(s: Seq<char>, open: Seq<char>, attr: Seq<char>, pos: int) -> Seq<
    Seq<char>,
>
    decreases s.len() - pos,
{
    if pos < 0 || pos > s.len() {
        Seq::empty()
    } else {
        match find_from(s, pos, open) {
            None => Seq::empty(),
            Some(st) => if st < pos || st >= s.len() {
                Seq::empty()
            } else {
                match find_from(s, st, seq!['>']) {
                    None => Seq::empty(),
                    Some(g) => if g < st || g >= s.len() {
                        Seq::empty()
                    } else {
                        (match attribute(s.subrange(st, g + 1), attr) {
                            Some(v) => seq![v],
                            None => Seq::empty(),
                        }) + attr_values_scan(s, open, attr, g + 1)
                    },
                }
            },
        }
    }
}

fn attr_values_exec(s: &Vec<char>, open: &str, attr: &str) -> (r: Vec<Vec<char>>)
    ensures
        views(r@) == attr_values_scan(s@, open@, attr@, 0),
{
    let ov = chars_of(open);
    let gt: Vec<char> = vec!['>'];
    assert(gt@ =~= seq!['>']);
    let mut out: Vec<Vec<char>> = Vec::new();
    let mut pos: usize = 0;
    assert(views(out@) =~= Seq::<Seq<char>>::empty());
    loop
        invariant
            pos <= s.len(),
            ov@ == open@,
            gt@ == seq!['>'],
            views(out@) + attr_values_scan(s@, open@, attr@, pos as int) == attr_values_scan(
                s@,
                open@,
                attr@,
                0,
            ),
        decreases s.len() - pos,
    {
        let st = match find(s, pos, &ov) {
            None => {
                assert(views(out@) =~= views(out@) + Seq::<Seq<char>>::empty());
                return out;
            },
            Some(st) => st,
        };
        proof {
            lemma_find_from_bounds(s@, pos as int, ov@);
        }
        if st >= s.len() {
            assert(views(out@) =~= views(out@) + Seq::<Seq<char>>::empty());
            return out;
        }
        let g = match find(s, st, &gt) {
            None => {
                assert(views(out@) =~= views(out@) + Seq::<Seq<char>>::empty());
                return out;
            },
            Some(g) => g,
        };
        proof {
            lemma_find_from_bounds(s@, st as int, gt@);
            assert(g < s.len());
        }
        let ghost before = views(out@);
        let tag = slice(s, st, g + 1);
        match extract_attribute(&tag, attr) {
            Some(v) => {
                let ghost vv = v@;
                out.push(v);
                assert(views(out@) =~= before + seq![vv]);
            },
            None => {
                assert(views(out@) =~= before + Seq::<Seq<char>>::empty());
            },
        }
        proof {
            assert(views(out@) + attr_values_scan(s@, open@, attr@, g + 1) =~= before
                + attr_values_scan(s@, open@, attr@, pos as int));
        }
        pos = g + 1;
    }
}

/// The properties named as `owl:equivalentProperty` of an `owl:DatatypeProperty` element, from
/// The `rdf:resource` of each `<owl:equivalentProperty` tag inside such an element.
pub open spec fn datatype_peer_scan(s: Seq<char>, pos: int) -> Seq<Seq<char>>
    decreases s.len() - pos,
{
    if pos < 0 || pos > s.len() {
        Seq::empty()
    } else {
        match find_from(s, pos, "<owl:DatatypeProperty"@) {
            None => Seq::empty(),
            Some(st) => if st < pos || st >= s.len() {
                Seq::empty()
            } else {
                match tagged_end(s, st, "owl:DatatypeProperty"@) {
                    Some(end) => if st < end <= s.len() {
                        attr_values_scan(
                            s.subrange(st, end),
                            "<owl:equivalentProperty"@,
                            "rdf:resource"@,
                            0,
                        ) + datatype_peer_scan(s, end)
                    } else {
                        datatype_peer_scan(s, st + 1)
                    },
                    None => datatype_peer_scan(s, st + 1),
                }
            },
        }
    }
}

fn datatype_peer_exec(s: &Vec<char>) -> (r: Vec<Vec<char>>)
    ensures
        views(r@) == datatype_peer_scan(s@, 0),
{
    let tag = chars_of("owl:DatatypeProperty");
    let mut out: Vec<Vec<char>> = Vec::new();
    let mut pos: usize = 0;
    assert(views(out@) =~= Seq::<Seq<char>>::empty());
    loop
        invariant
            pos <= s.len(),
            tag@ == "owl:DatatypeProperty"@,
            views(out@) + datatype_peer_scan(s@, pos as int) == datatype_peer_scan(s@, 0),
        decreases s.len() - pos,
    {
        let st = match find_lit(s, pos, "<owl:DatatypeProperty") {
            None => {
                assert(views(out@) =~= views(out@) + Seq::<Seq<char>>::empty());
                return out;
            },
            Some(st) => st,
        };
        proof {
            lemma_find_from_bounds(s@, pos as int, "<owl:DatatypeProperty"@);
        }
        if st >= s.len() {
            assert(views(out@) =~= views(out@) + Seq::<Seq<char>>::empty());
            return out;
        }
        match tag_element_end(s, st, &tag) {
            Some(end) => {
                let block = slice(s, st, end);
                let peers = attr_values_exec(&block, "<owl:equivalentProperty", "rdf:resource");
                let ghost before = views(out@);
                let mut k: usize = 0;
                while k < peers.len()
                    invariant
                        k <= peers.len(),
                        views(out@) == before + views(peers@).take(k as int),
                    decreases peers.len() - k,
                {
                    let ghost cur = views(out@);
                    out.push(copy(&peers[k]));
                    proof {
                        assert(views(peers@).take(k + 1) =~= views(peers@).take(k as int).push(
                            peers@[k as int]@,
                        ));
                        assert(views(out@) =~= cur.push(peers@[k as int]@));
                    }
                    k += 1;
                }
                proof {
                    assert(views(peers@).take(peers.len() as int) =~= views(peers@));
                    assert(views(out@) + datatype_peer_scan(s@, end as int) =~= before
                        + datatype_peer_scan(s@, pos as int));
                }
                pos = end;
            },
            None => {
                pos = st + 1;
            },
        }
    }
}

/// The enclosure scan from `search` with `depth` descriptions open:
/// whether `pos` lies before the end of the `</rdf:Description` tag that closes them.
pub open spec fn enclose_scan(s: Seq<char>, pos: int, search: int, depth: nat) -> bool
    decreases s.len() - search,
{
    if depth == 0 || search < 0 || search >= s.len() {
        false
    } else {
        match find_from(s, search, seq!['<']) {
            None => false,
            Some(a) => if a < search || a >= s.len() {
                false
            } else {
                match find_from(s, a, seq!['>']) {
                    None => false,
                    Some(te) => if te < a || te >= s.len() {
                        false
                    } else {
                        let tag = s.subrange(a, te + 1);
                        if starts_with(tag, "</rdf:Description"@) {
                            if depth == 1 {
                                pos < te + 1
                            } else {
                                enclose_scan(s, pos, te + 1, (depth - 1) as nat)
                            }
                        } else if starts_with(tag, "<rdf:Description"@) && !ends_with(tag, "/>"@) {
                            enclose_scan(s, pos, te + 1, depth + 1)
                        } else {
                            enclose_scan(s, pos, te + 1, depth)
                        }
                    },
                }
            },
        }
    }
}

/// The `rdf:Description` that opens at `ds` is still open at
/// `pos`.
pub open spec fn encloses(s: Seq<char>, ds: int, pos: int) -> bool {
    match find_from(s, ds, seq!['>']) {
        None => false,
        Some(oe) => oe < s.len() && starts_with(s.subrange(ds, oe + 1), "<rdf:Description"@)
            && enclose_scan(s, pos, oe + 1, 1),
    }
}

fn encloses_exec(s: &Vec<char>, ds: usize, pos: usize) -> (b: bool)
    requires
        ds <= s.len(),
    ensures
        b == encloses(s@, ds as int, pos as int),
{
    let lt: Vec<char> = vec!['<'];
    assert(lt@ =~= seq!['<']);
    let gt: Vec<char> = vec!['>'];
    assert(gt@ =~= seq!['>']);
    let oe = match find(s, ds, &gt) {
        None => return false,
        Some(o) => o,
    };
    proof {
        lemma_find_from_bounds(s@, ds as int, gt@);
        assert(oe < s.len());
    }
    let open_tag = slice(s, ds, oe + 1);
    if !at_lit(&open_tag, 0, "<rdf:Description") {
        return false;
    }
    let mut depth: usize = 1;
    let mut search = oe + 1;
    while search < s.len()
        invariant
            lt@ == seq!['<'],
            gt@ == seq!['>'],
            1 <= depth <= search,
            search <= s.len(),
            encloses(s@, ds as int, pos as int) == enclose_scan(
                s@,
                pos as int,
                search as int,
                depth as nat,
            ),
        decreases s.len() - search,
    {
        let a = match find(s, search, &lt) {
            None => return false,
            Some(a) => a,
        };
        proof {
            lemma_find_from_bounds(s@, search as int, lt@);
        }
        if a >= s.len() {
            return false;
        }
        let te = match find(s, a, &gt) {
            None => return false,
            Some(t) => t,
        };
        proof {
            lemma_find_from_bounds(s@, a as int, gt@);
            assert(te < s.len());
        }
        let tag = slice(s, a, te + 1);
        if at_lit(&tag, 0, "</rdf:Description") {
            if depth == 1 {
                return pos < te + 1;
            }
            depth = depth - 1;
        } else if at_lit(&tag, 0, "<rdf:Description") && !crate::text::ends_with_exec(
            &tag,
            &chars_of("/>"),
        ) {
            depth = depth + 1;
        }
        search = te + 1;
    }
    false
}

/// The backward search for an enclosing `rdf:about` below `search`: the `rdf:about` of the
/// nearest `rdf:Description` before `from` that is still open at `from`.
pub open spec fn enclosing_scan(s: Seq<char>, from: int, search: int) -> Option<Seq<char>>
    decreases search,
{
    if search <= 0 || from < search || from > s.len() {
        None
    } else {
        let head = s.subrange(0, from);
        match rfind(head.subrange(0, search), "<rdf:Description"@) {
            None => None,
            Some(st) => if st < 0 || st >= search {
                None
            } else {
                match find_from(head, st, seq!['>']) {
                    None => enclosing_scan(s, from, st),
                    Some(g) => if g >= head.len() {
                        None
                    } else {
                        match attribute(head.subrange(st, g + 1), "rdf:about"@) {
                            None => enclosing_scan(s, from, st),
                            Some(about) => if encloses(s, st, from) {
                                Some(about)
                            } else {
                                enclosing_scan(s, from, st)
                            },
                        }
                    },
                }
            },
        }
    }
}

fn enclosing_about_exec(s: &Vec<char>, from: usize) -> (r: Option<Vec<char>>)
    requires
        from <= s.len(),
    ensures
        match r {
            Some(v) => enclosing_scan(s@, from as int, from as int) == Some(v@),
            None => enclosing_scan(s@, from as int, from as int) is None,
        },
{
    let head = slice(s, 0, from);
    let desc = chars_of("<rdf:Description");
    let gt: Vec<char> = vec!['>'];
    assert(gt@ =~= seq!['>']);
    let mut search = from;
    while search > 0
        invariant
            search <= from <= s.len(),
            head@ == s@.subrange(0, from as int),
            desc@ == "<rdf:Description"@,
            gt@ == seq!['>'],
            enclosing_scan(s@, from as int, from as int) == enclosing_scan(
                s@,
                from as int,
                search as int,
            ),
        decreases search,
    {
        let window = slice(&head, 0, search);
        let st = match rfind_exec(&window, &desc) {
            None => return None,
            Some(st) => st,
        };
        proof {
            lemma_rfind_bounds(window@, desc@);
            reveal_strlit("<rdf:Description");
        }
        if st >= search {
            return None;
        }
        match find(&head, st, &gt) {
            None => {
                search = st;
            },
            Some(g) => {
                proof {
                    lemma_find_from_bounds(head@, st as int, gt@);
                    assert(g < head.len());
                }
                let tag = slice(&head, st, g + 1);
                match extract_attribute(&tag, "rdf:about") {
                    None => {
                        search = st;
                    },
                    Some(about) => {
                        if encloses_exec(s, st, from) {
                            return Some(about);
                        }
                        search = st;
                    },
                }
            },
        }
    }
    None
}

/// The axiom endpoint IRIs from `pos`: for each open tag beginning with `open`, its
/// `rdf:resource` and the `rdf:about` of the description that encloses it, in order.
pub open spec fn endpoint_scan(s: Seq<char>, open: Seq<char>, pos: int) -> Seq<Seq<char>>
    decreases s.len() - pos,
{
    if pos < 0 || pos > s.len() {
        Seq::empty()
    } else {
        match find_from(s, pos, open) {
            None => Seq::empty(),
            Some(st) => if st < pos || st >= s.len() {
                Seq::empty()
            } else {
                match find_from(s, st, seq!['>']) {
                    None => Seq::empty(),
                    Some(g) => if g < st || g >= s.len() {
                        Seq::empty()
                    } else {
                        (match attribute(s.subrange(st, g + 1), "rdf:resource"@) {
                            Some(v) => seq![v],
                            None => Seq::empty(),
                        }) + (match enclosing_scan(s, st, st) {
                            Some(v) => seq![v],
                            None => Seq::empty(),
                        }) + endpoint_scan(s, open, g + 1)
                    },
                }
            },
        }
    }
}

fn endpoint_exec(s: &Vec<char>, open: &str) -> (r: Vec<Vec<char>>)
    ensures
        views(r@) == endpoint_scan(s@, open@, 0),
{
    let ov = chars_of(open);
    let gt: Vec<char> = vec!['>'];
    assert(gt@ =~= seq!['>']);
    let mut out: Vec<Vec<char>> = Vec::new();
    let mut pos: usize = 0;
    assert(views(out@) =~= Seq::<Seq<char>>::empty());
    loop
        invariant
            pos <= s.len(),
            ov@ == open@,
            gt@ == seq!['>'],
            views(out@) + endpoint_scan(s@, open@, pos as int) == endpoint_scan(s@, open@, 0),
        decreases s.len() - pos,
    {
        let st = match find(s, pos, &ov) {
            None => {
                assert(views(out@) =~= views(out@) + Seq::<Seq<char>>::empty());
                return out;
            },
            Some(st) => st,
        };
        proof {
            lemma_find_from_bounds(s@, pos as int, ov@);
        }
        if st >= s.len() {
            assert(views(out@) =~= views(out@) + Seq::<Seq<char>>::empty());
            return out;
        }
        let g = match find(s, st, &gt) {
            None => {
                assert(views(out@) =~= views(out@) + Seq::<Seq<char>>::empty());
                return out;
            },
            Some(g) => g,
        };
        proof {
            lemma_find_from_bounds(s@, st as int, gt@);
            assert(g < s.len());
        }
        let ghost before = views(out@);
        let tag = slice(s, st, g + 1);
        let ghost first = match attribute(tag@, "rdf:resource"@) {
            Some(v) => seq![v],
            None => Seq::<Seq<char>>::empty(),
        };
        match extract_attribute(&tag, "rdf:resource") {
            Some(v) => {
                out.push(v);
            },
            None => {},
        }
        assert(views(out@) =~= before + first);
        let ghost mid = views(out@);
        let ghost second = match enclosing_scan(s@, st as int, st as int) {
            Some(v) => seq![v],
            None => Seq::<Seq<char>>::empty(),
        };
        match enclosing_about_exec(s, st) {
            Some(v) => {
                out.push(v);
            },
            None => {},
        }
        assert(views(out@) =~= mid + second);
        proof {
            assert(views(out@) + endpoint_scan(s@, open@, g + 1) =~= before + endpoint_scan(
                s@,
                open@,
                pos as int,
            ));
        }
        pos = g + 1;
    }
}

} // verus!

verus! {

/// The text from `body_start` to the next `</qname>` is non-empty after
/// trimming and does not begin with `<`.
pub open spec fn literal_body(s: Seq<char>, body_start: int, qname: Seq<char>) -> bool {
    match find_from(s, body_start, close_of(qname)) {
        None => false,
        Some(r) => {
            let body = trim(s.subrange(body_start, r));
            body.len() > 0 && body[0] != '<'
        },
    }
}

fn literal_body_exec(s: &Vec<char>, body_start: usize, qname: &Vec<char>) -> (b: bool)
    requires
        body_start <= s.len(),
    ensures
        b == literal_body(s@, body_start as int, qname@),
{
    let (_, close) = open_close(qname);
    match find(s, body_start, &close) {
        None => false,
        Some(r) => {
            proof {
                lemma_find_from_bounds(s@, body_start as int, close@);
            }
            let body = trim_exec(&slice(s, body_start, r));
            body.len() > 0 && body[0] != '<'
        },
    }
}

/// The three lists of punned class and property IRIs from
/// For each element tag whose name expands through the namespaces, the class it names
/// when the tag carries `rdf:about="`, the object property it names when the tag carries
/// `rdf:resource="`, and otherwise the data property it names when the tag carries
/// `rdf:datatype="` or a literal body.
pub open spec fn punned_scan(s: Seq<char>, ns: Seq<(Seq<char>, Seq<char>)>, pos: int) -> (
    Seq<Seq<char>>,
    Seq<Seq<char>>,
    Seq<Seq<char>>,
)
    decreases s.len() - pos,
{
    if pos < 0 || pos >= s.len() {
        (Seq::empty(), Seq::empty(), Seq::empty())
    } else {
        match find_from(s, pos, seq!['<']) {
            None => (Seq::empty(), Seq::empty(), Seq::empty()),
            Some(st) => if st < pos || st >= s.len() {
                (Seq::empty(), Seq::empty(), Seq::empty())
            } else {
                match find_from(s, st, seq!['>']) {
                    None => (Seq::empty(), Seq::empty(), Seq::empty()),
                    Some(g) => if g < st || g >= s.len() {
                        (Seq::empty(), Seq::empty(), Seq::empty())
                    } else {
                        let tag = s.subrange(st, g + 1);
                        let rest = punned_scan(s, ns, g + 1);
                        if starts_with(tag, "<!"@) || starts_with(tag, "<?"@) {
                            rest
                        } else {
                            match element_qname(tag) {
                                None => rest,
                                Some(name) => match expand_qname(name, ns) {
                                    None => rest,
                                    Some(iri) => {
                                        let c = if contains(tag, "rdf:about=\""@) {
                                            seq![iri]
                                        } else {
                                            Seq::empty()
                                        };
                                        let o = if contains(tag, "rdf:resource=\""@) {
                                            seq![iri]
                                        } else {
                                            Seq::empty()
                                        };
                                        let d = if !contains(tag, "rdf:resource=\""@) && (contains(
                                            tag,
                                            "rdf:datatype=\""@,
                                        ) || literal_body(s, g + 1, name)) {
                                            seq![iri]
                                        } else {
                                            Seq::empty()
                                        };
                                        (c + rest.0, o + rest.1, d + rest.2)
                                    },
                                },
                            }
                        }
                    },
                }
            },
        }
    }
}

/// The tag at `st..=g` and what it adds to the three lists of `punned_scan`.
fn punned_tag(s: &Vec<char>, ns: &Namespaces, st: usize, g: usize) -> (r: (
    Option<Vec<char>>,
    Option<Vec<char>>,
    Option<Vec<char>>,
))
    requires
        ns.wf(),
        st <= g < s.len(),
    ensures
        ({
            let tag = s@.subrange(st as int, g + 1);
            let (c, o, d) = if starts_with(tag, "<!"@) || starts_with(tag, "<?"@) {
                (Seq::empty(), Seq::empty(), Seq::empty())
            } else {
                match element_qname(tag) {
                    None => (Seq::empty(), Seq::empty(), Seq::empty()),
                    Some(name) => match expand_qname(name, ns.entries()) {
                        None => (Seq::empty(), Seq::empty(), Seq::empty()),
                        Some(iri) => (
                            if contains(tag, "rdf:about=\""@) {
                                seq![iri]
                            } else {
                                Seq::<Seq<char>>::empty()
                            },
                            if contains(tag, "rdf:resource=\""@) {
                                seq![iri]
                            } else {
                                Seq::<Seq<char>>::empty()
                            },
                            if !contains(tag, "rdf:resource=\""@) && (contains(
                                tag,
                                "rdf:datatype=\""@,
                            ) || literal_body(s@, g + 1, name)) {
                                seq![iri]
                            } else {
                                Seq::<Seq<char>>::empty()
                            },
                        ),
                    },
                }
            };
            &&& c == match r.0 {
                Some(v) => seq![v@],
                None => Seq::<Seq<char>>::empty(),
            }
            &&& o == match r.1 {
                Some(v) => seq![v@],
                None => Seq::<Seq<char>>::empty(),
            }
            &&& d == match r.2 {
                Some(v) => seq![v@],
                None => Seq::<Seq<char>>::empty(),
            }
        }),
{
    let tag = slice(s, st, g + 1);
    if at_lit(&tag, 0, "<!") || at_lit(&tag, 0, "<?") {
        return (None, None, None);
    }
    let name = match element_qname_exec(&tag) {
        None => return (None, None, None),
        Some(n) => n,
    };
    let iri = match expand_qname_exec(&name, ns) {
        None => return (None, None, None),
        Some(i) => i,
    };
    let c = if contains_lit(&tag, "rdf:about=\"") {
        Some(copy(&iri))
    } else {
        None
    };
    let has_resource = contains_lit(&tag, "rdf:resource=\"");
    let o = if has_resource {
        Some(copy(&iri))
    } else {
        None
    };
    let d = if !has_resource && (contains_lit(&tag, "rdf:datatype=\"") || literal_body_exec(
        s,
        g + 1,
        &name,
    )) {
        Some(iri)
    } else {
        None
    };
    (c, o, d)
}

fn punned_exec(s: &Vec<char>, ns: &Namespaces) -> (r: (Vec<Vec<char>>, Vec<Vec<char>>, Vec<Vec<char>>))
    requires
        ns.wf(),
    ensures
        (views(r.0@), views(r.1@), views(r.2@)) == punned_scan(s@, ns.entries(), 0),
{
    let lt: Vec<char> = vec!['<'];
    assert(lt@ =~= seq!['<']);
    let gt: Vec<char> = vec!['>'];
    assert(gt@ =~= seq!['>']);
    let mut cs: Vec<Vec<char>> = Vec::new();
    let mut os: Vec<Vec<char>> = Vec::new();
    let mut ds: Vec<Vec<char>> = Vec::new();
    let mut pos: usize = 0;
    assert(views(cs@) =~= Seq::<Seq<char>>::empty());
    assert(views(os@) =~= Seq::<Seq<char>>::empty());
    assert(views(ds@) =~= Seq::<Seq<char>>::empty());
    while pos < s.len()
        invariant
            ns.wf(),
            lt@ == seq!['<'],
            gt@ == seq!['>'],
            ({
                let rest = punned_scan(s@, ns.entries(), pos as int);
                let all = punned_scan(s@, ns.entries(), 0);
                &&& views(cs@) + rest.0 == all.0
                &&& views(os@) + rest.1 == all.1
                &&& views(ds@) + rest.2 == all.2
            }),
        decreases s.len() - pos,
    {
        let st = match find(s, pos, &lt) {
            None => {
                proof {
                    let e = Seq::<Seq<char>>::empty();
                    assert(punned_scan(s@, ns.entries(), pos as int) == (e, e, e));
                    assert(views(cs@) =~= views(cs@) + e);
                    assert(views(os@) =~= views(os@) + e);
                    assert(views(ds@) =~= views(ds@) + e);
                }
                return (cs, os, ds);
            },
            Some(st) => st,
        };
        proof {
            lemma_find_from_bounds(s@, pos as int, lt@);
        }
        if st >= s.len() {
            proof {
                let e = Seq::<Seq<char>>::empty();
                assert(punned_scan(s@, ns.entries(), pos as int) == (e, e, e));
                assert(views(cs@) =~= views(cs@) + e);
                assert(views(os@) =~= views(os@) + e);
                assert(views(ds@) =~= views(ds@) + e);
            }
            return (cs, os, ds);
        }
        let g = match find(s, st, &gt) {
            None => {
                proof {
                    let e = Seq::<Seq<char>>::empty();
                    assert(punned_scan(s@, ns.entries(), pos as int) == (e, e, e));
                    assert(views(cs@) =~= views(cs@) + e);
                    assert(views(os@) =~= views(os@) + e);
                    assert(views(ds@) =~= views(ds@) + e);
                }
                return (cs, os, ds);
            },
            Some(g) => g,
        };
        proof {
            lemma_find_from_bounds(s@, st as int, gt@);
            assert(g < s.len());
        }
        let ghost (c0, o0, d0) = (views(cs@), views(os@), views(ds@));
        let (c, o, d) = punned_tag(s, ns, st, g);
        if let Some(v) = c {
            cs.push(v);
        }
        if let Some(v) = o {
            os.push(v);
        }
        if let Some(v) = d {
            ds.push(v);
        }
        proof {
            let rest = punned_scan(s@, ns.entries(), g + 1);
            let here = punned_scan(s@, ns.entries(), pos as int);
            assert(views(cs@) + rest.0 =~= c0 + here.0);
            assert(views(os@) + rest.1 =~= o0 + here.1);
            assert(views(ds@) + rest.2 =~= d0 + here.2);
        }
        pos = g + 1;
    }
    proof {
        let rest = punned_scan(s@, ns.entries(), pos as int);
        assert(rest.0 =~= Seq::<Seq<char>>::empty());
        assert(rest.1 =~= Seq::<Seq<char>>::empty());
        assert(rest.2 =~= Seq::<Seq<char>>::empty());
        assert(views(cs@) =~= views(cs@) + rest.0);
        assert(views(os@) =~= views(os@) + rest.1);
        assert(views(ds@) =~= views(ds@) + rest.2);
    }
    (cs, os, ds)
}

} // verus!

verus! {

/// The IRI's local name (after its last `#`, then after its last
/// `/`) is `dp`.
pub open spec fn datatype_fallback(iri: Seq<char>) -> bool {
    let l1 = match last_index_of(iri, '#') {
        Some(h) => iri.subrange(h + 1, iri.len() as int),
        None => iri,
    };
    let l2 = match last_index_of(l1, '/') {
        Some(k) => l1.subrange(k + 1, l1.len() as int),
        None => l1,
    };
    l2 == "dp"@
}

pub fn datatype_fallback_exec(iri: &Vec<char>) -> (b: bool)
    ensures
        b == datatype_fallback(iri@),
{
    let l1 = match last_index_of_exec(iri, '#') {
        Some(h) => {
            proof {
                lemma_rfind_bounds(iri@, seq!['#']);
                assert(h < iri.len());
            }
            slice(iri, h + 1, iri.len())
        },
        None => copy(iri),
    };
    let l2 = match last_index_of_exec(&l1, '/') {
        Some(k) => {
            proof {
                lemma_rfind_bounds(l1@, seq!['/']);
                assert(k < l1.len());
            }
            slice(&l1, k + 1, l1.len())
        },
        None => l1,
    };
    let dp = chars_of("dp");
    crate::xml::vec_eq(&l2, &dp)
}

/// The IRIs named by `rdf:about` on the open tags that begin with `open`.
pub open spec fn declared_set(s: Seq<char>, open: Seq<char>) -> Set<Seq<char>> {
    attr_values_scan(s, open, "rdf:about"@, 0).to_set()
}

/// The peers of data properties (`datatype_peer_scan`), as a set.
pub open spec fn datatype_peers(s: Seq<char>) -> Set<Seq<char>> {
    datatype_peer_scan(s, 0).to_set()
}

/// The classes that need a declaration: the ends of `owl:equivalentClass` and
/// `owl:disjointWith` statements and the punned classes, less the declared classes.
pub open spec fn class_injections(s: Seq<char>) -> Set<Seq<char>> {
    (endpoint_scan(s, "<owl:equivalentClass"@, 0) + endpoint_scan(s, "<owl:disjointWith"@, 0)
        + punned_scan(s, xmlns_of(s), 0).0).to_set().difference(declared_set(s, "<owl:Class"@))
}

/// The properties declared as object or data properties.
pub open spec fn declared_properties(s: Seq<char>) -> Set<Seq<char>> {
    declared_set(s, "<owl:ObjectProperty"@).union(declared_set(s, "<owl:DatatypeProperty"@))
}

/// The properties that need a declaration as object properties unless their local name says
/// otherwise: the ends of `owl:equivalentProperty` and `owl:propertyDisjointWith` statements
/// and the punned object properties, less the declared properties and the peers of data
/// properties.
pub open spec fn property_candidates(s: Seq<char>) -> Set<Seq<char>> {
    (endpoint_scan(s, "<owl:equivalentProperty"@, 0) + endpoint_scan(
        s,
        "<owl:propertyDisjointWith"@,
        0,
    ) + punned_scan(s, xmlns_of(s), 0).1).to_set().difference(
        declared_properties(s).union(datatype_peers(s)),
    )
}

/// The object properties to declare.
pub open spec fn object_injections(s: Seq<char>) -> Set<Seq<char>> {
    property_candidates(s).filter(|x: Seq<char>| !datatype_fallback(x))
}

/// The data properties to declare: the punned data properties and the peers of data
/// properties, less the declared properties, and the property candidates whose local name is
/// `dp`.
pub open spec fn datatype_injections(s: Seq<char>) -> Set<Seq<char>> {
    (punned_scan(s, xmlns_of(s), 0).2 + datatype_peer_scan(s, 0)).to_set().difference(
        declared_properties(s),
    ).union(property_candidates(s).filter(|x: Seq<char>| datatype_fallback(x)))
}

/// Just after the `>` of the first `<rdf:RDF` tag.
pub open spec fn rdf_body_start(s: Seq<char>) -> Option<int> {
    match find_from(s, 0, "<rdf:RDF"@) {
        None => None,
        Some(rs) => match find_from(s, rs, seq!['>']) {
            None => None,
            Some(g) => Some(g + 1),
        },
    }
}

/// `inject_rdf_based_punning_declarations`: when the text mentions an equivalence or
/// disjointness axiom, declarations of the classes, object properties and data properties it
/// uses without declaring them are inserted after the root open tag, each group sorted.  A
/// property named as `owl:equivalentProperty` inside an `owl:DatatypeProperty` element is
/// declared a data property.
pub open spec fn punning_declarations_injected(s: Seq<char>) -> Seq<char> {
    if !contains(s, "equivalentClass"@) && !contains(s, "equivalentProperty"@) && !contains(
        s,
        "propertyDisjointWith"@,
    ) && !contains(s, "disjointWith"@) {
        s
    } else {
        match rdf_body_start(s) {
            None => s,
            Some(at) => {
                let c = class_injections(s);
                let o = object_injections(s);
                let d = datatype_injections(s);
                if c == Set::<Seq<char>>::empty() && o == Set::<Seq<char>>::empty() && d == Set::<
                    Seq<char>,
                >::empty() {
                    s
                } else {
                    s.subrange(0, at) + declaration_lines(sorted_members(c), "owl:Class"@, 0)
                        + declaration_lines(sorted_members(o), "owl:ObjectProperty"@, 0)
                        + declaration_lines(sorted_members(d), "owl:DatatypeProperty"@, 0)
                        + s.subrange(at, s.len() as int)
                }
            },
        }
    }
}

/// Adds to the sorted list `v` the items not among `ex1` or `ex2`.
fn add_excluding(
    v: &mut Vec<Vec<char>>,
    items: &Vec<Vec<char>>,
    ex1: &Vec<Vec<char>>,
    ex2: &Vec<Vec<char>>,
)
    requires
        strictly_sorted(views(old(v)@)),
    ensures
        strictly_sorted(views(final(v)@)),
        views(final(v)@).to_set() == views(old(v)@).to_set().union(
            views(items@).to_set().difference(views(ex1@).to_set().union(views(ex2@).to_set())),
        ),
{
    let ghost start = views(v@).to_set();
    let ghost ex = views(ex1@).to_set().union(views(ex2@).to_set());
    let ghost iv = views(items@);
    let mut i: usize = 0;
    while i < items.len()
        invariant
            i <= items.len(),
            iv == views(items@),
            ex == views(ex1@).to_set().union(views(ex2@).to_set()),
            start == views(old(v)@).to_set(),
            strictly_sorted(views(v@)),
            views(v@).to_set() == start.union(iv.take(i as int).to_set().difference(ex)),
        decreases items.len() - i,
    {
        let ghost before = views(v@).to_set();
        let x = &items[i];
        proof {
            assert(iv[i as int] == x@);
            assert(iv.take(i + 1) =~= iv.take(i as int).push(x@));
            lemma_push_to_set(iv.take(i as int), x@);
        }
        let excluded = list_contains(ex1, x) || list_contains(ex2, x);
        if !excluded {
            insert_sorted(v, copy(x));
            proof {
                assert(views(v@).to_set() =~= start.union(iv.take(i + 1).to_set().difference(ex)));
            }
        } else {
            proof {
                assert(ex.contains(x@));
                assert(views(v@).to_set() =~= start.union(iv.take(i + 1).to_set().difference(ex)));
            }
        }
        i += 1;
    }
    assert(iv.take(items.len() as int) =~= iv);
}

/// A copy of a list of character vectors.
fn copy_list(l: &Vec<Vec<char>>) -> (r: Vec<Vec<char>>)
    ensures
        views(r@) == views(l@),
{
    let mut r: Vec<Vec<char>> = Vec::new();
    append_list(&mut r, l);
    assert(views(l@) =~= Seq::<Seq<char>>::empty() + views(l@));
    r
}

/// Appends copies of the items of `l` to `out`.
fn append_list(out: &mut Vec<Vec<char>>, l: &Vec<Vec<char>>)
    ensures
        views(final(out)@) == views(old(out)@) + views(l@),
{
    let ghost start = views(out@);
    let mut k: usize = 0;
    while k < l.len()
        invariant
            k <= l.len(),
            start == views(old(out)@),
            views(out@) == start + views(l@).take(k as int),
        decreases l.len() - k,
    {
        let ghost cur = views(out@);
        out.push(copy(&l[k]));
        proof {
            assert(views(l@).take(k + 1) =~= views(l@).take(k as int).push(l@[k as int]@));
            assert(views(out@) =~= cur.push(l@[k as int]@));
        }
        k += 1;
    }
    assert(views(l@).take(l.len() as int) =~= views(l@));
}

/// Splits the sorted list `p` by `datatype_fallback`: the others go to `o`, those go to `d`.
fn split_by_fallback(p: &Vec<Vec<char>>, o: &mut Vec<Vec<char>>, d: &mut Vec<Vec<char>>)
    requires
        strictly_sorted(views(old(o)@)),
        strictly_sorted(views(old(d)@)),
    ensures
        strictly_sorted(views(final(o)@)),
        strictly_sorted(views(final(d)@)),
        views(final(o)@).to_set() == views(old(o)@).to_set().union(
            views(p@).to_set().filter(|x: Seq<char>| !datatype_fallback(x)),
        ),
        views(final(d)@).to_set() == views(old(d)@).to_set().union(
            views(p@).to_set().filter(|x: Seq<char>| datatype_fallback(x)),
        ),
{
    let ghost o0 = views(o@).to_set();
    let ghost d0 = views(d@).to_set();
    let ghost pv = views(p@);
    let mut i: usize = 0;
    while i < p.len()
        invariant
            i <= p.len(),
            pv == views(p@),
            o0 == views(old(o)@).to_set(),
            d0 == views(old(d)@).to_set(),
            strictly_sorted(views(o@)),
            strictly_sorted(views(d@)),
            views(o@).to_set() == o0.union(
                pv.take(i as int).to_set().filter(|x: Seq<char>| !datatype_fallback(x)),
            ),
            views(d@).to_set() == d0.union(
                pv.take(i as int).to_set().filter(|x: Seq<char>| datatype_fallback(x)),
            ),
        decreases p.len() - i,
    {
        let x = &p[i];
        proof {
            assert(pv[i as int] == x@);
            assert(pv.take(i + 1) =~= pv.take(i as int).push(x@));
            lemma_push_to_set(pv.take(i as int), x@);
        }
        if datatype_fallback_exec(x) {
            insert_sorted(d, copy(x));
        } else {
            insert_sorted(o, copy(x));
        }
        proof {
            assert(views(o@).to_set() =~= o0.union(
                pv.take(i + 1).to_set().filter(|x: Seq<char>| !datatype_fallback(x)),
            ));
            assert(views(d@).to_set() =~= d0.union(
                pv.take(i + 1).to_set().filter(|x: Seq<char>| datatype_fallback(x)),
            ));
        }
        i += 1;
    }
    assert(pv.take(p.len() as int) =~= pv);
}

/// Appends `  <{tag} rdf:about="{iri}"/>` for each IRI of `list`.
fn push_declarations(out: &mut Vec<char>, list: &Vec<Vec<char>>, tag: &str)
    ensures
        final(out)@ == old(out)@ + declaration_lines(views(list@), tag@, 0),
{
    let ghost lv = views(list@);
    let ghost start = old(out)@;
    let mut i: usize = 0;
    while i < list.len()
        invariant
            i <= list.len(),
            lv == views(list@),
            start == old(out)@,
            out@ + declaration_lines(lv, tag@, i as int) == start + declaration_lines(lv, tag@, 0),
        decreases list.len() - i,
    {
        let ghost before = out@;
        push_str(out, "  <");
        push_str(out, tag);
        push_str(out, " rdf:about=\"");
        push_all(out, &list[i]);
        push_str(out, "\"/>\n");
        proof {
            assert(lv[i as int] == list@[i as int]@);
            assert(out@ + declaration_lines(lv, tag@, i + 1) =~= before + declaration_lines(
                lv,
                tag@,
                i as int,
            ));
        }
        i += 1;
    }
    assert(out@ =~= out@ + declaration_lines(lv, tag@, i as int));
}

proof fn lemma_empty_list_set(l: Seq<Seq<char>>)
    ensures
        (l.len() == 0) == (l.to_set() == Set::<Seq<char>>::empty()),
{
    if l.len() == 0 {
        assert(l.to_set() =~= Set::<Seq<char>>::empty());
    } else {
        assert(l.to_set().contains(l[0]));
    }
}

/// Inject explicit `owl:Class` / property declarations for RDF-Based Semantics punning.
///
/// The RDF/XML reader needs typed entities before `equivalentClass`, `disjointWith` and
/// `equivalentProperty` axioms; RDF-based documents often rely on punning only.
pub fn inject_rdf_based_punning_declarations(input: &str) -> (r: String)
    ensures
        r@ == punning_declarations_injected(input@),
{
    let s = chars_of(input);
    let out = punning_chars(&s);
    string_of(&out)
}

/// `inject_rdf_based_punning_declarations` on a character vector.
pub fn punning_chars(s: &Vec<char>) -> (r: Vec<char>)
    ensures
        r@ == punning_declarations_injected(s@),
{
    proof {
        reveal_strlit(">");
        assert(">"@ =~= seq!['>']);
    }
    if !contains_lit(s, "equivalentClass") && !contains_lit(s, "equivalentProperty")
        && !contains_lit(s, "propertyDisjointWith") && !contains_lit(s, "disjointWith") {
        return copy(s);
    }
    let rs = match find_lit(s, 0, "<rdf:RDF") {
        None => return copy(s),
        Some(r) => r,
    };
    proof {
        lemma_find_from_bounds(s@, 0, "<rdf:RDF"@);
    }
    let g = match find_lit(s, rs, ">") {
        None => return copy(s),
        Some(g) => g,
    };
    proof {
        lemma_find_from_bounds(s@, rs as int, seq!['>']);
        assert(g < s.len());
    }
    let at = g + 1;
    let ns = xmlns_declarations(s);
    let declared_classes = attr_values_exec(s, "<owl:Class", "rdf:about");
    let declared_object = attr_values_exec(s, "<owl:ObjectProperty", "rdf:about");
    let declared_datatype = attr_values_exec(s, "<owl:DatatypeProperty", "rdf:about");
    let peers = datatype_peer_exec(s);
    let eq_class = endpoint_exec(s, "<owl:equivalentClass");
    let disjoint_class = endpoint_exec(s, "<owl:disjointWith");
    let eq_prop = endpoint_exec(s, "<owl:equivalentProperty");
    let disjoint_prop = endpoint_exec(s, "<owl:propertyDisjointWith");
    let (pc, po, pd) = punned_exec(s, &ns);
    let mut classes: Vec<Vec<char>> = Vec::new();
    assert(views(classes@) =~= Seq::<Seq<char>>::empty());
    add_excluding(&mut classes, &eq_class, &declared_classes, &declared_classes);
    add_excluding(&mut classes, &disjoint_class, &declared_classes, &declared_classes);
    add_excluding(&mut classes, &pc, &declared_classes, &declared_classes);
    let mut excluded_props = copy_list(&declared_object);
    append_list(&mut excluded_props, &declared_datatype);
    let mut props: Vec<Vec<char>> = Vec::new();
    assert(views(props@) =~= Seq::<Seq<char>>::empty());
    add_excluding(&mut props, &eq_prop, &excluded_props, &peers);
    add_excluding(&mut props, &disjoint_prop, &excluded_props, &peers);
    add_excluding(&mut props, &po, &excluded_props, &peers);
    let mut objects: Vec<Vec<char>> = Vec::new();
    let mut datatypes: Vec<Vec<char>> = Vec::new();
    assert(views(objects@) =~= Seq::<Seq<char>>::empty());
    assert(views(datatypes@) =~= Seq::<Seq<char>>::empty());
    add_excluding(&mut datatypes, &pd, &declared_object, &declared_datatype);
    add_excluding(&mut datatypes, &peers, &declared_object, &declared_datatype);
    split_by_fallback(&props, &mut objects, &mut datatypes);
    proof {
        let e = Set::<Seq<char>>::empty();
        let dc = declared_set(s@, "<owl:Class"@);
        let dp = declared_properties(s@);
        assert(dc =~= views(declared_classes@).to_set().union(views(declared_classes@).to_set()));
        let cl = endpoint_scan(s@, "<owl:equivalentClass"@, 0) + endpoint_scan(
            s@,
            "<owl:disjointWith"@,
            0,
        ) + punned_scan(s@, xmlns_of(s@), 0).0;
        lemma_concat_to_set(
            endpoint_scan(s@, "<owl:equivalentClass"@, 0),
            endpoint_scan(s@, "<owl:disjointWith"@, 0),
        );
        lemma_concat_to_set(
            endpoint_scan(s@, "<owl:equivalentClass"@, 0) + endpoint_scan(
                s@,
                "<owl:disjointWith"@,
                0,
            ),
            punned_scan(s@, xmlns_of(s@), 0).0,
        );
        assert(cl.to_set() =~= views(eq_class@).to_set().union(views(disjoint_class@).to_set()).union(
            views(pc@).to_set(),
        ));
        assert(views(classes@).to_set() =~= class_injections(s@));
        let pl = endpoint_scan(s@, "<owl:equivalentProperty"@, 0) + endpoint_scan(
            s@,
            "<owl:propertyDisjointWith"@,
            0,
        ) + punned_scan(s@, xmlns_of(s@), 0).1;
        lemma_concat_to_set(
            endpoint_scan(s@, "<owl:equivalentProperty"@, 0),
            endpoint_scan(s@, "<owl:propertyDisjointWith"@, 0),
        );
        lemma_concat_to_set(
            endpoint_scan(s@, "<owl:equivalentProperty"@, 0) + endpoint_scan(
                s@,
                "<owl:propertyDisjointWith"@,
                0,
            ),
            punned_scan(s@, xmlns_of(s@), 0).1,
        );
        assert(pl.to_set() =~= views(eq_prop@).to_set().union(views(disjoint_prop@).to_set()).union(
            views(po@).to_set(),
        ));
        lemma_concat_to_set(views(declared_object@), views(declared_datatype@));
        assert(views(props@).to_set() =~= property_candidates(s@));
        lemma_concat_to_set(punned_scan(s@, xmlns_of(s@), 0).2, datatype_peer_scan(s@, 0));
        assert(views(objects@).to_set() =~= object_injections(s@));
        assert(views(datatypes@).to_set() =~= datatype_injections(s@));
        lemma_sorted_is_members(views(classes@));
        lemma_sorted_is_members(views(objects@));
        lemma_sorted_is_members(views(datatypes@));
        lemma_empty_list_set(views(classes@));
        lemma_empty_list_set(views(objects@));
        lemma_empty_list_set(views(datatypes@));
    }
    if classes.len() == 0 && objects.len() == 0 && datatypes.len() == 0 {
        return copy(s);
    }
    let mut out = slice(s, 0, at);
    push_declarations(&mut out, &classes, "owl:Class");
    push_declarations(&mut out, &objects, "owl:ObjectProperty");
    push_declarations(&mut out, &datatypes, "owl:DatatypeProperty");
    push_range(&mut out, s, at, s.len());
    out
}

} // verus!

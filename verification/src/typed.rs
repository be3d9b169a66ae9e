//! Materialization of RDF/XML typed nodes into explicit `rdf:type` descriptions.
use vstd::prelude::*;

use crate::text::{at_lit, chars_of, contains, contains_lit, copy, decimal, ends_with, find, find_from, find_lit, lemma_find_from_bounds, lemma_rfind_bounds, matches_at, push_all, push_decimal, push_range, push_str, rfind, rfind_exec, slice, starts_with, string_of, trim_end, trim_end_exec};
use crate::xml::{element_end, element_qname, element_qname_exec, expand_qname, expand_qname_exec, find_element_end, open_close, parse_xml_base, xmlns_declarations, vec_eq, xml_base, xmlns_of, Namespaces, close_of};

verus! {

/// The nesting step of `rdf_document_nesting_depth_at` for one tag.
pub open spec fn depth_step(tag: Seq<char>, depth: nat) -> nat {
    if starts_with(tag, "</rdf:RDF"@) {
        if depth > 0 { (depth - 1) as nat } else { 0 }
    } else if starts_with(tag, "<rdf:RDF"@) && !ends_with(trim_end(tag), "/>"@) {
        depth + 1
    } else if starts_with(tag, "</"@) {
        if depth > 0 { (depth - 1) as nat } else { 0 }
    } else if !ends_with(trim_end(tag), "/>"@) && !starts_with(tag, "<?"@) && !starts_with(
        tag,
        "<!"@,
    ) && depth > 0 {
        depth + 1
    } else {
        depth
    }
}

/// The tag walk of `rdf_document_nesting_depth_at` from `cursor`, for tags that start before
/// `pos`; comments are skipped whole.
pub open spec fn depth_scan(s: Seq<char>, cursor: int, pos: int, depth: nat) -> nat
    decreases s.len() - cursor,
{
    if cursor < 0 || cursor >= pos || cursor >= s.len() {
        depth
    } else {
        match find_from(s, cursor, seq!['<']) {
            None => depth,
            Some(ts) => if ts < cursor || ts >= s.len() {
                depth
            } else if matches_at(s, ts, "<!--"@) {
                let end = match find_from(s, ts, "-->"@) {
                    Some(i) => i + 3,
                    None => s.len() as int,
                };
                if end <= cursor || end > s.len() {
                    depth
                } else {
                    depth_scan(s, end, pos, depth)
                }
            } else {
                match find_from(s, ts, seq!['>']) {
                    None => depth,
                    Some(g) => if g < ts || g >= s.len() {
                        depth
                    } else {
                        depth_scan(s, g + 1, pos, depth_step(s.subrange(ts, g + 1), depth))
                    },
                }
            },
        }
    }
}

/// `rdf_document_nesting_depth_at`: the nesting depth inside `rdf:RDF` at `pos` (1 for a
/// direct child of the document element).
pub open spec fn nesting_depth_at(s: Seq<char>, pos: int) -> nat {
    depth_scan(s, 0, pos, 0)
}

fn depth_step_exec(tag: &Vec<char>, depth: usize) -> (r: usize)
    requires
        depth < usize::MAX,
    ensures
        r == depth_step(tag@, depth as nat),
{
    let t = trim_end_exec(tag);
    let self_closing = crate::text::ends_with_exec(&t, &chars_of("/>"));
    if at_lit(tag, 0, "</rdf:RDF") {
        if depth > 0 { depth - 1 } else { 0 }
    } else if at_lit(tag, 0, "<rdf:RDF") && !self_closing {
        depth + 1
    } else if at_lit(tag, 0, "</") {
        if depth > 0 { depth - 1 } else { 0 }
    } else if !self_closing && !at_lit(tag, 0, "<?") && !at_lit(tag, 0, "<!") && depth > 0 {
        depth + 1
    } else {
        depth
    }
}

/// `rdf_document_nesting_depth_at`.
pub fn rdf_document_nesting_depth_at(s: &Vec<char>, pos: usize) -> (r: usize)
    ensures
        r == nesting_depth_at(s@, pos as int),
{
    let ltv: Vec<char> = vec!['<'];
    assert(ltv@ =~= seq!['<']);
    let gtv: Vec<char> = vec!['>'];
    assert(gtv@ =~= seq!['>']);
    let mut depth: usize = 0;
    let mut cursor: usize = 0;
    while cursor < pos && cursor < s.len()
        invariant
            ltv@ == seq!['<'],
            gtv@ == seq!['>'],
            depth <= cursor,
            cursor <= s.len(),
            nesting_depth_at(s@, pos as int) == depth_scan(s@, cursor as int, pos as int, depth as nat),
        decreases s.len() - cursor,
    {
        let ts = match find(s, cursor, &ltv) {
            None => return depth,
            Some(t) => t,
        };
        proof {
            lemma_find_from_bounds(s@, cursor as int, ltv@);
        }
        if at_lit(s, ts, "<!--") {
            let end = match find_lit(s, ts, "-->") {
                Some(i) => {
                    proof {
                        reveal_strlit("-->");
                        lemma_find_from_bounds(s@, ts as int, "-->"@);
                    }
                    i + 3
                },
                None => s.len(),
            };
            cursor = end;
            continue;
        }
        let g = match find(s, ts, &gtv) {
            None => return depth,
            Some(g) => g,
        };
        proof {
            lemma_find_from_bounds(s@, ts as int, gtv@);
            assert(g < s.len());
        }
        let tag = slice(s, ts, g + 1);
        depth = depth_step_exec(&tag, depth);
        cursor = g + 1;
    }
    depth
}

/// The attribute markers that keep a self-closing element from being a typed node.
pub open spec fn has_node_attribute(tag: Seq<char>) -> bool {
    contains(tag, "rdf:about=\""@) || contains(tag, "rdf:about='"@) || contains(
        tag,
        "rdf:nodeID=\""@,
    ) || contains(tag, "rdf:nodeID='"@) || contains(tag, "rdf:ID=\""@) || contains(
        tag,
        "rdf:ID='"@,
    ) || contains(tag, "rdf:resource=\""@) || contains(tag, "rdf:resource='"@) || contains(
        tag,
        "rdf:datatype=\""@,
    ) || contains(tag, "rdf:datatype='"@) || contains(tag, "rdf:parseType=\""@) || contains(
        tag,
        "rdf:parseType='"@,
    )
}

/// `is_typed_node_element`: a self-closing, unnamed element with a prefixed name, such as
/// `<ex:Man/>`.
pub open spec fn is_typed_node(tag: Seq<char>) -> bool {
    ends_with(tag, "/>"@) && !starts_with(tag, "</"@) && !starts_with(tag, "<!--"@)
        && !starts_with(tag, "<!"@) && !starts_with(tag, "<?"@) && !has_node_attribute(tag)
        && element_qname(tag) is Some
}

fn has_node_attribute_exec(tag: &Vec<char>) -> (b: bool)
    ensures
        b == has_node_attribute(tag@),
{
    contains_lit(tag, "rdf:about=\"") || contains_lit(tag, "rdf:about='") || contains_lit(
        tag,
        "rdf:nodeID=\"",
    ) || contains_lit(tag, "rdf:nodeID='") || contains_lit(tag, "rdf:ID=\"") || contains_lit(
        tag,
        "rdf:ID='",
    ) || contains_lit(tag, "rdf:resource=\"") || contains_lit(tag, "rdf:resource='")
        || contains_lit(tag, "rdf:datatype=\"") || contains_lit(tag, "rdf:datatype='")
        || contains_lit(tag, "rdf:parseType=\"") || contains_lit(tag, "rdf:parseType='")
}

/// `is_typed_node_element`.
pub fn is_typed_node_element(tag: &Vec<char>) -> (b: bool)
    ensures
        b == is_typed_node(tag@),
{
    crate::text::ends_with_exec(tag, &chars_of("/>")) && !at_lit(tag, 0, "</") && !at_lit(
        tag,
        0,
        "<!--",
    ) && !at_lit(tag, 0, "<!") && !at_lit(tag, 0, "<?") && !has_node_attribute_exec(tag)
        && element_qname_exec(tag).is_some()
}

/// `builtin_owl_typed_node_iri`: the IRIs of `owl:Thing` and `owl:Nothing`.
pub open spec fn builtin_owl_iri(qname: Seq<char>) -> Option<Seq<char>> {
    if qname == "owl:Thing"@ {
        Some("http://www.w3.org/2002/07/owl#Thing"@)
    } else if qname == "owl:Nothing"@ {
        Some("http://www.w3.org/2002/07/owl#Nothing"@)
    } else {
        None
    }
}

/// `builtin_owl_typed_node_iri`.
pub fn builtin_owl_typed_node_iri(qname: &Vec<char>) -> (r: Option<Vec<char>>)
    ensures
        match r {
            Some(v) => builtin_owl_iri(qname@) == Some(v@),
            None => builtin_owl_iri(qname@) is None,
        },
{
    if vec_eq(qname, &chars_of("owl:Thing")) {
        Some(chars_of("http://www.w3.org/2002/07/owl#Thing"))
    } else if vec_eq(qname, &chars_of("owl:Nothing")) {
        Some(chars_of("http://www.w3.org/2002/07/owl#Nothing"))
    } else {
        None
    }
}

/// The class a name denotes: the built-in `owl:` IRIs, else the expanded prefixed name.
pub open spec fn class_iri_of(qname: Seq<char>, ns: Seq<(Seq<char>, Seq<char>)>) -> Option<
    Seq<char>,
> {
    match builtin_owl_iri(qname) {
        Some(i) => Some(i),
        None => expand_qname(qname, ns),
    }
}

fn class_iri_of_exec(qname: &Vec<char>, ns: &Namespaces) -> (r: Option<Vec<char>>)
    requires
        ns.wf(),
    ensures
        match r {
            Some(v) => class_iri_of(qname@, ns.entries()) == Some(v@),
            None => class_iri_of(qname@, ns.entries()) is None,
        },
{
    match builtin_owl_typed_node_iri(qname) {
        Some(i) => Some(i),
        None => expand_qname_exec(qname, ns),
    }
}

/// `typed_node_class_iri`: the class of a typed node element.
pub open spec fn typed_node_class(tag: Seq<char>, ns: Seq<(Seq<char>, Seq<char>)>) -> Option<
    Seq<char>,
> {
    if !is_typed_node(tag) {
        None
    } else {
        match element_qname(tag) {
            None => None,
            Some(q) => class_iri_of(q, ns),
        }
    }
}

/// `typed_node_class_iri`.
pub fn typed_node_class_iri(tag: &Vec<char>, ns: &Namespaces) -> (r: Option<Vec<char>>)
    requires
        ns.wf(),
    ensures
        match r {
            Some(v) => typed_node_class(tag@, ns.entries()) == Some(v@),
            None => typed_node_class(tag@, ns.entries()) is None,
        },
{
    if !is_typed_node_element(tag) {
        return None;
    }
    match element_qname_exec(tag) {
        None => None,
        Some(q) => class_iri_of_exec(&q, ns),
    }
}

/// The description that types a fresh node `iri` with `class`, keeping `inner` as its body.
pub open spec fn typed_description(iri: Seq<char>, class: Seq<char>, inner: Seq<char>) -> Seq<
    char,
> {
    "<rdf:Description rdf:about=\""@ + iri + "\">\n  <rdf:type rdf:resource=\""@ + class
        + "\"/>\n"@ + inner + "</rdf:Description>"@
}

pub fn typed_description_exec(iri: &Vec<char>, class: &Vec<char>, inner: &Vec<char>) -> (r: Vec<char>)
    ensures
        r@ == typed_description(iri@, class@, inner@),
{
    let mut out: Vec<char> = Vec::new();
    push_str(&mut out, "<rdf:Description rdf:about=\"");
    push_all(&mut out, iri);
    push_str(&mut out, "\">\n  <rdf:type rdf:resource=\"");
    push_all(&mut out, class);
    push_str(&mut out, "\"/>\n");
    push_all(&mut out, inner);
    push_str(&mut out, "</rdf:Description>");
    assert(out@ =~= typed_description(iri@, class@, inner@));
    out
}

/// The IRI of the `n`-th typed node: `{base}#_:tn{n}`.
pub open spec fn typed_node_iri(base: Seq<char>, n: nat) -> Seq<char> {
    base + "#_:tn"@ + decimal(n)
}

fn typed_node_iri_exec(base: &Vec<char>, n: usize) -> (r: Vec<char>)
    ensures
        r@ == typed_node_iri(base@, n as nat),
{
    let mut out = copy(base);
    push_str(&mut out, "#_:tn");
    push_decimal(&mut out, n);
    out
}

/// An element named `qname` whose name denotes a class becomes a
/// description of the `n`-th typed node with that type, keeping the element's content.
/// Nothing when the open tag names another element, the class is unknown, the close tag is
/// missing, or it lies before the end of the open tag.
pub open spec fn rewrite_typed_block(
    block: Seq<char>,
    qname: Seq<char>,
    ns: Seq<(Seq<char>, Seq<char>)>,
    base: Seq<char>,
    n: nat,
) -> Option<Seq<char>> {
    match find_from(block, 0, seq!['>']) {
        None => None,
        Some(oe) => if element_qname(block.subrange(0, oe + 1)) != Some(qname) {
            None
        } else {
            match class_iri_of(qname, ns) {
                None => None,
                Some(class) => match rfind(block, close_of(qname)) {
                    None => None,
                    Some(cs) => if cs < oe + 1 {
                        None
                    } else {
                        Some(typed_description(typed_node_iri(base, n), class, block.subrange(oe + 1, cs)))
                    },
                },
            }
        },
    }
}

fn rewrite_typed_block_exec(
    block: &Vec<char>,
    qname: &Vec<char>,
    ns: &Namespaces,
    base: &Vec<char>,
    n: usize,
) -> (r: Option<Vec<char>>)
    requires
        ns.wf(),
    ensures
        match r {
            Some(v) => rewrite_typed_block(block@, qname@, ns.entries(), base@, n as nat) == Some(v@),
            None => rewrite_typed_block(block@, qname@, ns.entries(), base@, n as nat) is None,
        },
{
    let gtv: Vec<char> = vec!['>'];
    assert(gtv@ =~= seq!['>']);
    let oe = match find(block, 0, &gtv) {
        None => return None,
        Some(o) => o,
    };
    proof {
        lemma_find_from_bounds(block@, 0, gtv@);
        assert(oe < block.len());
    }
    let open = slice(block, 0, oe + 1);
    match element_qname_exec(&open) {
        Some(q) => {
            if !vec_eq(&q, qname) {
                return None;
            }
        },
        None => return None,
    }
    let class = match class_iri_of_exec(qname, ns) {
        None => return None,
        Some(c) => c,
    };
    let (_, close) = open_close(qname);
    let cs = match rfind_exec(block, &close) {
        None => return None,
        Some(c) => c,
    };
    proof {
        lemma_rfind_bounds(block@, close@);
    }
    if cs < oe + 1 {
        return None;
    }
    let inner = slice(block, oe + 1, cs);
    let iri = typed_node_iri_exec(base, n);
    Some(typed_description_exec(&iri, &class, &inner))
}

} // verus!

verus! {

/// The walk of `materialize_typed_node_elements` from `pos`, with `n` typed nodes named so far.
pub open spec fn typed_walk(
    s: Seq<char>,
    ns: Seq<(Seq<char>, Seq<char>)>,
    base: Seq<char>,
    pos: int,
    n: nat,
) -> Seq<char>
    decreases s.len() - pos,
{
    if pos < 0 || pos >= s.len() {
        Seq::empty()
    } else {
        match find_from(s, pos, seq!['<']) {
            None => s.subrange(pos, s.len() as int),
            Some(st) => if st < pos || st >= s.len() {
                s.subrange(pos, s.len() as int)
            } else {
                let pre = s.subrange(pos, st);
                if matches_at(s, st, "</"@) || matches_at(s, st, "<!--"@) || matches_at(s, st, "<!"@)
                    || matches_at(s, st, "<?"@) {
                    let te = match find_from(s, st, seq!['>']) {
                        Some(g) => g + 1,
                        None => s.len() as int,
                    };
                    if te <= st || te >= s.len() {
                        pre + s.subrange(st, s.len() as int)
                    } else {
                        pre + s.subrange(st, te) + typed_walk(s, ns, base, te, n)
                    }
                } else {
                    match find_from(s, st, seq!['>']) {
                        None => pre + s.subrange(st, s.len() as int),
                        Some(g) => if g < st || g >= s.len() {
                            pre + s.subrange(st, s.len() as int)
                        } else {
                            let open_tag = s.subrange(st, g + 1);
                            let direct = nesting_depth_at(s, st) == 1;
                            let rest_after_tag = if g + 1 >= s.len() {
                                Seq::empty()
                            } else {
                                typed_walk(s, ns, base, g + 1, n)
                            };
                            if direct && is_typed_node(open_tag) && typed_node_class(open_tag, ns) is Some {
                                pre + typed_description(
                                    typed_node_iri(base, n + 1),
                                    typed_node_class(open_tag, ns)->0,
                                    Seq::empty(),
                                ) + (if g + 1 >= s.len() {
                                    Seq::empty()
                                } else {
                                    typed_walk(s, ns, base, g + 1, n + 1)
                                })
                            } else if element_qname(open_tag) is Some && direct && !ends_with(
                                trim_end(open_tag),
                                "/>"@,
                            ) {
                                let end = match element_end(s, st) {
                                    Some(e) => if e <= s.len() && e > st { e } else { g + 1 },
                                    None => g + 1,
                                };
                                match rewrite_typed_block(
                                    s.subrange(st, end),
                                    element_qname(open_tag)->0,
                                    ns,
                                    base,
                                    n + 1,
                                ) {
                                    Some(rw) => pre + rw + (if end >= s.len() {
                                        Seq::empty()
                                    } else {
                                        typed_walk(s, ns, base, end, n + 1)
                                    }),
                                    None => pre + open_tag + rest_after_tag,
                                }
                            } else {
                                pre + open_tag + rest_after_tag
                            }
                        },
                    }
                }
            },
        }
    }
}

/// `materialize_typed_node_elements`: typed node elements that are direct children of the
/// document element (`<ex:C/>`, or `<ex:C>...</ex:C>` with a class name) become descriptions of
/// fresh nodes `{base}#_:tn1`, `{base}#_:tn2`, ... typed with that class.
pub open spec fn typed_nodes_materialized(s: Seq<char>) -> Seq<char> {
    if !contains(s, seq!['<']) {
        s
    } else {
        typed_walk(s, xmlns_of(s), xml_base(s), 0, 0)
    }
}

/// Rewrite RDF/XML typed node elements (`<ex:C/>`) into explicit `rdf:type` descriptions.
///
/// The RDF/XML reader ignores this production; inconsistency fixtures use it for ABox
/// assertions such as `<oiled:Unsatisfiable/>` and `<owl:Nothing/>`.
pub fn materialize_typed_node_elements(input: &str) -> (r: String)
    ensures
        r@ == typed_nodes_materialized(input@),
{
    let s = chars_of(input);
    let out = typed_nodes_chars(&s);
    string_of(&out)
}

/// One step of the walk of `materialize_typed_node_elements` at `pos`: the text it emits, and
/// where the walk goes on (with the number of typed nodes named by then), if anywhere.
#[verifier::spinoff_prover]
fn typed_step(s: &Vec<char>, ns: &Namespaces, base: &Vec<char>, pos: usize, counter: usize) -> (r: (
    Vec<char>,
    Option<(usize, usize)>,
))
    requires
        ns.wf(),
        pos < s.len(),
        counter <= pos,
    ensures
        match r.1 {
            None => r.0@ == typed_walk(s@, ns.entries(), base@, pos as int, counter as nat),
            Some((np, nc)) => pos < np < s.len() && nc <= np && r.0@ + typed_walk(
                s@,
                ns.entries(),
                base@,
                np as int,
                nc as nat,
            ) == typed_walk(s@, ns.entries(), base@, pos as int, counter as nat),
        },
{
    let ltv: Vec<char> = vec!['<'];
    assert(ltv@ =~= seq!['<']);
    let gtv: Vec<char> = vec!['>'];
    assert(gtv@ =~= seq!['>']);
    let mut out: Vec<char> = Vec::new();
    let st = match find(s, pos, &ltv) {
        None => {
            push_range(&mut out, s, pos, s.len());
            return (out, None);
        },
        Some(x) => x,
    };
    proof {
        lemma_find_from_bounds(s@, pos as int, ltv@);
    }
    push_range(&mut out, s, pos, st);
    if at_lit(s, st, "</") || at_lit(s, st, "<!--") || at_lit(s, st, "<!") || at_lit(s, st, "<?") {
        let te = match find(s, st, &gtv) {
            Some(g) => {
                proof {
                    lemma_find_from_bounds(s@, st as int, gtv@);
                    assert(g < s.len());
                }
                g + 1
            },
            None => s.len(),
        };
        if te >= s.len() {
            push_range(&mut out, s, st, s.len());
            return (out, None);
        }
        push_range(&mut out, s, st, te);
        return (out, Some((te, counter)));
    }
    let g = match find(s, st, &gtv) {
        None => {
            push_range(&mut out, s, st, s.len());
            return (out, None);
        },
        Some(g) => g,
    };
    proof {
        lemma_find_from_bounds(s@, st as int, gtv@);
        assert(g < s.len());
    }
    let open_tag = slice(s, st, g + 1);
    let direct = rdf_document_nesting_depth_at(s, st) == 1;
    if direct && is_typed_node_element(&open_tag) {
        if let Some(class) = typed_node_class_iri(&open_tag, ns) {
            let iri = typed_node_iri_exec(base, counter + 1);
            let desc = typed_description_exec(&iri, &class, &Vec::new());
            push_all(&mut out, &desc);
            if g + 1 >= s.len() {
                return (out, None);
            }
            return (out, Some((g + 1, counter + 1)));
        }
    }
    let qn = element_qname_exec(&open_tag);
    let self_closing = crate::text::ends_with_exec(&trim_end_exec(&open_tag), &chars_of("/>"));
    if let Some(q) = qn {
        if direct && !self_closing {
            let end = match find_element_end(s, st) {
                Some(e) => if e <= s.len() { e } else { g + 1 },
                None => g + 1,
            };
            let block = slice(s, st, end);
            match rewrite_typed_block_exec(&block, &q, ns, base, counter + 1) {
                Some(rw) => {
                    push_all(&mut out, &rw);
                    if end >= s.len() {
                        return (out, None);
                    }
                    return (out, Some((end, counter + 1)));
                },
                None => {},
            }
        }
    }
    push_all(&mut out, &open_tag);
    if g + 1 >= s.len() {
        return (out, None);
    }
    (out, Some((g + 1, counter)))
}

/// `materialize_typed_node_elements` on a character vector.
pub fn typed_nodes_chars(s: &Vec<char>) -> (r: Vec<char>)
    ensures
        r@ == typed_nodes_materialized(s@),
{
    let ltv: Vec<char> = vec!['<'];
    assert(ltv@ =~= seq!['<']);
    if !crate::text::contains_exec(s, &ltv) {
        return copy(s);
    }
    let ns = xmlns_declarations(s);
    let base = parse_xml_base(s);
    let mut counter: usize = 0;
    let mut out: Vec<char> = Vec::new();
    let mut pos: usize = 0;
    while pos < s.len()
        invariant
            ns.wf(),
            ns.entries() == xmlns_of(s@),
            base@ == xml_base(s@),
            contains(s@, seq!['<']),
            counter <= pos,
            out@ + typed_walk(s@, ns.entries(), base@, pos as int, counter as nat)
                == typed_nodes_materialized(s@),
        decreases s.len() - pos,
    {
        let (piece, next) = typed_step(s, &ns, &base, pos, counter);
        push_all(&mut out, &piece);
        match next {
            None => {
                assert(out@ =~= typed_nodes_materialized(s@));
                return out;
            },
            Some((np, nc)) => {
                pos = np;
                counter = nc;
            },
        }
    }
    out
}

} // verus!

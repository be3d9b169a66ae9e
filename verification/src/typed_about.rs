//! Typed node elements with an `rdf:about`, rewritten as typed descriptions.
use vstd::prelude::*;

use crate::text::{at_lit, chars_of, contains, contains_lit, copy, ends_with, find, find_from, find_lit, lemma_find_from_bounds, lemma_rfind_bounds, matches_at, push_all, push_range, rfind, rfind_exec, slice, string_of, trim_end, trim_end_exec};
use crate::typed::{nesting_depth_at, rdf_document_nesting_depth_at, typed_description, typed_description_exec};
use crate::xml::{attribute, element_end, element_name, element_name_exec, element_qname, element_qname_exec, expand_qname, expand_qname_exec, extract_attribute, find_element_end, parse_xml_base, resolve_iri, resolve_relative_iri, xml_base, xmlns_declarations, xmlns_of, Namespaces, close_of};

verus! {

/// `<ex:C rdf:about="i">body</ex:C>` (or the self-closing form)
/// becomes a description of `i`, resolved against `base`, typed with the class `ex:C` expands
/// to, keeping the body.
pub open spec fn rewrite_typed_about(
    block: Seq<char>,
    ns: Seq<(Seq<char>, Seq<char>)>,
    base: Seq<char>,
) -> Option<Seq<char>> {
    match find_from(block, 0, seq!['>']) {
        None => None,
        Some(oe) => {
            let open = block.subrange(0, oe + 1);
            if element_qname(open) is None {
                None
            } else {
                match attribute(open, "rdf:about"@) {
                    None => None,
                    Some(about) => match element_name(open) {
                        None => None,
                        Some(qname) => match expand_qname(qname, ns) {
                            None => None,
                            Some(class) => {
                                let ind = resolve_iri(about, base);
                                if ends_with(trim_end(open), "/>"@) {
                                    Some(typed_description(ind, class, Seq::empty()))
                                } else {
                                    match rfind(block, close_of(qname)) {
                                        None => None,
                                        Some(cs) => if cs < oe + 1 {
                                            None
                                        } else {
                                            Some(
                                                typed_description(
                                                    ind,
                                                    class,
                                                    block.subrange(oe + 1, cs),
                                                ),
                                            )
                                        },
                                    }
                                }
                            },
                        },
                    },
                }
            }
        },
    }
}

fn rewrite_typed_about_exec(block: &Vec<char>, ns: &Namespaces, base: &Vec<char>) -> (r: Option<
    Vec<char>,
>)
    requires
        ns.wf(),
    ensures
        match r {
            Some(v) => rewrite_typed_about(block@, ns.entries(), base@) == Some(v@),
            None => rewrite_typed_about(block@, ns.entries(), base@) is None,
        },
{
    proof {
        reveal_strlit(">");
        assert(">"@ =~= seq!['>']);
    }
    let oe = match find_lit(block, 0, ">") {
        None => return None,
        Some(o) => o,
    };
    proof {
        lemma_find_from_bounds(block@, 0, seq!['>']);
        assert(oe < block.len());
    }
    let open = slice(block, 0, oe + 1);
    if element_qname_exec(&open).is_none() {
        return None;
    }
    let about = match extract_attribute(&open, "rdf:about") {
        None => return None,
        Some(a) => a,
    };
    let qname = match element_name_exec(&open) {
        None => return None,
        Some(q) => q,
    };
    let class = match expand_qname_exec(&qname, ns) {
        None => return None,
        Some(c) => c,
    };
    let ind = resolve_relative_iri(&about, base);
    if crate::text::ends_with_exec(&trim_end_exec(&open), &chars_of("/>")) {
        return Some(typed_description_exec(&ind, &class, &Vec::new()));
    }
    let (_, close) = crate::xml::open_close(&qname);
    let cs = match rfind_exec(block, &close) {
        None => return None,
        Some(c) => c,
    };
    proof {
        lemma_rfind_bounds(block@, close@);
    }
    if cs < oe + 1 {
        return None;
    }
    let inner = slice(block, oe + 1, cs);
    Some(typed_description_exec(&ind, &class, &inner))
}

/// The walk of `materialize_typed_about_elements` from `pos`.
pub open spec fn typed_about_walk(
    s: Seq<char>,
    ns: Seq<(Seq<char>, Seq<char>)>,
    base: Seq<char>,
    pos: int,
) -> Seq<char>
    decreases s.len() - pos,
{
    if pos < 0 || pos >= s.len() {
        Seq::empty()
    } else {
        match find_from(s, pos, seq!['<']) {
            None => s.subrange(pos, s.len() as int),
            Some(st) => if st < pos || st >= s.len() {
                s.subrange(pos, s.len() as int)
            } else {
                let pre = s.subrange(pos, st);
                if matches_at(s, st, "</"@) || matches_at(s, st, "<!--"@) || matches_at(s, st, "<!"@)
                    || matches_at(s, st, "<?"@) {
                    let te = match find_from(s, st, seq!['>']) {
                        Some(g) => g + 1,
                        None => s.len() as int,
                    };
                    if te <= st || te > s.len() {
                        pre + s.subrange(st, s.len() as int)
                    } else {
                        pre + s.subrange(st, te) + typed_about_walk(s, ns, base, te)
                    }
                } else {
                    match find_from(s, st, seq!['>']) {
                        None => pre + s.subrange(st, s.len() as int),
                        Some(g) => if g < st || g >= s.len() {
                            pre + s.subrange(st, s.len() as int)
                        } else {
                            let open_tag = s.subrange(st, g + 1);
                            let self_closing = ends_with(trim_end(open_tag), "/>"@);
                            let found_end = match element_end(s, st) {
                                Some(e) => if st < e && e <= s.len() {
                                    Some(e)
                                } else {
                                    None
                                },
                                None => None,
                            };
                            if !(attribute(open_tag, "rdf:about"@) is Some && element_qname(
                                open_tag,
                            ) is Some) {
                                let end = if self_closing {
                                    g + 1
                                } else {
                                    match found_end {
                                        Some(e) => e,
                                        None => g + 1,
                                    }
                                };
                                pre + s.subrange(st, end) + typed_about_walk(s, ns, base, end)
                            } else {
                                let end = if self_closing {
                                    g + 1
                                } else {
                                    match found_end {
                                        Some(e) => e,
                                        None => s.len() as int,
                                    }
                                };
                                let block = s.subrange(st, end);
                                pre + (if nesting_depth_at(s, st) == 1 && rewrite_typed_about(
                                    block,
                                    ns,
                                    base,
                                ) is Some {
                                    rewrite_typed_about(block, ns, base)->0
                                } else {
                                    block
                                }) + typed_about_walk(s, ns, base, end)
                            }
                        },
                    }
                }
            },
        }
    }
}

/// `materialize_typed_about_elements`: when the text mentions `rdf:about`, every element that
/// is a direct child of the document element, names a class (`ex:C`, `owl:Thing`,
/// `owl:Nothing`) and carries `rdf:about` becomes a typed description of that node.
pub open spec fn typed_about_materialized(s: Seq<char>) -> Seq<char> {
    if !contains(s, "rdf:about"@) {
        s
    } else {
        typed_about_walk(s, xmlns_of(s), xml_base(s), 0)
    }
}

/// One step of the walk of `materialize_typed_about_elements` at `pos`: the text it emits and
/// where the walk goes on, if anywhere.
#[verifier::spinoff_prover]
fn typed_about_step(s: &Vec<char>, ns: &Namespaces, base: &Vec<char>, pos: usize) -> (r: (
    Vec<char>,
    Option<usize>,
))
    requires
        ns.wf(),
        pos < s.len(),
    ensures
        match r.1 {
            None => r.0@ == typed_about_walk(s@, ns.entries(), base@, pos as int),
            Some(np) => pos < np < s.len() && r.0@ + typed_about_walk(
                s@,
                ns.entries(),
                base@,
                np as int,
            ) == typed_about_walk(s@, ns.entries(), base@, pos as int),
        },
{
    let ltv: Vec<char> = vec!['<'];
    assert(ltv@ =~= seq!['<']);
    let gtv: Vec<char> = vec!['>'];
    assert(gtv@ =~= seq!['>']);
    let mut out: Vec<char> = Vec::new();
    let st = match find(s, pos, &ltv) {
        None => {
            push_range(&mut out, s, pos, s.len());
            return (out, None);
        },
        Some(x) => x,
    };
    proof {
        lemma_find_from_bounds(s@, pos as int, ltv@);
    }
    push_range(&mut out, s, pos, st);
    if at_lit(s, st, "</") || at_lit(s, st, "<!--") || at_lit(s, st, "<!") || at_lit(s, st, "<?") {
        let te = match find(s, st, &gtv) {
            Some(g) => {
                proof {
                    lemma_find_from_bounds(s@, st as int, gtv@);
                    assert(g < s.len());
                }
                g + 1
            },
            None => s.len(),
        };
        push_range(&mut out, s, st, te);
        if te >= s.len() {
            proof {
                assert(typed_about_walk(s@, ns.entries(), base@, te as int) =~= Seq::<char>::empty());
                assert(out@ =~= out@ + typed_about_walk(s@, ns.entries(), base@, te as int));
            }
            return (out, None);
        }
        return (out, Some(te));
    }
    let g = match find(s, st, &gtv) {
        None => {
            push_range(&mut out, s, st, s.len());
            return (out, None);
        },
        Some(g) => g,
    };
    proof {
        lemma_find_from_bounds(s@, st as int, gtv@);
        assert(g < s.len());
    }
    let open_tag = slice(s, st, g + 1);
    let self_closing = crate::text::ends_with_exec(&trim_end_exec(&open_tag), &chars_of("/>"));
    let found_end = match find_element_end(s, st) {
        Some(e) => if e <= s.len() {
            Some(e)
        } else {
            None
        },
        None => None,
    };
    let candidate = extract_attribute(&open_tag, "rdf:about").is_some() && element_qname_exec(
        &open_tag,
    ).is_some();
    let end = if !candidate {
        if self_closing {
            g + 1
        } else {
            match found_end {
                Some(e) => e,
                None => g + 1,
            }
        }
    } else {
        if self_closing {
            g + 1
        } else {
            match found_end {
                Some(e) => e,
                None => s.len(),
            }
        }
    };
    let block = slice(s, st, end);
    if candidate && rdf_document_nesting_depth_at(s, st) == 1 {
        match rewrite_typed_about_exec(&block, ns, base) {
            Some(rw) => push_all(&mut out, &rw),
            None => push_all(&mut out, &block),
        }
    } else {
        push_all(&mut out, &block);
    }
    if end >= s.len() {
        proof {
            assert(typed_about_walk(s@, ns.entries(), base@, end as int) =~= Seq::<char>::empty());
            assert(out@ =~= out@ + typed_about_walk(s@, ns.entries(), base@, end as int));
        }
        return (out, None);
    }
    (out, Some(end))
}

/// Rewrite typed node elements that carry `rdf:about` into explicit `rdf:type` descriptions.
pub fn materialize_typed_about_elements(input: &str) -> (r: String)
    ensures
        r@ == typed_about_materialized(input@),
{
    let s = chars_of(input);
    let out = typed_about_chars(&s);
    string_of(&out)
}

/// `materialize_typed_about_elements` on a character vector.
pub fn typed_about_chars(s: &Vec<char>) -> (r: Vec<char>)
    ensures
        r@ == typed_about_materialized(s@),
{
    if !contains_lit(s, "rdf:about") {
        return copy(s);
    }
    let ns = xmlns_declarations(s);
    let base = parse_xml_base(s);
    let mut out: Vec<char> = Vec::new();
    let mut pos: usize = 0;
    while pos < s.len()
        invariant
            ns.wf(),
            ns.entries() == xmlns_of(s@),
            base@ == xml_base(s@),
            contains(s@, "rdf:about"@),
            out@ + typed_about_walk(s@, ns.entries(), base@, pos as int)
                == typed_about_materialized(s@),
        decreases s.len() - pos,
    {
        let (piece, next) = typed_about_step(s, &ns, &base, pos);
        push_all(&mut out, &piece);
        match next {
            None => {
                assert(out@ =~= typed_about_materialized(s@));
                return out;
            },
            Some(np) => {
                pos = np;
            },
        }
    }
    assert(out@ =~= out@ + typed_about_walk(s@, ns.entries(), base@, pos as int));
    out
}

} // verus!

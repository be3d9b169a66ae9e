//! `owl:sameAs` between classes, rewritten as `owl:equivalentClass`.
use vstd::prelude::*;

use crate::text::{chars_of, contains, contains_lit, copy, ends_with, find_from, find_lit, lemma_find_from_bounds, lemma_rfind_bounds, matches_at, push_all, push_range, push_str, rfind, rfind_lit, slice, string_of, trim, trim_end, trim_end_exec, trim_exec, trim_start, trim_start_exec};
use crate::xml::{attribute, extract_attribute, find_top_level_lit, resolve_iri, resolve_relative_iri, tag_element_end, tagged_end, top_level_element, xml_base, parse_xml_base};

verus! {

/// The class an open tag names, by `rdf:about` (resolved against
/// `base`) or else by `rdf:ID` (as `{base}#{id}`).
pub open spec fn class_iri_from_tag(open_tag: Seq<char>, base: Seq<char>) -> Option<Seq<char>> {
    match attribute(open_tag, "rdf:about"@) {
        Some(about) => Some(resolve_iri(about, base)),
        None => match attribute(open_tag, "rdf:ID"@) {
            Some(id) => Some(base + seq!['#'] + id),
            None => None,
        },
    }
}

fn class_iri_from_tag_exec(open_tag: &Vec<char>, base: &Vec<char>) -> (r: Option<Vec<char>>)
    ensures
        match r {
            Some(v) => class_iri_from_tag(open_tag@, base@) == Some(v@),
            None => class_iri_from_tag(open_tag@, base@) is None,
        },
{
    if let Some(about) = extract_attribute(open_tag, "rdf:about") {
        return Some(resolve_relative_iri(&about, base));
    }
    if let Some(id) = extract_attribute(open_tag, "rdf:ID") {
        let mut out = copy(base);
        out.push('#');
        push_all(&mut out, &id);
        return Some(out);
    }
    None
}

/// The class that the top-level `owl:sameAs` of a class body
/// points at, by `rdf:resource` or by a nested `owl:Class` element.
pub open spec fn same_as_partner(inner: Seq<char>, base: Seq<char>) -> Option<Seq<char>> {
    match top_level_element(inner, "owl:sameAs"@) {
        None => None,
        Some((a, e)) => {
            let same = inner.subrange(a, e);
            match find_from(same, 0, seq!['>']) {
                None => None,
                Some(oe) => {
                    let open_tag = same.subrange(0, oe + 1);
                    match attribute(open_tag, "rdf:resource"@) {
                        Some(res) => Some(resolve_iri(res, base)),
                        None => if ends_with(open_tag, "/>"@) {
                            None
                        } else {
                            match rfind(same, "</owl:sameAs>"@) {
                                None => None,
                                Some(ie) => if ie < oe + 1 {
                                    None
                                } else {
                                    let same_inner = same.subrange(oe + 1, ie);
                                    match find_from(same_inner, 0, "<owl:Class"@) {
                                        None => None,
                                        Some(cs) => match find_from(same_inner, cs, seq!['>']) {
                                            None => None,
                                            Some(ce) => class_iri_from_tag(
                                                same_inner.subrange(cs, ce + 1),
                                                base,
                                            ),
                                        },
                                    }
                                },
                            }
                        },
                    }
                },
            }
        },
    }
}

fn same_as_partner_exec(inner: &Vec<char>, base: &Vec<char>) -> (r: Option<Vec<char>>)
    ensures
        match r {
            Some(v) => same_as_partner(inner@, base@) == Some(v@),
            None => same_as_partner(inner@, base@) is None,
        },
{
    proof {
        reveal_strlit(">");
        assert(">"@ =~= seq!['>']);
    }
    let (a, e) = match find_top_level_lit(inner, "owl:sameAs") {
        None => return None,
        Some(b) => b,
    };
    let same = slice(inner, a, e);
    let oe = match find_lit(&same, 0, ">") {
        None => return None,
        Some(o) => o,
    };
    proof {
        lemma_find_from_bounds(same@, 0, seq!['>']);
        assert(oe < same.len());
    }
    let open_tag = slice(&same, 0, oe + 1);
    if let Some(res) = extract_attribute(&open_tag, "rdf:resource") {
        return Some(resolve_relative_iri(&res, base));
    }
    if crate::text::ends_with_exec(&open_tag, &chars_of("/>")) {
        return None;
    }
    let ie = match rfind_lit(&same, "</owl:sameAs>") {
        None => return None,
        Some(i) => i,
    };
    proof {
        lemma_rfind_bounds(same@, "</owl:sameAs>"@);
    }
    if ie < oe + 1 {
        return None;
    }
    let same_inner = slice(&same, oe + 1, ie);
    let cs = match find_lit(&same_inner, 0, "<owl:Class") {
        None => return None,
        Some(c) => c,
    };
    proof {
        lemma_find_from_bounds(same_inner@, 0, "<owl:Class"@);
    }
    let ce = match find_lit(&same_inner, cs, ">") {
        None => return None,
        Some(c) => c,
    };
    proof {
        lemma_find_from_bounds(same_inner@, cs as int, seq!['>']);
        assert(ce < same_inner.len());
    }
    let tag = slice(&same_inner, cs, ce + 1);
    class_iri_from_tag_exec(&tag, base)
}

/// An `owl:Class` element whose body holds a top-level
/// `owl:sameAs` naming another class gets that child replaced by an `owl:equivalentClass` of the
/// named class, placed after the rest of the body; other blocks stay as they are.
pub open spec fn rewrite_same_as_block(block: Seq<char>, base: Seq<char>) -> Seq<char> {
    match find_from(block, 0, seq!['>']) {
        None => block,
        Some(g) => match rfind(block, "</owl:Class>"@) {
            None => block,
            Some(cs) => if g + 1 > cs {
                block
            } else {
                let inner = block.subrange(g + 1, cs);
                match same_as_partner(inner, base) {
                    None => block,
                    Some(partner) => match top_level_element(inner, "owl:sameAs"@) {
                        None => block,
                        Some((ss, se)) => {
                            let head = trim_end(inner.subrange(0, ss));
                            let rem = head + (if head.len() > 0 {
                                seq!['\n']
                            } else {
                                Seq::empty()
                            }) + trim_start(inner.subrange(se, inner.len() as int));
                            block.subrange(0, g + 1) + (if trim(rem).len() > 0 {
                                trim_end(rem) + seq!['\n']
                            } else {
                                Seq::empty()
                            }) + "  <owl:equivalentClass>\n    <owl:Class rdf:about=\""@ + partner
                                + "\"/>\n  </owl:equivalentClass>\n"@ + block.subrange(
                                cs,
                                block.len() as int,
                            )
                        },
                    },
                }
            },
        },
    }
}

fn rewrite_same_as_block_exec(block: &Vec<char>, base: &Vec<char>) -> (r: Vec<char>)
    ensures
        r@ == rewrite_same_as_block(block@, base@),
{
    proof {
        reveal_strlit(">");
        assert(">"@ =~= seq!['>']);
    }
    let g = match find_lit(block, 0, ">") {
        None => return copy(block),
        Some(g) => g,
    };
    proof {
        lemma_find_from_bounds(block@, 0, seq!['>']);
        assert(g < block.len());
    }
    let cs = match rfind_lit(block, "</owl:Class>") {
        None => return copy(block),
        Some(cs) => cs,
    };
    proof {
        lemma_rfind_bounds(block@, "</owl:Class>"@);
    }
    if g + 1 > cs {
        return copy(block);
    }
    let inner = slice(block, g + 1, cs);
    let partner = match same_as_partner_exec(&inner, base) {
        None => return copy(block),
        Some(p) => p,
    };
    let (ss, se) = match find_top_level_lit(&inner, "owl:sameAs") {
        None => return copy(block),
        Some(b) => b,
    };
    let head = trim_end_exec(&slice(&inner, 0, ss));
    let mut rem = copy(&head);
    if head.len() > 0 {
        rem.push('\n');
    }
    let tail = trim_start_exec(&slice(&inner, se, inner.len()));
    push_all(&mut rem, &tail);
    let mut out = slice(block, 0, g + 1);
    let rt = trim_exec(&rem);
    if rt.len() > 0 {
        let re = trim_end_exec(&rem);
        push_all(&mut out, &re);
        out.push('\n');
    }
    push_str(&mut out, "  <owl:equivalentClass>\n    <owl:Class rdf:about=\"");
    push_all(&mut out, &partner);
    push_str(&mut out, "\"/>\n  </owl:equivalentClass>\n");
    push_range(&mut out, block, cs, block.len());
    proof {
        let h = trim_end(inner@.subrange(0, ss as int));
        let r = h + (if h.len() > 0 {
            seq!['\n']
        } else {
            Seq::empty()
        }) + trim_start(inner@.subrange(se as int, inner@.len() as int));
        assert(rem@ =~= r);
        let mid = if trim(r).len() > 0 {
            trim_end(r) + seq!['\n']
        } else {
            Seq::empty()
        };
        assert(out@ =~= block@.subrange(0, g + 1) + mid
            + "  <owl:equivalentClass>\n    <owl:Class rdf:about=\""@ + partner@
            + "\"/>\n  </owl:equivalentClass>\n"@ + block@.subrange(cs as int, block@.len() as int));
    }
    out
}

/// The walk over `<owl:Class` elements from `pos`, rewriting each closed one with
/// `rewrite_same_as_block` and copying everything else.
pub open spec fn same_as_walk(input: Seq<char>, base: Seq<char>, pos: int) -> Seq<char>
    decreases input.len() - pos,
{
    if pos < 0 || pos > input.len() {
        Seq::empty()
    } else {
        match find_from(input, pos, "<owl:Class"@) {
            None => input.subrange(pos, input.len() as int),
            Some(start) => if start < pos || start >= input.len() {
                input.subrange(pos, input.len() as int)
            } else {
                match tagged_end(input, start, "owl:Class"@) {
                    None => input.subrange(pos, input.len() as int),
                    Some(end) => if end <= start || end > input.len() {
                        input.subrange(pos, input.len() as int)
                    } else {
                        input.subrange(pos, start) + rewrite_same_as_block(
                            input.subrange(start, end),
                            base,
                        ) + same_as_walk(input, base, end)
                    },
                }
            },
        }
    }
}

/// `normalize_class_same_as`: when the text holds both `<owl:Class` and `owl:sameAs`, every
/// closed `owl:Class` element is rewritten by `rewrite_same_as_block`, with relative IRIs
/// resolved against the document's `xml:base`.
pub open spec fn class_same_as_normalized(input: Seq<char>) -> Seq<char> {
    if !contains(input, "<owl:Class"@) || !contains(input, "owl:sameAs"@) {
        input
    } else {
        same_as_walk(input, xml_base(input), 0)
    }
}

/// Rewrite `owl:sameAs` between classes into `owl:equivalentClass`.
///
/// The RDF/XML reader reads `owl:sameAs` only between individuals; between classes the OWL 2
/// mapping means class equivalence.
pub fn normalize_class_same_as(input: &str) -> (r: String)
    ensures
        r@ == class_same_as_normalized(input@),
{
    let s = chars_of(input);
    let out = class_same_as_chars(&s);
    string_of(&out)
}

/// `normalize_class_same_as` on a character vector.
pub fn class_same_as_chars(s: &Vec<char>) -> (r: Vec<char>)
    ensures
        r@ == class_same_as_normalized(s@),
{
    if !contains_lit(s, "<owl:Class") || !contains_lit(s, "owl:sameAs") {
        return copy(s);
    }
    let base = parse_xml_base(s);
    let tag = chars_of("owl:Class");
    let mut out: Vec<char> = Vec::new();
    let mut pos: usize = 0;
    assert(out@ + same_as_walk(s@, base@, 0) =~= same_as_walk(s@, base@, 0));
    loop
        invariant
            pos <= s.len(),
            tag@ == "owl:Class"@,
            base@ == xml_base(s@),
            contains(s@, "<owl:Class"@),
            contains(s@, "owl:sameAs"@),
            out@ + same_as_walk(s@, base@, pos as int) == class_same_as_normalized(s@),
        decreases s.len() - pos,
    {
        let start = match find_lit(s, pos, "<owl:Class") {
            None => {
                push_range(&mut out, s, pos, s.len());
                assert(out@ =~= class_same_as_normalized(s@));
                return out;
            },
            Some(st) => st,
        };
        proof {
            lemma_find_from_bounds(s@, pos as int, "<owl:Class"@);
        }
        if start >= s.len() {
            push_range(&mut out, s, pos, s.len());
            assert(out@ =~= class_same_as_normalized(s@));
            return out;
        }
        let end = match tag_element_end(s, start, &tag) {
            None => {
                push_range(&mut out, s, pos, s.len());
                assert(out@ =~= class_same_as_normalized(s@));
                return out;
            },
            Some(e) => e,
        };
        let ghost before = out@;
        push_range(&mut out, s, pos, start);
        let block = slice(s, start, end);
        let rewritten = rewrite_same_as_block_exec(&block, &base);
        push_all(&mut out, &rewritten);
        proof {
            assert(out@ + same_as_walk(s@, base@, end as int) =~= before + same_as_walk(
                s@,
                base@,
                pos as int,
            ));
        }
        pos = end;
    }
}


/// A class whose body holds a top-level `owl:sameAs` with `rdf:resource="r"` gets an
/// `owl:equivalentClass` naming `r` resolved against the base, inside the class element: the
/// rewritten block keeps the class's open tag first and its closing tag last, and holds the
/// equivalence.
pub proof fn lemma_resource_same_as_becomes_equivalence(
    block: Seq<char>,
    base: Seq<char>,
    g: int,
    cs: int,
    ss: int,
    se: int,
    oe: int,
    r: Seq<char>,
)
    requires
        find_from(block, 0, seq!['>']) == Some(g),
        rfind(block, "</owl:Class>"@) == Some(cs),
        g + 1 <= cs,
        top_level_element(block.subrange(g + 1, cs), "owl:sameAs"@) == Some((ss, se)),
        find_from(block.subrange(g + 1, cs).subrange(ss, se), 0, seq!['>']) == Some(oe),
        attribute(block.subrange(g + 1, cs).subrange(ss, se).subrange(0, oe + 1), "rdf:resource"@)
            == Some(r),
    ensures
        contains(
            rewrite_same_as_block(block, base),
            "  <owl:equivalentClass>\n    <owl:Class rdf:about=\""@ + resolve_iri(r, base)
                + "\"/>\n  </owl:equivalentClass>\n"@,
        ),
        rewrite_same_as_block(block, base).subrange(0, g + 1) == block.subrange(0, g + 1),
        rewrite_same_as_block(block, base).len() >= block.len() - cs,
        rewrite_same_as_block(block, base).subrange(
            rewrite_same_as_block(block, base).len() - (block.len() - cs),
            rewrite_same_as_block(block, base).len() as int,
        ) == block.subrange(cs, block.len() as int),
{
    let inner = block.subrange(g + 1, cs);
    crate::xml::lemma_top_level_scan_bounds(inner, "owl:sameAs"@, 0);
    lemma_find_from_bounds(block, 0, seq!['>']);
    lemma_rfind_bounds(block, "</owl:Class>"@);
    lemma_find_from_bounds(inner.subrange(ss, se), 0, seq!['>']);
    let partner = resolve_iri(r, base);
    assert(same_as_partner(inner, base) == Some(partner));
    let head = trim_end(inner.subrange(0, ss));
    let rem = head + (if head.len() > 0 { seq!['\n'] } else { Seq::empty() }) + trim_start(
        inner.subrange(se, inner.len() as int),
    );
    let pre = block.subrange(0, g + 1) + (if trim(rem).len() > 0 {
        trim_end(rem) + seq!['\n']
    } else {
        Seq::empty()
    });
    let eq = "  <owl:equivalentClass>\n    <owl:Class rdf:about=\""@ + partner
        + "\"/>\n  </owl:equivalentClass>\n"@;
    let tail = block.subrange(cs, block.len() as int);
    let out = rewrite_same_as_block(block, base);
    assert(out =~= pre + eq + tail);
    assert((pre + eq + tail).subrange(pre.len() as int, (pre.len() + eq.len()) as int) =~= eq);
    assert(matches_at(out, pre.len() as int, eq));
    assert(out.subrange(0, g + 1) =~= block.subrange(0, g + 1));
    assert(out.subrange(out.len() - tail.len(), out.len() as int) =~= tail);
}
} // verus!

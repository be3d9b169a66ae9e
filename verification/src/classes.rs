//! Rewrites of `owl:Class` elements that the RDF/XML reader does not understand directly.
use vstd::prelude::*;

use crate::text::{chars_of, contains, contains_lit, ends_with, find_from, find_lit, lemma_find_from_bounds, lemma_rfind_bounds, push_all, push_range, push_str, rfind, rfind_lit, slice, string_of, trim, trim_end, trim_end_exec, trim_exec, copy, ends_with_char};
use crate::xml::{element_inner, element_inner_lit, find_top_level_lit, skip_ascii_ws, skip_ascii_ws_exec, tag_name_at, tag_name_exec, tag_element_end, tagged_end, top_level_element};

verus! {

/// `first` inserted on its own line right after the open
/// tag of `intersection`.
pub open spec fn merge_first_member(intersection: Seq<char>, first: Seq<char>) -> Seq<char> {
    if first.len() == 0 {
        intersection
    } else {
        match find_from(intersection, 0, seq!['>']) {
            None => intersection,
            Some(g) => intersection.subrange(0, g + 1) + seq!['\n'] + first + (if ends_with(
                first,
                seq!['\n'],
            ) {
                Seq::empty()
            } else {
                seq!['\n']
            }) + intersection.subrange(g + 1, intersection.len() as int),
        }
    }
}

fn merge_first_member_exec(intersection: &Vec<char>, first: &Vec<char>) -> (r: Vec<char>)
    ensures
        r@ == merge_first_member(intersection@, first@),
{
    proof {
        reveal_strlit(">");
        assert(">"@ =~= seq!['>']);
    }
    if first.len() == 0 {
        return copy(intersection);
    }
    let g = match find_lit(intersection, 0, ">") {
        None => return copy(intersection),
        Some(g) => g,
    };
    proof {
        lemma_find_from_bounds(intersection@, 0, seq!['>']);
        assert(g < intersection.len());
    }
    let mut out = slice(intersection, 0, g + 1);
    out.push('\n');
    push_all(&mut out, first);
    let ends_nl = ends_with_char(first, '\n');
    if !ends_nl {
        out.push('\n');
    }
    push_range(&mut out, intersection, g + 1, intersection.len());
    proof {
        let tail = intersection@.subrange(g + 1, intersection@.len() as int);
        if ends_with(first@, seq!['\n']) {
            assert(out@ =~= intersection@.subrange(0, g + 1) + seq!['\n'] + first@ + Seq::empty()
                + tail);
        } else {
            assert(out@ =~= intersection@.subrange(0, g + 1) + seq!['\n'] + first@ + seq!['\n']
                + tail);
        }
    }
    out
}

/// The sibling-element walk of an intersection rewrite from `pos`, keeping every
/// element other than the intersection and the equivalence, each followed by a newline unless
/// the kept text already ends with one.  `None` when the content holds text or an unclosed
/// element, in which case the block is left as it was.
pub open spec fn remainder_scan(
    inner: Seq<char>,
    pos: int,
    skip1: (int, int),
    skip2: Option<(int, int)>,
    acc: Seq<char>,
) -> Option<Seq<char>>
    decreases inner.len() - pos,
{
    let p = skip_ascii_ws(inner, pos);
    if pos < 0 || p < pos || p >= inner.len() {
        Some(acc)
    } else if inner[p] != '<' {
        None
    } else {
        match tagged_end(inner, p, tag_name_at(inner, p)) {
            None => None,
            Some(e) => if e <= p || e > inner.len() {
                None
            } else {
                let keep = (p, e) != skip1 && match skip2 {
                    Some(q) => (p, e) != q,
                    None => true,
                };
                let acc2 = if keep {
                    let a = acc + inner.subrange(p, e);
                    if ends_with(a, seq!['\n']) {
                        a
                    } else {
                        a.push('\n')
                    }
                } else {
                    acc
                };
                remainder_scan(inner, e, skip1, skip2, acc2)
            },
        }
    }
}

/// An `owl:Class` element whose content holds a top-level
/// `owl:intersectionOf` gets it moved under `owl:equivalentClass` (merging the first member of
/// an existing top-level `owl:equivalentClass` into the intersection); other blocks stay.
pub open spec fn rewrite_intersection_block(block: Seq<char>) -> Seq<char> {
    match find_from(block, 0, seq!['>']) {
        None => block,
        Some(g) => match rfind(block, "</owl:Class>"@) {
            None => block,
            Some(cs) => if g + 1 > cs {
                block
            } else {
                let open_end = g + 1;
                let inner = block.subrange(open_end, cs);
                match top_level_element(inner, "owl:intersectionOf"@) {
                    None => block,
                    Some((is, ie)) => {
                        let equiv = top_level_element(inner, "owl:equivalentClass"@);
                        match remainder_scan(inner, 0, (is, ie), equiv, Seq::empty()) {
                            None => block,
                            Some(rem) => {
                                let intersection = inner.subrange(is, ie);
                                let merged = match equiv {
                                    Some((es, ee)) => merge_first_member(
                                        intersection,
                                        element_inner(inner.subrange(es, ee), "owl:equivalentClass"@),
                                    ),
                                    None => intersection,
                                };
                                block.subrange(0, open_end) + (if trim(rem).len() > 0 {
                                    trim_end(rem) + seq!['\n']
                                } else {
                                    Seq::empty()
                                }) + "  <owl:equivalentClass>\n    <owl:Class>\n      "@ + merged
                                    + "\n    </owl:Class>\n  </owl:equivalentClass>\n"@
                                    + block.subrange(cs, block.len() as int)
                            },
                        }
                    },
                }
            },
        },
    }
}

fn remainder_exec(
    inner: &Vec<char>,
    skip1: (usize, usize),
    skip2: Option<(usize, usize)>,
) -> (r: Option<Vec<char>>)
    ensures
        match r {
            Some(v) => remainder_scan(
                inner@,
                0,
                (skip1.0 as int, skip1.1 as int),
                match skip2 {
                    Some((a, b)) => Some((a as int, b as int)),
                    None => None,
                },
                Seq::empty(),
            ) == Some(v@),
            None => remainder_scan(
                inner@,
                0,
                (skip1.0 as int, skip1.1 as int),
                match skip2 {
                    Some((a, b)) => Some((a as int, b as int)),
                    None => None,
                },
                Seq::empty(),
            ) is None,
        },
{
    let ghost s1 = (skip1.0 as int, skip1.1 as int);
    let ghost s2 = match skip2 {
        Some((a, b)) => Some((a as int, b as int)),
        None => None,
    };
    let mut rem: Vec<char> = Vec::new();
    let mut pos: usize = 0;
    while pos < inner.len()
        invariant
            pos <= inner.len(),
            s1 == (skip1.0 as int, skip1.1 as int),
            s2 == match skip2 {
                Some((a, b)) => Some((a as int, b as int)),
                None => None::<(int, int)>,
            },
            remainder_scan(inner@, 0, s1, s2, Seq::empty()) == remainder_scan(
                inner@,
                pos as int,
                s1,
                s2,
                rem@,
            ),
        decreases inner.len() - pos,
    {
        let p = skip_ascii_ws_exec(inner, pos);
        if p >= inner.len() {
            return Some(rem);
        }
        if inner[p] != '<' {
            return None;
        }
        let name = tag_name_exec(inner, p);
        let e = match tag_element_end(inner, p, &name) {
            None => return None,
            Some(e) => e,
        };
        let keep = (p != skip1.0 || e != skip1.1) && match skip2 {
            Some((a, b)) => p != a || e != b,
            None => true,
        };
        if keep {
            push_range(&mut rem, inner, p, e);
            if !ends_with_char(&rem, '\n') {
                rem.push('\n');
            }
        }
        pos = e;
    }
    Some(rem)
}

fn rewrite_intersection_block_exec(block: &Vec<char>) -> (r: Vec<char>)
    ensures
        r@ == rewrite_intersection_block(block@),
{
    proof {
        reveal_strlit(">");
        assert(">"@ =~= seq!['>']);
    }
    let g = match find_lit(block, 0, ">") {
        None => return copy(block),
        Some(g) => g,
    };
    proof {
        lemma_find_from_bounds(block@, 0, seq!['>']);
        assert(g < block.len());
    }
    let cs = match rfind_lit(block, "</owl:Class>") {
        None => return copy(block),
        Some(cs) => cs,
    };
    proof {
        lemma_rfind_bounds(block@, "</owl:Class>"@);
    }
    if g + 1 > cs {
        return copy(block);
    }
    let open_end = g + 1;
    let inner = slice(block, open_end, cs);
    let (is, ie) = match find_top_level_lit(&inner, "owl:intersectionOf") {
        None => return copy(block),
        Some(b) => b,
    };
    let equiv = find_top_level_lit(&inner, "owl:equivalentClass");
    let rem = match remainder_exec(&inner, (is, ie), equiv) {
        None => return copy(block),
        Some(r) => r,
    };
    let intersection = slice(&inner, is, ie);
    let merged = match equiv {
        Some((es, ee)) => {
            let eq_block = slice(&inner, es, ee);
            let first = element_inner_lit(&eq_block, "owl:equivalentClass");
            merge_first_member_exec(&intersection, &first)
        },
        None => intersection,
    };
    let mut out = slice(block, 0, open_end);
    let rt = trim_exec(&rem);
    if rt.len() > 0 {
        let re = trim_end_exec(&rem);
        push_all(&mut out, &re);
        out.push('\n');
    }
    push_str(&mut out, "  <owl:equivalentClass>\n    <owl:Class>\n      ");
    push_all(&mut out, &merged);
    push_str(&mut out, "\n    </owl:Class>\n  </owl:equivalentClass>\n");
    push_range(&mut out, block, cs, block.len());
    proof {
        let mid = if trim(rem@).len() > 0 {
            trim_end(rem@) + seq!['\n']
        } else {
            Seq::empty()
        };
        assert(out@ =~= block@.subrange(0, open_end as int) + mid
            + "  <owl:equivalentClass>\n    <owl:Class>\n      "@ + merged@
            + "\n    </owl:Class>\n  </owl:equivalentClass>\n"@ + block@.subrange(
            cs as int,
            block@.len() as int,
        ));
    }
    out
}

} // verus!

verus! {

/// The walk over `<owl:Class` elements from `pos`, rewriting each closed one with
/// `rewrite_intersection_block` and copying everything else.
pub open spec fn intersection_walk(input: Seq<char>, pos: int) -> Seq<char>
    decreases input.len() - pos,
{
    if pos < 0 || pos > input.len() {
        Seq::empty()
    } else {
        match find_from(input, pos, "<owl:Class"@) {
            None => input.subrange(pos, input.len() as int),
            Some(start) => if start < pos || start >= input.len() {
                input.subrange(pos, input.len() as int)
            } else {
                match tagged_end(input, start, "owl:Class"@) {
                    None => input.subrange(pos, input.len() as int),
                    Some(end) => if end <= start || end > input.len() {
                        input.subrange(pos, input.len() as int)
                    } else {
                        input.subrange(pos, start) + rewrite_intersection_block(
                            input.subrange(start, end),
                        ) + intersection_walk(input, end)
                    },
                }
            },
        }
    }
}

/// `normalize_class_intersection_definitions`: when the text holds both `<owl:Class` and
/// `owl:intersectionOf`, every closed `owl:Class` element is rewritten so that a direct
/// `owl:intersectionOf` child becomes an `owl:equivalentClass` of an anonymous class.
pub open spec fn class_intersections_normalized(input: Seq<char>) -> Seq<char> {
    if !contains(input, "<owl:Class"@) || !contains(input, "owl:intersectionOf"@) {
        input
    } else {
        intersection_walk(input, 0)
    }
}

/// Normalize `owl:intersectionOf` on `owl:Class` into `owl:equivalentClass` form.
///
/// The RDF/XML reader drops the class-expression shortcut where `intersectionOf` is a direct
/// child of `owl:Class`.
pub fn normalize_class_intersection_definitions(input: &str) -> (r: String)
    ensures
        r@ == class_intersections_normalized(input@),
{
    let s = chars_of(input);
    let out = normalize_class_intersections_chars(&s);
    string_of(&out)
}

/// `normalize_class_intersection_definitions` on a character vector.
pub fn normalize_class_intersections_chars(s: &Vec<char>) -> (r: Vec<char>)
    ensures
        r@ == class_intersections_normalized(s@),
{
    if !contains_lit(s, "<owl:Class") || !contains_lit(s, "owl:intersectionOf") {
        return copy(s);
    }
    let tag = chars_of("owl:Class");
    let mut out: Vec<char> = Vec::new();
    let mut pos: usize = 0;
    assert(out@ + intersection_walk(s@, 0) =~= intersection_walk(s@, 0));
    loop
        invariant
            pos <= s.len(),
            tag@ == "owl:Class"@,
            out@ + intersection_walk(s@, pos as int) == class_intersections_normalized(s@),
        decreases s.len() - pos,
    {
        let start = match find_lit(s, pos, "<owl:Class") {
            None => {
                push_range(&mut out, s, pos, s.len());
                proof {
                    assert(out@ =~= class_intersections_normalized(s@));
                }
                return out;
            },
            Some(st) => st,
        };
        proof {
            lemma_find_from_bounds(s@, pos as int, "<owl:Class"@);
        }
        if start >= s.len() {
            push_range(&mut out, s, pos, s.len());
            assert(out@ =~= class_intersections_normalized(s@));
            return out;
        }
        let end = match tag_element_end(s, start, &tag) {
            None => {
                push_range(&mut out, s, pos, s.len());
                assert(out@ =~= class_intersections_normalized(s@));
                return out;
            },
            Some(e) => e,
        };
        let ghost before = out@;
        push_range(&mut out, s, pos, start);
        let block = slice(s, start, end);
        let rewritten = rewrite_intersection_block_exec(&block);
        push_all(&mut out, &rewritten);
        proof {
            assert(out@ + intersection_walk(s@, end as int) =~= before + intersection_walk(
                s@,
                pos as int,
            ));
        }
        pos = end;
    }
}

} // verus!

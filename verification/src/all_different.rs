//! `owl:AllDifferent`: member collections renamed and member descriptions flattened.
use vstd::prelude::*;

use crate::descriptions::{desc_end, desc_end_chars, lemma_desc_end_after};
use crate::text::{chars_of, contains, contains_lit, copy, find_from, find_lit, lemma_find_from_bounds, push_all, push_range, push_str, replace_all, replace_lit, slice, string_of, trim_start, trim_start_exec};
use crate::xml::{attribute, extract_attribute};

verus! {

/// `remove_attribute`: the tag without its first `attr="..."` (and the whitespace after it).
pub open spec fn remove_attribute(tag: Seq<char>, attr: Seq<char>) -> Seq<char> {
    let marker = attr + "=\""@;
    match find_from(tag, 0, marker) {
        None => tag,
        Some(i) => match find_from(tag, i + marker.len(), seq!['"']) {
            None => tag,
            Some(ve) => tag.subrange(0, i) + trim_start(tag.subrange(ve + 1, tag.len() as int)),
        },
    }
}

fn remove_attribute_exec(tag: &Vec<char>, attr: &str) -> (r: Vec<char>)
    ensures
        r@ == remove_attribute(tag@, attr@),
{
    let mut marker = chars_of(attr);
    marker.push('=');
    marker.push('"');
    proof {
        reveal_strlit("=\"");
        assert(marker@ =~= attr@ + "=\""@);
    }
    let i = match crate::text::find(tag, 0, &marker) {
        None => return copy(tag),
        Some(i) => i,
    };
    proof {
        lemma_find_from_bounds(tag@, 0, marker@);
        assert(i + marker.len() <= tag.len());
    }
    let q: Vec<char> = vec!['"'];
    assert(q@ =~= seq!['"']);
    let ve = match crate::text::find(tag, i + marker.len(), &q) {
        None => return copy(tag),
        Some(v) => v,
    };
    proof {
        lemma_find_from_bounds(tag@, i + marker@.len(), q@);
        assert(ve < tag.len());
    }
    let mut out = slice(tag, 0, i);
    let rest = trim_start_exec(&slice(tag, ve + 1, tag.len()));
    push_all(&mut out, &rest);
    out
}

/// The walk that strips the `rdf:about` of `owl:AllDifferent` tags, from `pos`: every `<owl:AllDifferent` open tag that
/// holds `rdf:about="` loses that attribute.
pub open spec fn strip_about_walk(s: Seq<char>, pos: int) -> Seq<char>
    decreases s.len() - pos,
{
    if pos < 0 || pos >= s.len() {
        Seq::empty()
    } else {
        match find_from(s, pos, "<owl:AllDifferent"@) {
            None => s.subrange(pos, s.len() as int),
            Some(st) => if st < pos || st >= s.len() {
                s.subrange(pos, s.len() as int)
            } else {
                match find_from(s, st, seq!['>']) {
                    None => s.subrange(pos, s.len() as int),
                    Some(g) => if g < st || g >= s.len() {
                        s.subrange(pos, s.len() as int)
                    } else {
                        let tag = s.subrange(st, g + 1);
                        s.subrange(pos, st) + (if contains(tag, "rdf:about=\""@) {
                            remove_attribute(tag, "rdf:about"@)
                        } else {
                            tag
                        }) + strip_about_walk(s, g + 1)
                    },
                }
            },
        }
    }
}

fn strip_about_exec(s: &Vec<char>) -> (r: Vec<char>)
    ensures
        r@ == strip_about_walk(s@, 0),
{
    proof {
        reveal_strlit(">");
        assert(">"@ =~= seq!['>']);
    }
    let mut out: Vec<char> = Vec::new();
    let mut pos: usize = 0;
    while pos < s.len()
        invariant
            ">"@ == seq!['>'],
            out@ + strip_about_walk(s@, pos as int) == strip_about_walk(s@, 0),
        decreases s.len() - pos,
    {
        let ghost before = out@;
        let st = match find_lit(s, pos, "<owl:AllDifferent") {
            None => {
                push_range(&mut out, s, pos, s.len());
                return out;
            },
            Some(st) => st,
        };
        proof {
            lemma_find_from_bounds(s@, pos as int, "<owl:AllDifferent"@);
        }
        if st >= s.len() {
            push_range(&mut out, s, pos, s.len());
            return out;
        }
        let g = match find_lit(s, st, ">") {
            None => {
                push_range(&mut out, s, pos, s.len());
                return out;
            },
            Some(g) => g,
        };
        proof {
            lemma_find_from_bounds(s@, st as int, seq!['>']);
            assert(g < s.len());
        }
        push_range(&mut out, s, pos, st);
        let tag = slice(s, st, g + 1);
        if contains_lit(&tag, "rdf:about=\"") {
            let t = remove_attribute_exec(&tag, "rdf:about");
            push_all(&mut out, &t);
        } else {
            push_all(&mut out, &tag);
        }
        proof {
            assert(out@ + strip_about_walk(s@, g + 1) =~= before + strip_about_walk(s@, pos as int));
        }
        pos = g + 1;
    }
    out
}

/// The `owl:sameAs` targets from `pos` of a member description
/// about `about`, one `rdf:Description` per `<owl:sameAs rdf:resource=...>` tag.
pub open spec fn same_as_statements(desc: Seq<char>, about: Seq<char>, pos: int) -> Seq<char>
    decreases desc.len() - pos,
{
    if pos < 0 || pos > desc.len() {
        Seq::empty()
    } else {
        match find_from(desc, pos, "<owl:sameAs"@) {
            None => Seq::empty(),
            Some(st) => if st < pos || st >= desc.len() {
                Seq::empty()
            } else {
                match find_from(desc, st, seq!['>']) {
                    None => Seq::empty(),
                    Some(g) => if g < st || g >= desc.len() {
                        Seq::empty()
                    } else {
                        (match attribute(desc.subrange(st, g + 1), "rdf:resource"@) {
                            Some(t) => "  <rdf:Description rdf:about=\""@ + about
                                + "\">\n    <owl:sameAs rdf:resource=\""@ + t
                                + "\"/>\n  </rdf:Description>\n"@,
                            None => Seq::empty(),
                        }) + same_as_statements(desc, about, g + 1)
                    },
                }
            },
        }
    }
}

fn same_as_statements_exec(desc: &Vec<char>, about: &Vec<char>, out: &mut Vec<char>)
    ensures
        final(out)@ == old(out)@ + same_as_statements(desc@, about@, 0),
{
    proof {
        reveal_strlit(">");
        assert(">"@ =~= seq!['>']);
    }
    let ghost start = old(out)@;
    let mut pos: usize = 0;
    while pos <= desc.len()
        invariant
            ">"@ == seq!['>'],
            start == old(out)@,
            out@ + same_as_statements(desc@, about@, pos as int) == start + same_as_statements(
                desc@,
                about@,
                0,
            ),
        decreases desc.len() + 1 - pos,
    {
        let ghost before = out@;
        proof {
            assert(out@ + Seq::<char>::empty() =~= out@);
        }
        let st = match find_lit(desc, pos, "<owl:sameAs") {
            None => return,
            Some(st) => st,
        };
        proof {
            lemma_find_from_bounds(desc@, pos as int, "<owl:sameAs"@);
        }
        if st >= desc.len() {
            return;
        }
        let g = match find_lit(desc, st, ">") {
            None => return,
            Some(g) => g,
        };
        proof {
            lemma_find_from_bounds(desc@, st as int, seq!['>']);
            assert(g < desc.len());
        }
        let tag = slice(desc, st, g + 1);
        if let Some(t) = extract_attribute(&tag, "rdf:resource") {
            push_str(out, "  <rdf:Description rdf:about=\"");
            push_all(out, about);
            push_str(out, "\">\n    <owl:sameAs rdf:resource=\"");
            push_all(out, &t);
            push_str(out, "\"/>\n  </rdf:Description>\n");
        }
        proof {
            assert(out@ + same_as_statements(desc@, about@, g + 1) =~= before + same_as_statements(
                desc@,
                about@,
                pos as int,
            ));
        }
        pos = g + 1;
    }
}

/// The flattened member text from `pos`: each member
/// description with an `rdf:about` becomes an `owl:NamedIndividual` reference.
pub open spec fn flattened_members(inner: Seq<char>, pos: int) -> Seq<char>
    decreases inner.len() - pos,
{
    if pos < 0 || pos >= inner.len() {
        Seq::empty()
    } else {
        match find_from(inner, pos, "<rdf:Description"@) {
            None => inner.subrange(pos, inner.len() as int),
            Some(ds) => if ds < pos || ds >= inner.len() {
                inner.subrange(pos, inner.len() as int)
            } else {
                match desc_end(inner, ds) {
                    None => inner.subrange(pos, inner.len() as int),
                    Some(de) => if de <= ds || de > inner.len() {
                        inner.subrange(pos, inner.len() as int)
                    } else {
                        let desc = inner.subrange(ds, de);
                        inner.subrange(pos, ds) + (match attribute(desc, "rdf:about"@) {
                            Some(about) => "    <owl:NamedIndividual rdf:about=\""@ + about
                                + "\"/>\n"@,
                            None => desc,
                        }) + flattened_members(inner, de)
                    },
                }
            },
        }
    }
}

/// The `owl:sameAs` statements that flattening lifts out of the
/// member descriptions from `pos`.
pub open spec fn lifted_same_as(inner: Seq<char>, pos: int) -> Seq<char>
    decreases inner.len() - pos,
{
    if pos < 0 || pos >= inner.len() {
        Seq::empty()
    } else {
        match find_from(inner, pos, "<rdf:Description"@) {
            None => Seq::empty(),
            Some(ds) => if ds < pos || ds >= inner.len() {
                Seq::empty()
            } else {
                match desc_end(inner, ds) {
                    None => Seq::empty(),
                    Some(de) => if de <= ds || de > inner.len() {
                        Seq::empty()
                    } else {
                        let desc = inner.subrange(ds, de);
                        (match attribute(desc, "rdf:about"@) {
                            Some(about) => same_as_statements(desc, about, 0),
                            None => Seq::empty(),
                        }) + lifted_same_as(inner, de)
                    },
                }
            },
        }
    }
}

fn flatten_members_exec(inner: &Vec<char>) -> (r: (Vec<char>, Vec<char>))
    ensures
        r.0@ == lifted_same_as(inner@, 0),
        r.1@ == flattened_members(inner@, 0),
{
    let mut lifted: Vec<char> = Vec::new();
    let mut flat: Vec<char> = Vec::new();
    let mut pos: usize = 0;
    while pos < inner.len()
        invariant
            lifted@ + lifted_same_as(inner@, pos as int) == lifted_same_as(inner@, 0),
            flat@ + flattened_members(inner@, pos as int) == flattened_members(inner@, 0),
        decreases inner.len() - pos,
    {
        let ghost lb = lifted@;
        let ghost fb = flat@;
        let ds = match find_lit(inner, pos, "<rdf:Description") {
            None => {
                push_range(&mut flat, inner, pos, inner.len());
                assert(lifted@ =~= lifted@ + Seq::<char>::empty());
                return (lifted, flat);
            },
            Some(d) => d,
        };
        proof {
            lemma_find_from_bounds(inner@, pos as int, "<rdf:Description"@);
        }
        if ds >= inner.len() {
            push_range(&mut flat, inner, pos, inner.len());
            assert(lifted@ =~= lifted@ + Seq::<char>::empty());
            return (lifted, flat);
        }
        proof {
            lemma_desc_end_after(inner@, ds as int);
        }
        let de = match desc_end_chars(inner, ds) {
            None => {
                push_range(&mut flat, inner, pos, inner.len());
                assert(lifted@ =~= lifted@ + Seq::<char>::empty());
                return (lifted, flat);
            },
            Some(e) => e,
        };
        push_range(&mut flat, inner, pos, ds);
        let desc = slice(inner, ds, de);
        match extract_attribute(&desc, "rdf:about") {
            Some(about) => {
                same_as_statements_exec(&desc, &about, &mut lifted);
                push_str(&mut flat, "    <owl:NamedIndividual rdf:about=\"");
                push_all(&mut flat, &about);
                push_str(&mut flat, "\"/>\n");
            },
            None => {
                push_all(&mut flat, &desc);
            },
        }
        proof {
            assert(lifted@ + lifted_same_as(inner@, de as int) =~= lb + lifted_same_as(
                inner@,
                pos as int,
            ));
            assert(flat@ + flattened_members(inner@, de as int) =~= fb + flattened_members(
                inner@,
                pos as int,
            ));
        }
        pos = de;
    }
    (lifted, flat)
}

/// Where the flattening of member descriptions works: the first `<owl:AllDifferent`, the
/// first `<owl:distinctMembers`, the end of that open tag and the start of the
/// `</owl:distinctMembers>` after it.
pub open spec fn distinct_members_span(s: Seq<char>) -> Option<(int, int, int, int)> {
    match find_from(s, 0, "<owl:AllDifferent"@) {
        None => None,
        Some(a) => match find_from(s, 0, "<owl:distinctMembers"@) {
            None => None,
            Some(st) => match find_from(s, st, seq!['>']) {
                None => None,
                Some(g) => match find_from(s, g + 1, "</owl:distinctMembers>"@) {
                    None => None,
                    Some(cs) => Some((a, st, g + 1, cs)),
                },
            },
        },
    }
}

/// The member descriptions of the first
/// `owl:distinctMembers` collection become `owl:NamedIndividual` references, and the
/// `owl:sameAs` statements they held are placed before the first `<owl:AllDifferent`.
pub open spec fn flattened(s: Seq<char>) -> Seq<char> {
    match distinct_members_span(s) {
        None => s,
        Some((a, st, oe, cs)) => {
            let inner = s.subrange(oe, cs);
            s.subrange(0, a) + lifted_same_as(inner, 0) + s.subrange(a, oe) + flattened_members(
                inner,
                0,
            ) + s.subrange(cs, s.len() as int)
        },
    }
}

/// The inputs on which the flattening of member descriptions would slice out of order: the
/// collection it flattens comes before the first `<owl:AllDifferent`.
pub open spec fn members_before_all_different(s: Seq<char>) -> bool {
    distinct_members_span(s) matches Some((a, st, oe, cs)) && st < a
}

proof fn lemma_span_bounds(s: Seq<char>)
    ensures
        distinct_members_span(s) matches Some((a, st, oe, cs)) ==> 0 <= a <= s.len() && 0 <= st
            && st < oe <= cs <= s.len(),
{
    reveal_strlit("<owl:AllDifferent");
    reveal_strlit("</owl:distinctMembers>");
    lemma_find_from_bounds(s, 0, "<owl:AllDifferent"@);
    lemma_find_from_bounds(s, 0, "<owl:distinctMembers"@);
    if let Some(st) = find_from(s, 0, "<owl:distinctMembers"@) {
        lemma_find_from_bounds(s, st, seq!['>']);
        if let Some(g) = find_from(s, st, seq!['>']) {
            lemma_find_from_bounds(s, g + 1, "</owl:distinctMembers>"@);
        }
    }
}

fn flatten_exec(s: &Vec<char>) -> (r: Vec<char>)
    requires
        !members_before_all_different(s@),
    ensures
        r@ == flattened(s@),
{
    proof {
        reveal_strlit(">");
        assert(">"@ =~= seq!['>']);
        lemma_span_bounds(s@);
        lemma_find_from_bounds(s@, 0, "<owl:AllDifferent"@);
        lemma_find_from_bounds(s@, 0, "<owl:distinctMembers"@);
    }
    let a = match find_lit(s, 0, "<owl:AllDifferent") {
        None => return copy(s),
        Some(a) => a,
    };
    let st = match find_lit(s, 0, "<owl:distinctMembers") {
        None => return copy(s),
        Some(st) => st,
    };
    proof {
        lemma_find_from_bounds(s@, st as int, seq!['>']);
    }
    let g = match find_lit(s, st, ">") {
        None => return copy(s),
        Some(g) => g,
    };
    proof {
        assert(g < s.len());
        lemma_find_from_bounds(s@, g + 1, "</owl:distinctMembers>"@);
    }
    let cs = match find_lit(s, g + 1, "</owl:distinctMembers>") {
        None => return copy(s),
        Some(c) => c,
    };
    let oe = g + 1;
    let inner = slice(s, oe, cs);
    let (lifted, flat) = flatten_members_exec(&inner);
    let mut out = slice(s, 0, a);
    push_all(&mut out, &lifted);
    push_range(&mut out, s, a, oe);
    push_all(&mut out, &flat);
    push_range(&mut out, s, cs, s.len());
    out
}

/// `normalize_all_different_members`: for a text holding `<owl:AllDifferent`, `owl:members`
/// renamed to `owl:distinctMembers` everywhere, `rdf:about` dropped from `owl:AllDifferent`
/// open tags, then the member descriptions flattened.
pub open spec fn all_different_stripped(s: Seq<char>) -> Seq<char> {
    strip_about_walk(replace_all(s, "owl:members"@, "owl:distinctMembers"@), 0)
}

/// `normalize_all_different_members`.
pub open spec fn all_different_normalized(s: Seq<char>) -> Seq<char> {
    if !contains(s, "<owl:AllDifferent"@) {
        s
    } else {
        flattened(all_different_stripped(s))
    }
}

/// Rewrite `owl:members` collections to `owl:distinctMembers` and flatten member nodes.
///
/// Named member descriptions become `owl:NamedIndividual` references; the `owl:sameAs`
/// statements they carried are kept as separate descriptions.
pub fn normalize_all_different_members(input: &str) -> (r: String)
    requires
        contains(input@, "<owl:AllDifferent"@) ==> !members_before_all_different(
            all_different_stripped(input@),
        ),
    ensures
        r@ == all_different_normalized(input@),
{
    let s = chars_of(input);
    let out = all_different_chars(&s);
    string_of(&out)
}

/// `normalize_all_different_members` on a character vector.
pub fn all_different_chars(s: &Vec<char>) -> (r: Vec<char>)
    requires
        contains(s@, "<owl:AllDifferent"@) ==> !members_before_all_different(
            all_different_stripped(s@),
        ),
    ensures
        r@ == all_different_normalized(s@),
{
    if !contains_lit(s, "<owl:AllDifferent") {
        return copy(s);
    }
    proof {
        reveal_strlit("owl:members");
    }
    let with_distinct = replace_lit(s, "owl:members", "owl:distinctMembers");
    let stripped = strip_about_exec(&with_distinct);
    flatten_exec(&stripped)
}


fn members_before_all_different_exec(s: &Vec<char>) -> (b: bool)
    ensures
        b == members_before_all_different(s@),
{
    proof {
        reveal_strlit(">");
        assert(">"@ =~= seq!['>']);
        lemma_span_bounds(s@);
        lemma_find_from_bounds(s@, 0, "<owl:AllDifferent"@);
        lemma_find_from_bounds(s@, 0, "<owl:distinctMembers"@);
    }
    let a = match find_lit(s, 0, "<owl:AllDifferent") {
        None => return false,
        Some(a) => a,
    };
    let st = match find_lit(s, 0, "<owl:distinctMembers") {
        None => return false,
        Some(st) => st,
    };
    proof {
        lemma_find_from_bounds(s@, st as int, seq!['>']);
    }
    let g = match find_lit(s, st, ">") {
        None => return false,
        Some(g) => g,
    };
    proof {
        assert(g < s.len());
    }
    match find_lit(s, g + 1, "</owl:distinctMembers>") {
        None => false,
        Some(_) => st < a,
    }
}

/// `normalize_all_different_members`, refusing the texts on which it cannot run: `None` exactly
/// where the member collection it would flatten comes before the first `<owl:AllDifferent`.
pub fn all_different_chars_checked(s: &Vec<char>) -> (r: Option<Vec<char>>)
    ensures
        match r {
            Some(v) => !(contains(s@, "<owl:AllDifferent"@) && members_before_all_different(
                all_different_stripped(s@),
            )) && v@ == all_different_normalized(s@),
            None => contains(s@, "<owl:AllDifferent"@) && members_before_all_different(
                all_different_stripped(s@),
            ),
        },
{
    if !contains_lit(s, "<owl:AllDifferent") {
        return Some(copy(s));
    }
    proof {
        reveal_strlit("owl:members");
    }
    let with_distinct = replace_lit(s, "owl:members", "owl:distinctMembers");
    let stripped = strip_about_exec(&with_distinct);
    if members_before_all_different_exec(&stripped) {
        return None;
    }
    Some(flatten_exec(&stripped))
}

} // verus!

//! Scanning helpers over RDF/XML text held as character sequences.
use vstd::prelude::*;

use crate::text::{chars_of, find, find_from, is_match_at, lemma_find_from_bounds, matches_at, opt_int, push_all, skip_ws, skip_ws_exec, slice, is_whitespace, is_ascii_whitespace, char_is_whitespace, char_is_ascii_whitespace, trim, trim_exec, strip_trailing, strip_trailing_exec, first_word, first_word_exec, contains, contains_exec, starts_with, at_lit, ends_with, ends_with_exec, trim_end, trim_end_exec, find_lit, index_of, index_of_exec, word_end, word_end_exec, lemma_skip_ws_bounds, string_of, lemma_word_end_bounds, concat, contains_lit, push_range, last_index_of, last_index_of_exec, lemma_rfind_bounds, trim_start, trim_start_exec, starts_with_exec, rfind, rfind_exec};

verus! {

/// Outcome of scanning an open tag for one quoting style of an attribute.
pub enum AttrScan {
    /// The attribute value between the quotes.
    Found(Seq<char>),
    /// An occurrence of the name was not followed by `=`; the whole lookup gives up.
    Abort,
    /// No occurrence yielded a value in this quoting style.
    Missing,
}

/// Scans `tag` from `from` for `name`, then optional whitespace, `=`, optional whitespace and
/// a value quoted with `quote`.
pub open spec fn attr_scan(tag: Seq<char>, name: Seq<char>, quote: char, from: int) -> AttrScan
    decreases tag.len() - from,
{
    if from < 0 || from > tag.len() {
        AttrScan::Missing
    } else {
        match find_from(tag, from, name) {
            None => AttrScan::Missing,
            Some(abs) => {
                let a1 = skip_ws(tag, abs + name.len());
                if !(a1 < tag.len() && tag[a1] == '=') {
                    AttrScan::Abort
                } else {
                    let a2 = skip_ws(tag, a1 + 1);
                    let next = if abs + 1 > from { abs + 1 } else { from + 1 };
                    if a2 < tag.len() && tag[a2] == quote {
                        match find_from(tag, a2 + 1, seq![quote]) {
                            Some(e) => AttrScan::Found(tag.subrange(a2 + 1, e)),
                            None => attr_scan(tag, name, quote, next),
                        }
                    } else {
                        attr_scan(tag, name, quote, next)
                    }
                }
            },
        }
    }
}

/// The value of attribute `name` in `tag`: double-quoted values are looked for first, then
/// single-quoted ones; an occurrence of the name without `=` ends the lookup.
pub open spec fn attribute(tag: Seq<char>, name: Seq<char>) -> Option<Seq<char>> {
    match attr_scan(tag, name, '"', 0) {
        AttrScan::Found(v) => Some(v),
        AttrScan::Abort => None,
        AttrScan::Missing => match attr_scan(tag, name, '\'', 0) {
            AttrScan::Found(v) => Some(v),
            _ => None,
        },
    }
}

fn attr_scan_exec(tag: &Vec<char>, name: &Vec<char>, quote: char) -> (r: (u8, Vec<char>))
    ensures
        r.0 == 0 ==> attr_scan(tag@, name@, quote, 0) == AttrScan::Found(r.1@),
        r.0 == 1 ==> attr_scan(tag@, name@, quote, 0) is Abort,
        r.0 == 2 ==> attr_scan(tag@, name@, quote, 0) is Missing,
        r.0 <= 2,
{
    let q = vec![quote];
    let mut from: usize = 0;
    while from <= tag.len()
        invariant
            attr_scan(tag@, name@, quote, 0) == attr_scan(tag@, name@, quote, from as int),
            q@ == seq![quote],
        decreases tag.len() + 1 - from,
    {
        let abs = match find(tag, from, name) {
            None => {
                return (2, Vec::new());
            },
            Some(a) => a,
        };
        proof {
            lemma_find_from_bounds(tag@, from as int, name@);
        }
        let a1 = skip_ws_exec(tag, abs + name.len());
        if !(a1 < tag.len() && tag[a1] == '=') {
            return (1, Vec::new());
        }
        let a2 = skip_ws_exec(tag, a1 + 1);
        let next = if abs + 1 > from { abs + 1 } else { from + 1 };
        if a2 < tag.len() && tag[a2] == quote {
            match find(tag, a2 + 1, &q) {
                Some(e) => {
                    proof {
                        lemma_find_from_bounds(tag@, a2 + 1, q@);
                    }
                    let v = slice(tag, a2 + 1, e);
                    return (0, v);
                },
                None => {},
            }
        }
        from = next;
    }
    (2, Vec::new())
}

/// `extract_attribute`: the value of attribute `name` in the open tag `tag`.
pub fn extract_attribute(tag: &Vec<char>, name: &str) -> (r: Option<Vec<char>>)
    ensures
        match r {
            Some(v) => attribute(tag@, name@) == Some(v@),
            None => attribute(tag@, name@) is None,
        },
{
    let nv = chars_of(name);
    let (k, v) = attr_scan_exec(tag, &nv, '"');
    if k == 0 {
        return Some(v);
    }
    if k == 1 {
        return None;
    }
    let (k2, v2) = attr_scan_exec(tag, &nv, '\'');
    if k2 == 0 {
        Some(v2)
    } else {
        None
    }
}

} // verus!

verus! {

/// `<tag`
pub open spec fn open_of(tag: Seq<char>) -> Seq<char> {
    seq!['<'] + tag
}

/// `</tag>`
pub open spec fn close_of(tag: Seq<char>) -> Seq<char> {
    seq!['<', '/'] + tag + seq!['>']
}

/// The loop of `tagged_element_end` from index `pos`, with `depth` elements named `tag` open.
pub open spec fn tagged_scan(s: Seq<char>, tag: Seq<char>, pos: int, depth: nat) -> Option<int>
    decreases s.len() - pos,
{
    if pos < 0 || pos >= s.len() {
        None
    } else {
        match find_from(s, pos, seq!['<']) {
            None => None,
            Some(ts) => if ts < pos || ts >= s.len() {
                None
            } else if matches_at(s, ts, open_of(tag)) {
                match find_from(s, ts, seq!['>']) {
                    None => None,
                    Some(g) => {
                        let d = if g >= 1 && s[g - 1] == '/' { depth } else { depth + 1 };
                        tagged_scan(s, tag, ts + 1, d)
                    },
                }
            } else if matches_at(s, ts, close_of(tag)) {
                let d: nat = if depth > 0 { (depth - 1) as nat } else { 0 };
                if d == 0 {
                    Some(ts + close_of(tag).len())
                } else {
                    tagged_scan(s, tag, ts + 1, d)
                }
            } else {
                tagged_scan(s, tag, ts + 1, depth)
            },
        }
    }
}

/// `tagged_element_end`: the end of the element named `tag` opening at `start` — just after
/// its `>` when the open tag closes itself, else just after the `</tag>` that balances it.
pub open spec fn tagged_end(s: Seq<char>, start: int, tag: Seq<char>) -> Option<int> {
    if !matches_at(s, start, open_of(tag)) {
        None
    } else {
        match find_from(s, start, seq!['>']) {
            None => None,
            Some(g) => if g >= 1 && s[g - 1] == '/' {
                Some(g + 1)
            } else {
                tagged_scan(s, tag, start, 0)
            },
        }
    }
}

pub proof fn lemma_tagged_scan_after(s: Seq<char>, tag: Seq<char>, pos: int, depth: nat)
    requires
        0 <= pos,
    ensures
        tagged_scan(s, tag, pos, depth) matches Some(e) ==> pos < e <= s.len() && s[e - 1] == '>',
    decreases s.len() - pos,
{
    if pos < s.len() {
        lemma_find_from_bounds(s, pos, seq!['<']);
        match find_from(s, pos, seq!['<']) {
            None => {},
            Some(ts) => {
                if ts >= pos && ts < s.len() {
                    if matches_at(s, ts, open_of(tag)) {
                        lemma_find_from_bounds(s, ts, seq!['>']);
                        match find_from(s, ts, seq!['>']) {
                            None => {},
                            Some(g) => {
                                let d = if g >= 1 && s[g - 1] == '/' { depth } else { depth + 1 };
                                lemma_tagged_scan_after(s, tag, ts + 1, d);
                            },
                        }
                    } else if matches_at(s, ts, close_of(tag)) {
                        let d: nat = if depth > 0 { (depth - 1) as nat } else { 0 };
                        if d != 0 {
                            lemma_tagged_scan_after(s, tag, ts + 1, d);
                        } else {
                            let c = close_of(tag);
                            assert(c[c.len() - 1] == '>');
                            assert(s.subrange(ts, ts + c.len())[c.len() - 1] == s[ts + c.len() - 1]);
                        }
                    } else {
                        lemma_tagged_scan_after(s, tag, ts + 1, depth);
                    }
                }
            },
        }
    }
}

pub proof fn lemma_tagged_end_after(s: Seq<char>, start: int, tag: Seq<char>)
    requires
        0 <= start,
    ensures
        tagged_end(s, start, tag) matches Some(e) ==> start < e <= s.len(),
{
    if matches_at(s, start, open_of(tag)) {
        lemma_find_from_bounds(s, start, seq!['>']);
        lemma_tagged_scan_after(s, tag, start, 0);
    }
}

/// Builds `<tag` and `</tag>` for a tag name.
pub fn open_close(tag: &Vec<char>) -> (r: (Vec<char>, Vec<char>))
    ensures
        r.0@ == open_of(tag@),
        r.1@ == close_of(tag@),
{
    let mut open: Vec<char> = vec!['<'];
    assert(open@ =~= seq!['<']);
    push_all(&mut open, tag);
    let mut close: Vec<char> = vec!['<', '/'];
    assert(close@ =~= seq!['<', '/']);
    push_all(&mut close, tag);
    close.push('>');
    assert(close@ =~= close_of(tag@));
    (open, close)
}

/// The scan of `tagged_scan` run from `pos` with `depth` open elements.
pub fn tagged_scan_from(s: &Vec<char>, tag: &Vec<char>, from: usize, open_depth: usize) -> (r:
    Option<usize>)
    requires
        open_depth <= from,
    ensures
        opt_int(r) == tagged_scan(s@, tag@, from as int, open_depth as nat),
        r matches Some(e) ==> from < e <= s.len(),
{
    proof {
        lemma_tagged_scan_after(s@, tag@, from as int, open_depth as nat);
    }
    let (open, close) = open_close(tag);
    let lt: Vec<char> = vec!['<'];
    let gt: Vec<char> = vec!['>'];
    assert(lt@ =~= seq!['<']);
    assert(gt@ =~= seq!['>']);
    let mut depth = open_depth;
    let mut pos = from;
    while pos < s.len()
        invariant
            from <= pos,
            depth <= pos,
            lt@ == seq!['<'],
            gt@ == seq!['>'],
            open@ == open_of(tag@),
            close@ == close_of(tag@),
            tagged_scan(s@, tag@, from as int, open_depth as nat) == tagged_scan(
                s@,
                tag@,
                pos as int,
                depth as nat,
            ),
        decreases s.len() - pos,
    {
        let ts = match find(s, pos, &lt) {
            None => return None,
            Some(t) => t,
        };
        proof {
            lemma_find_from_bounds(s@, pos as int, lt@);
        }
        if is_match_at(s, ts, &open) {
            let g2 = match find(s, ts, &gt) {
                None => return None,
                Some(g) => g,
            };
            proof {
                lemma_find_from_bounds(s@, ts as int, gt@);
            }
            if !(g2 >= 1 && s[g2 - 1] == '/') {
                depth += 1;
            }
        } else if is_match_at(s, ts, &close) {
            if depth > 0 {
                depth -= 1;
            }
            if depth == 0 {
                return Some(ts + close.len());
            }
        }
        pos = ts + 1;
    }
    None
}

/// `tagged_element_end` on a character vector.
pub fn tag_element_end(s: &Vec<char>, start: usize, tag: &Vec<char>) -> (r: Option<usize>)
    ensures
        opt_int(r) == tagged_end(s@, start as int, tag@),
        r matches Some(e) ==> start < e <= s.len(),
{
    proof {
        lemma_tagged_end_after(s@, start as int, tag@);
    }
    let (open, close) = open_close(tag);
    if !is_match_at(s, start, &open) {
        return None;
    }
    let lt: Vec<char> = vec!['<'];
    let gt: Vec<char> = vec!['>'];
    assert(lt@ =~= seq!['<']);
    assert(gt@ =~= seq!['>']);
    let g = match find(s, start, &gt) {
        None => return None,
        Some(g) => g,
    };
    proof {
        lemma_find_from_bounds(s@, start as int, gt@);
        assert(find_from(s@, start as int, gt@) == Some(g as int));
        assert(matches_at(s@, g as int, gt@));
        assert(gt@.len() == 1);
        assert(g < s.len());
    }
    if g >= 1 && s[g - 1] == '/' {
        return Some(g + 1);
    }
    tagged_scan_from(s, tag, start, 0)
}

} // verus!

verus! {

/// Whether `c` ends a tag name: whitespace, `>` or `/`.
pub open spec fn is_name_stop(c: char) -> bool {
    is_whitespace(c) || c == '>' || c == '/'
}

/// The first index at or after `i` holding a tag-name stop, or the end of `s`.
pub open spec fn name_stop(s: Seq<char>, i: int) -> int
    decreases s.len() - i,
{
    if 0 <= i < s.len() && !is_name_stop(s[i]) {
        name_stop(s, i + 1)
    } else {
        i
    }
}

/// The first index at or after `i` that does not hold ASCII whitespace.
pub open spec fn skip_ascii_ws(s: Seq<char>, i: int) -> int
    decreases s.len() - i,
{
    if 0 <= i < s.len() && is_ascii_whitespace(s[i]) {
        skip_ascii_ws(s, i + 1)
    } else {
        i
    }
}

/// The name of the tag opening at `start`: the characters after `<` up to a name stop.
pub open spec fn tag_name_at(s: Seq<char>, start: int) -> Seq<char> {
    s.subrange(start + 1, name_stop(s, start + 1))
}

pub proof fn lemma_name_stop_bounds(s: Seq<char>, i: int)
    requires
        0 <= i <= s.len(),
    ensures
        i <= name_stop(s, i) <= s.len(),
    decreases s.len() - i,
{
    if i < s.len() && !is_name_stop(s[i]) {
        lemma_name_stop_bounds(s, i + 1);
    }
}

pub proof fn lemma_skip_ascii_ws_bounds(s: Seq<char>, i: int)
    requires
        0 <= i <= s.len(),
    ensures
        i <= skip_ascii_ws(s, i) <= s.len(),
    decreases s.len() - i,
{
    if i < s.len() && is_ascii_whitespace(s[i]) {
        lemma_skip_ascii_ws_bounds(s, i + 1);
    }
}

/// The element search of `find_top_level_element` from index `pos`: skip whitespace, step over
/// text a character at a time, and step over whole elements until one named `tag` opens.
pub open spec fn top_level_scan(s: Seq<char>, tag: Seq<char>, pos: int) -> Option<(int, int)>
    decreases s.len() - pos,
{
    if pos < 0 || pos >= s.len() {
        None
    } else {
        let p = skip_ascii_ws(s, pos);
        if p < pos || p >= s.len() {
            None
        } else if s[p] != '<' {
            top_level_scan(s, tag, p + 1)
        } else {
            let name = tag_name_at(s, p);
            match tagged_end(s, p, name) {
                None => None,
                Some(e) => if name == tag {
                    Some((p, e))
                } else if e > p && e <= s.len() {
                    top_level_scan(s, tag, e)
                } else {
                    None
                },
            }
        }
    }
}

/// `find_top_level_element`: the bounds of the first element named `tag` among the elements
/// of `s`, stepping over each sibling element whole.
pub open spec fn top_level_element(s: Seq<char>, tag: Seq<char>) -> Option<(int, int)> {
    top_level_scan(s, tag, 0)
}

pub proof fn lemma_top_level_scan_bounds(s: Seq<char>, tag: Seq<char>, pos: int)
    requires
        0 <= pos,
    ensures
        top_level_scan(s, tag, pos) matches Some((a, e)) ==> pos <= a < e <= s.len()
            && tagged_end(s, a, tag) == Some(e) && tag_name_at(s, a) == tag,
    decreases s.len() - pos,
{
    if pos < s.len() {
        lemma_skip_ascii_ws_bounds(s, pos);
        let p = skip_ascii_ws(s, pos);
        if p < s.len() {
            if s[p] != '<' {
                lemma_top_level_scan_bounds(s, tag, p + 1);
            } else {
                let name = tag_name_at(s, p);
                lemma_tagged_end_after(s, p, name);
                match tagged_end(s, p, name) {
                    None => {},
                    Some(e) => {
                        if name != tag && e > p && e <= s.len() {
                            lemma_top_level_scan_bounds(s, tag, e);
                        }
                    },
                }
            }
        }
    }
}

/// The tag name that starts after the `<` at `start`.
pub fn tag_name_exec(s: &Vec<char>, start: usize) -> (r: Vec<char>)
    requires
        start < s.len(),
    ensures
        r@ == tag_name_at(s@, start as int),
{
    proof {
        lemma_name_stop_bounds(s@, start + 1);
    }
    let mut k = start + 1;
    while k < s.len() && !(char_is_whitespace(s[k]) || s[k] == '>' || s[k] == '/')
        invariant
            start + 1 <= k <= s.len(),
            name_stop(s@, start + 1) == name_stop(s@, k as int),
        decreases s.len() - k,
    {
        k += 1;
    }
    slice(s, start + 1, k)
}

/// The first index at or after `i` that does not hold ASCII whitespace.
pub fn skip_ascii_ws_exec(s: &Vec<char>, i: usize) -> (r: usize)
    requires
        i <= s.len(),
    ensures
        r as int == skip_ascii_ws(s@, i as int),
        i <= r <= s.len(),
{
    proof {
        lemma_skip_ascii_ws_bounds(s@, i as int);
    }
    let mut k = i;
    while k < s.len() && char_is_ascii_whitespace(s[k])
        invariant
            i <= k <= s.len(),
            skip_ascii_ws(s@, i as int) == skip_ascii_ws(s@, k as int),
        decreases s.len() - k,
    {
        k += 1;
    }
    k
}

/// `find_top_level_element`: the bounds of the first top-level element named `tag` in `s`.
pub fn find_top_level_element(s: &Vec<char>, tag: &Vec<char>) -> (r: Option<(usize, usize)>)
    ensures
        match r {
            Some((a, e)) => top_level_element(s@, tag@) == Some((a as int, e as int)) && a < e
                <= s.len(),
            None => top_level_element(s@, tag@) is None,
        },
{
    let mut pos: usize = 0;
    while pos < s.len()
        invariant
            pos <= s.len(),
            top_level_element(s@, tag@) == top_level_scan(s@, tag@, pos as int),
        decreases s.len() - pos,
    {
        let p = skip_ascii_ws_exec(s, pos);
        if p >= s.len() {
            return None;
        }
        if s[p] != '<' {
            pos = p + 1;
            continue;
        }
        let name = tag_name_exec(s, p);
        let e = match tag_element_end(s, p, &name) {
            None => return None,
            Some(e) => e,
        };
        if vec_eq(&name, tag) {
            return Some((p, e));
        }
        pos = e;
    }
    None
}

/// Whether two character vectors are equal.
pub fn vec_eq(a: &Vec<char>, b: &Vec<char>) -> (r: bool)
    ensures
        r == (a@ == b@),
{
    if a.len() != b.len() {
        return false;
    }
    let mut i: usize = 0;
    while i < a.len()
        invariant
            a.len() == b.len(),
            i <= a.len(),
            forall|j: int| 0 <= j < i ==> a@[j] == b@[j],
        decreases a.len() - i,
    {
        if a[i] != b[i] {
            return false;
        }
        i += 1;
    }
    assert(a@ =~= b@);
    true
}

/// `find_top_level_element` for a literal tag name.
pub fn find_top_level_lit(s: &Vec<char>, tag: &str) -> (r: Option<(usize, usize)>)
    ensures
        match r {
            Some((a, e)) => top_level_element(s@, tag@) == Some((a as int, e as int)) && a < e
                <= s.len(),
            None => top_level_element(s@, tag@) is None,
        },
{
    let t = chars_of(tag);
    find_top_level_element(s, &t)
}

} // verus!

verus! {

/// The text of an open tag after its `<`, with trailing `>`s dropped and trimmed.
pub open spec fn tag_inner(open_tag: Seq<char>) -> Seq<char> {
    trim(strip_trailing(open_tag.subrange(1, open_tag.len() as int), '>'))
}

/// `element_name`: the first word inside an open tag, with trailing `/`s dropped.
pub open spec fn element_name(open_tag: Seq<char>) -> Option<Seq<char>> {
    if !(open_tag.len() > 0 && open_tag[0] == '<') {
        None
    } else {
        match first_word(tag_inner(open_tag)) {
            Some(w) => Some(strip_trailing(w, '/')),
            None => None,
        }
    }
}

/// `element_qname`: the prefixed element name of an open tag, for names outside the `rdf:`
/// vocabulary; of the `owl:` names only `owl:Thing` and `owl:Nothing` are kept.
pub open spec fn element_qname(open_tag: Seq<char>) -> Option<Seq<char>> {
    if !(open_tag.len() > 0 && open_tag[0] == '<') {
        None
    } else {
        let inner = tag_inner(open_tag);
        let inner2 = if inner.len() > 0 && inner[inner.len() - 1] == '/' {
            trim(inner.drop_last())
        } else {
            trim(inner)
        };
        if inner2.len() > 0 && inner2[0] == '/' {
            None
        } else {
            match first_word(inner2) {
                None => None,
                Some(name) => if contains(name, seq![':']) && !starts_with(name, "rdf:"@) {
                    if starts_with(name, "owl:"@) {
                        if name == "owl:Thing"@ || name == "owl:Nothing"@ {
                            Some(name)
                        } else {
                            None
                        }
                    } else {
                        Some(name)
                    }
                } else {
                    None
                },
            }
        }
    }
}

fn tag_inner_exec(open_tag: &Vec<char>) -> (r: Vec<char>)
    requires
        open_tag.len() > 0,
    ensures
        r@ == tag_inner(open_tag@),
{
    let rest = slice(open_tag, 1, open_tag.len());
    let stripped = strip_trailing_exec(&rest, '>');
    trim_exec(&stripped)
}

/// `element_name`.
pub fn element_name_exec(open_tag: &Vec<char>) -> (r: Option<Vec<char>>)
    ensures
        match r {
            Some(v) => element_name(open_tag@) == Some(v@),
            None => element_name(open_tag@) is None,
        },
{
    if !(open_tag.len() > 0 && open_tag[0] == '<') {
        return None;
    }
    let inner = tag_inner_exec(open_tag);
    match first_word_exec(&inner) {
        Some(w) => Some(strip_trailing_exec(&w, '/')),
        None => None,
    }
}

/// `element_qname`.
pub fn element_qname_exec(open_tag: &Vec<char>) -> (r: Option<Vec<char>>)
    ensures
        match r {
            Some(v) => element_qname(open_tag@) == Some(v@),
            None => element_qname(open_tag@) is None,
        },
{
    if !(open_tag.len() > 0 && open_tag[0] == '<') {
        return None;
    }
    let inner = tag_inner_exec(open_tag);
    let inner2 = if inner.len() > 0 && inner[inner.len() - 1] == '/' {
        let cut = slice(&inner, 0, inner.len() - 1);
        assert(cut@ =~= inner@.drop_last());
        trim_exec(&cut)
    } else {
        trim_exec(&inner)
    };
    if inner2.len() > 0 && inner2[0] == '/' {
        return None;
    }
    let name = match first_word_exec(&inner2) {
        None => return None,
        Some(n) => n,
    };
    let colon: Vec<char> = vec![':'];
    assert(colon@ =~= seq![':']);
    if contains_exec(&name, &colon) && !at_lit(&name, 0, "rdf:") {
        if at_lit(&name, 0, "owl:") {
            let thing = chars_of("owl:Thing");
            let nothing = chars_of("owl:Nothing");
            if vec_eq(&name, &thing) || vec_eq(&name, &nothing) {
                Some(name)
            } else {
                None
            }
        } else {
            Some(name)
        }
    } else {
        None
    }
}

/// `trim_xml_attr_value`: a trimmed value wrapped in matching double or single quotes, without
/// the quotes.  A lone quote character gives nothing.
pub open spec fn attr_value_unquoted(raw: Seq<char>) -> Option<Seq<char>> {
    let t = trim(raw);
    if t.len() >= 2 && ((t[0] == '"' && t[t.len() - 1] == '"') || (t[0] == '\''
        && t[t.len() - 1] == '\'')) {
        Some(t.subrange(1, t.len() - 1))
    } else {
        None
    }
}

/// `trim_xml_attr_value`.
pub fn trim_xml_attr_value(raw: &Vec<char>) -> (r: Option<Vec<char>>)
    ensures
        match r {
            Some(v) => attr_value_unquoted(raw@) == Some(v@),
            None => attr_value_unquoted(raw@) is None,
        },
{
    let t = trim_exec(raw);
    let n = t.len();
    if n >= 2 && ((t[0] == '"' && t[n - 1] == '"') || (t[0] == '\'' && t[n - 1] == '\'')) {
        Some(slice(&t, 1, n - 1))
    } else {
        None
    }
}

} // verus!

verus! {

/// The namespace declarations of an RDF/XML root tag: `(prefix, iri)` entries in document
/// order.  The default namespace has the empty prefix; a later entry overrides an earlier one
/// with the same prefix.
pub struct Namespaces {
    pub prefixes: Vec<Vec<char>>,
    pub iris: Vec<Vec<char>>,
}

impl Namespaces {
    pub open spec fn wf(&self) -> bool {
        self.prefixes.len() == self.iris.len()
    }

    /// The entries, in insertion order.
    pub open spec fn entries(&self) -> Seq<(Seq<char>, Seq<char>)> {
        Seq::new(self.prefixes.len() as nat, |i: int| (self.prefixes@[i]@, self.iris@[i]@))
    }

    /// The IRI bound to `prefix`, as a `HashMap` filled in entry order would give it.
    pub fn get(&self, prefix: &str) -> (r: Option<String>)
        requires
            self.wf(),
        ensures
            match r {
                Some(v) => ns_get(self.entries(), prefix@) == Some(v@),
                None => ns_get(self.entries(), prefix@) is None,
            },
    {
        let p = chars_of(prefix);
        match self.lookup(&p) {
            Some(v) => Some(string_of(&v)),
            None => None,
        }
    }

    /// The IRI bound to `prefix`.
    pub fn lookup(&self, prefix: &Vec<char>) -> (r: Option<Vec<char>>)
        requires
            self.wf(),
        ensures
            match r {
                Some(v) => ns_get(self.entries(), prefix@) == Some(v@),
                None => ns_get(self.entries(), prefix@) is None,
            },
    {
        let mut i = self.prefixes.len();
        assert(self.entries().subrange(0, i as int) =~= self.entries());
        while i > 0
            invariant
                i <= self.prefixes.len(),
                self.wf(),
                ns_get(self.entries(), prefix@) == ns_get(self.entries().subrange(0, i as int), prefix@),
            decreases i,
        {
            let ghost e = self.entries().subrange(0, i as int);
            assert(e.drop_last() =~= self.entries().subrange(0, i - 1));
            if vec_eq(&self.prefixes[i - 1], prefix) {
                return Some(slice(&self.iris[i - 1], 0, self.iris[i - 1].len()));
            }
            i -= 1;
        }
        None
    }
}

/// The value of the last entry with key `key`.
pub open spec fn ns_get(e: Seq<(Seq<char>, Seq<char>)>, key: Seq<char>) -> Option<Seq<char>>
    decreases e.len(),
{
    if e.len() == 0 {
        None
    } else if e[e.len() - 1].0 == key {
        Some(e[e.len() - 1].1)
    } else {
        ns_get(e.drop_last(), key)
    }
}

/// The namespace entry, if any, that one whitespace-separated token of a root tag declares.
pub open spec fn xmlns_entry(tok: Seq<char>) -> Seq<(Seq<char>, Seq<char>)> {
    let rest = tok.subrange(6, tok.len() as int);
    if starts_with(tok, "xmlns:"@) && index_of(rest, '=') is Some {
        let eq = index_of(rest, '=')->0;
        match attr_value_unquoted(rest.subrange(eq + 1, rest.len() as int)) {
            Some(v) => seq![(rest.subrange(0, eq), v)],
            None => seq![],
        }
    } else if starts_with(tok, "xmlns="@) {
        match attr_value_unquoted(rest) {
            Some(v) => seq![(Seq::<char>::empty(), v)],
            None => seq![],
        }
    } else {
        seq![]
    }
}

/// The namespace entries declared by the words of `s` from index `i` on.
pub open spec fn xmlns_scan(s: Seq<char>, i: int) -> Seq<(Seq<char>, Seq<char>)>
    decreases s.len() - i,
{
    let a = skip_ws(s, i);
    if i < 0 || a < i || a >= s.len() {
        seq![]
    } else {
        let b = word_end(s, a);
        if b <= a || b > s.len() {
            seq![]
        } else {
            xmlns_entry(s.subrange(a, b)) + xmlns_scan(s, b)
        }
    }
}

/// The root `<rdf:RDF ...>` tag up to its first `>`, if there is one.
pub open spec fn root_open_tag(input: Seq<char>) -> Option<Seq<char>> {
    match find_from(input, 0, "<rdf:RDF"@) {
        None => None,
        Some(rs) => match find_from(input, rs, seq!['>']) {
            None => None,
            Some(g) => Some(input.subrange(rs, g + 1)),
        },
    }
}

/// `parse_xmlns`: the `xmlns` declarations on the root `<rdf:RDF>` tag.
pub open spec fn xmlns_of(input: Seq<char>) -> Seq<(Seq<char>, Seq<char>)> {
    match root_open_tag(input) {
        None => seq![],
        Some(root_tag) => {
            let t = trim_end(root_tag);
            let root_inner = if ends_with(t, seq!['>']) { t.drop_last() } else { root_tag };
            xmlns_scan(root_inner, 0)
        },
    }
}

fn xmlns_entry_exec(tok: &Vec<char>, ns: &mut Namespaces)
    requires
        old(ns).wf(),
    ensures
        final(ns).wf(),
        final(ns).entries() == old(ns).entries() + xmlns_entry(tok@),
{
    let ghost old_e = ns.entries();
    proof {
        reveal_strlit("xmlns:");
        reveal_strlit("xmlns=");
    }
    if at_lit(tok, 0, "xmlns:") {
        let rest = slice(tok, 6, tok.len());
        if let Some(eq) = index_of_exec(&rest, '=') {
            proof {
                lemma_find_from_bounds(rest@, 0, seq!['=']);
            }
            let raw = slice(&rest, eq + 1, rest.len());
            if let Some(v) = trim_xml_attr_value(&raw) {
                let prefix = slice(&rest, 0, eq);
                ns.prefixes.push(prefix);
                ns.iris.push(v);
                assert(ns.entries() =~= old_e + xmlns_entry(tok@));
            } else {
                assert(ns.entries() =~= old_e + xmlns_entry(tok@));
            }
            return;
        }
    }
    if at_lit(tok, 0, "xmlns=") {
        let rest = slice(tok, 6, tok.len());
        if let Some(v) = trim_xml_attr_value(&rest) {
            ns.prefixes.push(Vec::new());
            ns.iris.push(v);
        }
    }
    assert(ns.entries() =~= old_e + xmlns_entry(tok@));
}

/// `parse_xmlns` on a character vector.
pub fn xmlns_declarations(input: &Vec<char>) -> (r: Namespaces)
    ensures
        r.wf(),
        r.entries() == xmlns_of(input@),
{
    let mut ns = Namespaces { prefixes: Vec::new(), iris: Vec::new() };
    assert(ns.entries() =~= seq![]);
    let rs = match find_lit(input, 0, "<rdf:RDF") {
        None => return ns,
        Some(rs) => rs,
    };
    let gtv: Vec<char> = vec!['>'];
    assert(gtv@ =~= seq!['>']);
    let g = match find(input, rs, &gtv) {
        None => return ns,
        Some(g) => g,
    };
    proof {
        lemma_find_from_bounds(input@, rs as int, seq!['>']);
        assert(g < input.len());
    }
    let root_tag = slice(input, rs, g + 1);
    let t = trim_end_exec(&root_tag);
    let root_inner = if ends_with_exec(&t, &gtv) {
        let cut = slice(&t, 0, t.len() - 1);
        assert(cut@ =~= t@.drop_last());
        cut
    } else {
        root_tag
    };
    let mut i: usize = 0;
    while i < root_inner.len()
        invariant
            i <= root_inner.len(),
            ns.wf(),
            ns.entries() + xmlns_scan(root_inner@, i as int) == xmlns_of(input@),
        decreases root_inner.len() - i,
    {
        let a = skip_ws_exec(&root_inner, i);
        if a >= root_inner.len() {
            assert(xmlns_scan(root_inner@, i as int) =~= seq![]);
            assert(ns.entries() + seq![] =~= ns.entries());
            return ns;
        }
        let b = word_end_exec(&root_inner, a);
        proof {
            lemma_skip_ws_bounds(root_inner@, i as int);
            lemma_word_end_bounds(root_inner@, a + 1);
            assert(b > a);
        }
        let tok = slice(&root_inner, a, b);
        let ghost before = ns.entries();
        xmlns_entry_exec(&tok, &mut ns);
        assert(ns.entries() + xmlns_scan(root_inner@, b as int) =~= before + xmlns_scan(
            root_inner@,
            i as int,
        ));
        i = b;
    }
    assert(xmlns_scan(root_inner@, i as int) =~= seq![]);
    assert(ns.entries() + seq![] =~= ns.entries());
    ns
}

} // verus!

verus! {

/// Prefixes that name built-in vocabularies and are never expanded.
pub open spec fn is_builtin_prefix(p: Seq<char>) -> bool {
    p == "rdf"@ || p == "owl"@ || p == "rdfs"@ || p == "xsd"@ || p == "xml"@
}

/// `expand_qname`: `prefix:local` as the IRI bound to `prefix` followed by `local`; built-in
/// prefixes and unbound ones give nothing.
pub open spec fn expand_qname(qname: Seq<char>, ns: Seq<(Seq<char>, Seq<char>)>) -> Option<
    Seq<char>,
> {
    match index_of(qname, ':') {
        None => None,
        Some(c) => {
            let prefix = qname.subrange(0, c);
            let local = qname.subrange(c + 1, qname.len() as int);
            if is_builtin_prefix(prefix) {
                None
            } else {
                match ns_get(ns, prefix) {
                    Some(base) => Some(base + local),
                    None => None,
                }
            }
        },
    }
}

pub fn is_builtin_prefix_exec(p: &Vec<char>) -> (b: bool)
    ensures
        b == is_builtin_prefix(p@),
{
    let rdf = chars_of("rdf");
    let owl = chars_of("owl");
    let rdfs = chars_of("rdfs");
    let xsd = chars_of("xsd");
    let xml = chars_of("xml");
    vec_eq(p, &rdf) || vec_eq(p, &owl) || vec_eq(p, &rdfs) || vec_eq(p, &xsd) || vec_eq(p, &xml)
}

/// `expand_qname`.
pub fn expand_qname_exec(qname: &Vec<char>, ns: &Namespaces) -> (r: Option<Vec<char>>)
    requires
        ns.wf(),
    ensures
        match r {
            Some(v) => expand_qname(qname@, ns.entries()) == Some(v@),
            None => expand_qname(qname@, ns.entries()) is None,
        },
{
    let c = match index_of_exec(qname, ':') {
        None => return None,
        Some(c) => c,
    };
    proof {
        lemma_find_from_bounds(qname@, 0, seq![':']);
        assert(c < qname.len());
    }
    let prefix = slice(qname, 0, c);
    let local = slice(qname, c + 1, qname.len());
    if is_builtin_prefix_exec(&prefix) {
        return None;
    }
    match ns.lookup(&prefix) {
        Some(base) => Some(concat(&base, &local)),
        None => None,
    }
}

/// The quote-aware search of `find_element_open_end` from index `i`: a `>` outside single or
/// double quotes ends the tag.
pub open spec fn open_end_scan(s: Seq<char>, i: int, quote: Option<char>) -> Option<int>
    decreases s.len() - i,
{
    if i < 0 || i >= s.len() {
        None
    } else {
        let ch = s[i];
        match quote {
            None => if ch == '"' || ch == '\'' {
                open_end_scan(s, i + 1, Some(ch))
            } else if ch == '>' {
                Some(i + 1)
            } else {
                open_end_scan(s, i + 1, None)
            },
            Some(q) => if ch == q {
                open_end_scan(s, i + 1, None)
            } else {
                open_end_scan(s, i + 1, quote)
            },
        }
    }
}

pub proof fn lemma_open_end_scan_bounds(s: Seq<char>, i: int, quote: Option<char>)
    requires
        0 <= i,
    ensures
        open_end_scan(s, i, quote) matches Some(e) ==> i < e <= s.len(),
    decreases s.len() - i,
{
    if i < s.len() {
        let ch = s[i];
        match quote {
            None => if ch == '"' || ch == '\'' {
                lemma_open_end_scan_bounds(s, i + 1, Some(ch));
            } else if ch != '>' {
                lemma_open_end_scan_bounds(s, i + 1, None);
            },
            Some(q) => if ch == q {
                lemma_open_end_scan_bounds(s, i + 1, None);
            } else {
                lemma_open_end_scan_bounds(s, i + 1, quote);
            },
        }
    }
}

/// `find_element_open_end`: just past the `>` that ends the open tag starting at `start`.
pub fn find_element_open_end(s: &Vec<char>, start: usize) -> (r: Option<usize>)
    ensures
        opt_int(r) == open_end_scan(s@, start as int, None),
        r matches Some(e) ==> start < e <= s.len(),
{
    proof {
        lemma_open_end_scan_bounds(s@, start as int, None);
    }
    let mut quote: Option<char> = None;
    let mut i = start;
    while i < s.len()
        invariant
            start <= i,
            open_end_scan(s@, start as int, None) == open_end_scan(s@, i as int, quote),
        decreases s.len() - i,
    {
        let ch = s[i];
        match quote {
            None => {
                if ch == '"' || ch == '\'' {
                    quote = Some(ch);
                } else if ch == '>' {
                    return Some(i + 1);
                }
            },
            Some(q) => {
                if ch == q {
                    quote = None;
                }
            },
        }
        i += 1;
    }
    None
}

/// The base used when a document declares no `xml:base`.
pub open spec fn anon_base() -> Seq<char> {
    "urn:ontologos:anon:"@
}

/// `parse_xml_base`: the `xml:base` of the root `<rdf:RDF>` tag without trailing `#`s and then
/// trailing `/`s, or the anonymous base.
pub open spec fn xml_base(input: Seq<char>) -> Seq<char> {
    match find_from(input, 0, "<rdf:RDF"@) {
        None => anon_base(),
        Some(rs) => match open_end_scan(input, rs, None) {
            None => anon_base(),
            Some(re) => match attribute(input.subrange(rs, re), "xml:base"@) {
                Some(b) => strip_trailing(strip_trailing(b, '#'), '/'),
                None => anon_base(),
            },
        },
    }
}

/// `parse_xml_base`.
pub fn parse_xml_base(input: &Vec<char>) -> (r: Vec<char>)
    ensures
        r@ == xml_base(input@),
{
    let rs = match find_lit(input, 0, "<rdf:RDF") {
        None => return chars_of("urn:ontologos:anon:"),
        Some(rs) => rs,
    };
    let re = match find_element_open_end(input, rs) {
        None => return chars_of("urn:ontologos:anon:"),
        Some(re) => re,
    };
    let root_tag = slice(input, rs, re);
    match extract_attribute(&root_tag, "xml:base") {
        Some(b) => {
            let b1 = strip_trailing_exec(&b, '#');
            strip_trailing_exec(&b1, '/')
        },
        None => chars_of("urn:ontologos:anon:"),
    }
}

/// `resolve_relative_iri`: an absolute IRI stays; a fragment or relative reference is joined
/// to `base`.
pub open spec fn resolve_iri(iri: Seq<char>, base: Seq<char>) -> Seq<char> {
    if contains(iri, "://"@) || starts_with(iri, "file:"@) {
        iri
    } else if iri.len() > 0 && iri[0] == '#' {
        base + seq!['#'] + iri.subrange(1, iri.len() as int)
    } else if index_of(iri, '#') is Some {
        let h = index_of(iri, '#')->0;
        let doc = iri.subrange(0, h);
        let frag = iri.subrange(h + 1, iri.len() as int);
        if contains(doc, "://"@) {
            doc + seq!['#'] + frag
        } else if last_index_of(base, '/') is Some {
            let parent = base.subrange(0, last_index_of(base, '/')->0);
            parent + seq!['/'] + doc + seq!['#'] + frag
        } else {
            base + seq!['/'] + doc + seq!['#'] + frag
        }
    } else if ends_with(base, seq!['/']) {
        base + iri
    } else {
        base + seq!['/'] + iri
    }
}

/// `resolve_relative_iri`.
pub fn resolve_relative_iri(iri: &Vec<char>, base: &Vec<char>) -> (r: Vec<char>)
    ensures
        r@ == resolve_iri(iri@, base@),
{
    if contains_lit(iri, "://") || at_lit(iri, 0, "file:") {
        return slice(iri, 0, iri.len());
    }
    if iri.len() > 0 && iri[0] == '#' {
        let mut out = slice(base, 0, base.len());
        out.push('#');
        push_range(&mut out, iri, 1, iri.len());
        assert(out@ =~= base@ + seq!['#'] + iri@.subrange(1, iri@.len() as int));
        return out;
    }
    if let Some(h) = index_of_exec(iri, '#') {
        proof {
            lemma_find_from_bounds(iri@, 0, seq!['#']);
            assert(h < iri.len());
        }
        let doc = slice(iri, 0, h);
        let mut out: Vec<char> = Vec::new();
        if contains_lit(&doc, "://") {
            push_all(&mut out, &doc);
        } else if let Some(l) = last_index_of_exec(base, '/') {
            proof {
                lemma_rfind_bounds(base@, seq!['/']);
                assert(l < base.len());
            }
            push_range(&mut out, base, 0, l);
            out.push('/');
            push_all(&mut out, &doc);
        } else {
            push_all(&mut out, base);
            out.push('/');
            push_all(&mut out, &doc);
        }
        out.push('#');
        push_range(&mut out, iri, h + 1, iri.len());
        proof {
            let frag = iri@.subrange(h + 1, iri@.len() as int);
            if contains(doc@, "://"@) {
                assert(out@ =~= doc@ + seq!['#'] + frag);
            } else if last_index_of(base@, '/') is Some {
                let parent = base@.subrange(0, last_index_of(base@, '/')->0);
                assert(out@ =~= parent + seq!['/'] + doc@ + seq!['#'] + frag);
            } else {
                assert(out@ =~= base@ + seq!['/'] + doc@ + seq!['#'] + frag);
            }
        }
        return out;
    }
    let mut out = slice(base, 0, base.len());
    let slash: Vec<char> = vec!['/'];
    assert(slash@ =~= seq!['/']);
    if !ends_with_exec(base, &slash) {
        out.push('/');
    }
    push_all(&mut out, iri);
    proof {
        if ends_with(base@, seq!['/']) {
            assert(out@ =~= base@ + iri@);
        } else {
            assert(out@ =~= base@ + seq!['/'] + iri@);
        }
    }
    out
}

} // verus!

verus! {

/// `element_inner`: the trimmed content of the element named `tag` that `block` opens with
/// (after leading whitespace).  Empty when `block` does not open with it, when the element
/// does not close, or where the close tag cannot be located inside the element's bounds.
pub open spec fn element_inner(block: Seq<char>, tag: Seq<char>) -> Seq<char> {
    let open = open_of(tag);
    if !starts_with(trim_start(block), open) {
        Seq::empty()
    } else {
        let start = match find_from(block, 0, open) {
            Some(i) => i,
            None => 0,
        };
        match tagged_end(block, start, tag) {
            None => Seq::empty(),
            Some(end) => {
                let open_end = match find_from(block, start, seq!['>']) {
                    Some(g) => g + 1,
                    None => start,
                };
                let cs = match rfind(block.subrange(start, end), close_of(tag)) {
                    Some(r) => start + r,
                    None => start + end,
                };
                if open_end <= cs && cs <= block.len() {
                    trim(block.subrange(open_end, cs))
                } else {
                    Seq::empty()
                }
            },
        }
    }
}

/// `element_inner`.
pub fn element_inner_exec(block: &Vec<char>, tag: &Vec<char>) -> (r: Vec<char>)
    ensures
        r@ == element_inner(block@, tag@),
{
    let (open, close) = open_close(tag);
    let ts = trim_start_exec(block);
    if !starts_with_exec(&ts, &open) {
        return Vec::new();
    }
    let start = match find(block, 0, &open) {
        Some(i) => i,
        None => 0,
    };
    proof {
        lemma_find_from_bounds(block@, 0, open@);
    }
    if start > block.len() {
        return Vec::new();
    }
    let end = match tag_element_end(block, start, tag) {
        None => return Vec::new(),
        Some(e) => e,
    };
    let gtv: Vec<char> = vec!['>'];
    assert(gtv@ =~= seq!['>']);
    let open_end = match find(block, start, &gtv) {
        Some(g) => {
            proof {
                lemma_find_from_bounds(block@, start as int, gtv@);
                assert(g < block.len());
            }
            g + 1
        },
        None => start,
    };
    let inside = slice(block, start, end);
    let cs = match rfind_exec(&inside, &close) {
        Some(r) => {
            proof {
                lemma_rfind_bounds(inside@, close@);
            }
            start + r
        },
        None => {
            if end > block.len() - start {
                return Vec::new();
            }
            start + end
        },
    };
    if open_end <= cs && cs <= block.len() {
        let piece = slice(block, open_end, cs);
        trim_exec(&piece)
    } else {
        Vec::new()
    }
}

/// `element_inner` for a literal tag name.
pub fn element_inner_lit(block: &Vec<char>, tag: &str) -> (r: Vec<char>)
    ensures
        r@ == element_inner(block@, tag@),
{
    let t = chars_of(tag);
    element_inner_exec(block, &t)
}

} // verus!

verus! {

/// The name after `</` in a close tag (`tag` without `</` and `>`, first word if any).
pub open spec fn close_tag_name(tag: Seq<char>) -> Seq<char> {
    let core = tag.subrange(2, tag.len() - 1);
    match first_word(core) {
        Some(w) => w,
        None => core,
    }
}

/// The depth-tracking loop of `find_element_end` from `search`: `Some(Some(e))` when the
/// balancing close tag is met, `Some(None)` when the loop ends without it (the caller then
/// searches for the first close tag), `None` when a tag does not end.  The element ends, and the
/// next search starts, just after the `>` of the tag last read.
pub open spec fn element_end_scan(s: Seq<char>, name: Seq<char>, search: int, depth: nat) -> Option<
    Option<int>,
>
    decreases s.len() - search,
{
    if search < 0 || depth == 0 || search >= s.len() || search > usize::MAX {
        Some(None)
    } else {
        match find_from(s, search, seq!['<']) {
            None => None,
            Some(abs) => match find_from(s, abs, seq!['>']) {
                None => None,
                Some(te) => if abs < search || te < abs || te >= s.len() {
                    None
                } else {
                    let tag = s.subrange(abs, te + 1);
                    let next = te + 1;
                    if starts_with(tag, "</"@) {
                        if tag.len() >= 3 && close_tag_name(tag) == name {
                            let d: nat = (depth - 1) as nat;
                            if d == 0 {
                                Some(Some(te + 1))
                            } else {
                                element_end_scan(s, name, next, d)
                            }
                        } else {
                            element_end_scan(s, name, next, depth)
                        }
                    } else if !ends_with(tag, "/>"@) && !starts_with(tag, "<?"@) && !starts_with(
                        tag,
                        "<!"@,
                    ) && element_name(tag) == Some(name) {
                        element_end_scan(s, name, next, depth + 1)
                    } else {
                        element_end_scan(s, name, next, depth)
                    }
                },
            },
        }
    }
}

/// The answer of `find_element_end` once its walk has given `walk`.
pub open spec fn element_end_finish(
    s: Seq<char>,
    open_start: int,
    name: Seq<char>,
    walk: Option<Option<int>>,
) -> Option<int> {
    match walk {
        None => None,
        Some(Some(e)) => Some(e),
        Some(None) => match find_from(s, open_start, close_of(name)) {
            Some(i) => Some(i + close_of(name).len()),
            None => None,
        },
    }
}

/// The end of the element whose open tag starts at `open_start`.  A
/// self-closing open tag (or one holding `</`) ends at its `>`; otherwise tags are walked
/// keeping a depth of same-named elements, and when that walk ends without an answer the
/// first `</name>` after the start ends the element.
pub open spec fn element_end(s: Seq<char>, open_start: int) -> Option<int> {
    match find_from(s, open_start, seq!['>']) {
        None => None,
        Some(oe) => {
            let open_tag = s.subrange(open_start, oe + 1);
            if ends_with(open_tag, "/>"@) || contains(open_tag, "</"@) {
                Some(oe + 1)
            } else {
                match element_name(open_tag) {
                    None => None,
                    Some(name) => element_end_finish(
                        s,
                        open_start,
                        name,
                        element_end_scan(s, name, oe + 1, 1),
                    ),
                }
            }
        },
    }
}

pub proof fn lemma_element_end_scan_after(s: Seq<char>, name: Seq<char>, search: int, depth: nat)
    requires
        0 <= search,
    ensures
        element_end_scan(s, name, search, depth) matches Some(Some(e)) ==> e > search,
    decreases s.len() - search,
{
    if depth > 0 && search < s.len() && search <= usize::MAX {
        lemma_find_from_bounds(s, search, seq!['<']);
        match find_from(s, search, seq!['<']) {
            None => {},
            Some(abs) => {
                lemma_find_from_bounds(s, abs, seq!['>']);
                match find_from(s, abs, seq!['>']) {
                    None => {},
                    Some(te) => {
                        if !(abs < search || te < abs || te >= s.len()) {
                            let tag = s.subrange(abs, te + 1);
                            let next = te + 1;
                            if starts_with(tag, "</"@) {
                                if tag.len() >= 3 && close_tag_name(tag) == name {
                                    let d: nat = (depth - 1) as nat;
                                    if d != 0 {
                                        lemma_element_end_scan_after(s, name, next, d);
                                    }
                                } else {
                                    lemma_element_end_scan_after(s, name, next, depth);
                                }
                            } else if !ends_with(tag, "/>"@) && !starts_with(tag, "<?"@)
                                && !starts_with(tag, "<!"@) && element_name(tag) == Some(name) {
                                lemma_element_end_scan_after(s, name, next, depth + 1);
                            } else {
                                lemma_element_end_scan_after(s, name, next, depth);
                            }
                        }
                    },
                }
            },
        }
    }
}

pub proof fn lemma_element_end_after(s: Seq<char>, open_start: int)
    requires
        0 <= open_start,
    ensures
        element_end(s, open_start) matches Some(e) ==> e > open_start,
{
    lemma_find_from_bounds(s, open_start, seq!['>']);
    match find_from(s, open_start, seq!['>']) {
        None => {},
        Some(oe) => {
            let open_tag = s.subrange(open_start, oe + 1);
            if !(ends_with(open_tag, "/>"@) || contains(open_tag, "</"@)) {
                match element_name(open_tag) {
                    None => {},
                    Some(name) => {
                        lemma_element_end_scan_after(s, name, oe + 1, 1);
                        lemma_find_from_bounds(s, open_start, close_of(name));
                    },
                }
            }
        },
    }
}

fn close_tag_name_exec(tag: &Vec<char>) -> (r: Vec<char>)
    requires
        tag.len() >= 3,
    ensures
        r@ == close_tag_name(tag@),
{
    let core = slice(tag, 2, tag.len() - 1);
    match first_word_exec(&core) {
        Some(w) => w,
        None => core,
    }
}

/// `find_element_end`.
pub fn find_element_end(s: &Vec<char>, open_start: usize) -> (r: Option<usize>)
    ensures
        opt_int(r) == element_end(s@, open_start as int),
        r matches Some(e) ==> e > open_start,
{
    proof {
        lemma_element_end_after(s@, open_start as int);
    }
    let gtv: Vec<char> = vec!['>'];
    assert(gtv@ =~= seq!['>']);
    let ltv: Vec<char> = vec!['<'];
    assert(ltv@ =~= seq!['<']);
    let oe = match find(s, open_start, &gtv) {
        None => return None,
        Some(oe) => oe,
    };
    proof {
        lemma_find_from_bounds(s@, open_start as int, gtv@);
        assert(oe < s.len());
    }
    let open_tag = slice(s, open_start, oe + 1);
    if crate::text::ends_with_exec(&open_tag, &chars_of("/>")) || contains_lit(&open_tag, "</") {
        return Some(oe + 1);
    }
    let name = match element_name_exec(&open_tag) {
        None => return None,
        Some(n) => n,
    };
    let mut depth: usize = 1;
    let mut search: usize = oe + 1;
    while depth > 0 && search < s.len()
        invariant
            gtv@ == seq!['>'],
            ltv@ == seq!['<'],
            depth <= search,
            search > open_start,
            element_end(s@, open_start as int) == element_end_finish(
                s@,
                open_start as int,
                name@,
                element_end_scan(s@, name@, search as int, depth as nat),
            ),
        decreases usize::MAX - search,
    {
        let abs = match find(s, search, &ltv) {
            None => return None,
            Some(a) => a,
        };
        let te = match find(s, abs, &gtv) {
            None => return None,
            Some(t) => t,
        };
        proof {
            lemma_find_from_bounds(s@, search as int, ltv@);
            lemma_find_from_bounds(s@, abs as int, gtv@);
            assert(te < s.len());
        }
        let tag = slice(s, abs, te + 1);
        let next = te + 1;
        if at_lit(&tag, 0, "</") {
            if tag.len() >= 3 && vec_eq(&close_tag_name_exec(&tag), &name) {
                if depth - 1 == 0 {
                    return Some(next);
                }
                depth -= 1;
            }
        } else if !crate::text::ends_with_exec(&tag, &chars_of("/>")) && !at_lit(&tag, 0, "<?")
            && !at_lit(&tag, 0, "<!") && opt_vec_eq(&element_name_exec(&tag), &name) {
            depth += 1;
        }
        search = next;
    }
    let (_, close) = open_close(&name);
    match find(s, open_start, &close) {
        Some(i) => {
            proof {
                lemma_find_from_bounds(s@, open_start as int, close@);
            }
            Some(i + close.len())
        },
        None => None,
    }
}

fn opt_vec_eq(a: &Option<Vec<char>>, b: &Vec<char>) -> (r: bool)
    ensures
        r == (match a {
            Some(v) => Some(v@),
            None => None::<Seq<char>>,
        } == Some(b@)),
{
    match a {
        Some(v) => vec_eq(v, b),
        None => false,
    }
}

} // verus!

verus! {

/// The end of the element named `tag` that opens at character index `start` of `input`: just
/// after its `>` when the open tag closes itself, else just after the `</tag>` that balances it.
pub fn tagged_element_end(input: &str, start: usize, tag: &str) -> (r: Option<usize>)
    requires
        start <= input@.len(),
    ensures
        opt_int(r) == tagged_end(input@, start as int, tag@),
        r matches Some(e) ==> start < e <= input@.len(),
{
    let s = chars_of(input);
    let t = chars_of(tag);
    tag_element_end(&s, start, &t)
}

/// The `xmlns` prefix declarations on the root `<rdf:RDF>` tag of `input`.
pub fn parse_xmlns(input: &str) -> (r: Namespaces)
    ensures
        r.wf(),
        r.entries() == xmlns_of(input@),
{
    let s = chars_of(input);
    xmlns_declarations(&s)
}

} // verus!

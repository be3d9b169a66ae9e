//! Expansion of XML internal entities in RDF/XML before parsing.
use vstd::prelude::*;

use crate::error::Error;
use crate::text::{chars_of, contains, contains_lit, copy, decimal, find, find_from, find_lit, is_whitespace, lemma_find_from_bounds, lemma_replace_absent, matches_at, replace_from, opt_int, push_all, push_decimal, push_decimal_u128, push_range, push_str, replace_all, replace_all_exec, slice, starts_with, string_of, trim, trim_exec, utf8_len, utf8_len_exceeds, at_lit, index_of, index_of_exec, trim_start, trim_start_exec};
use crate::xml::vec_eq;

verus! {

/// The first index at or after `i` holding whitespace.
pub open spec fn first_ws_from(s: Seq<char>, i: int) -> Option<int>
    decreases s.len() - i,
{
    if i < 0 || i >= s.len() {
        None
    } else if is_whitespace(s[i]) {
        Some(i)
    } else {
        first_ws_from(s, i + 1)
    }
}

/// `parse_entity_decl`: the name and quoted value of `<!ENTITY name "value">` (or with single
/// quotes) at the start of `rest`.
pub open spec fn entity_decl(rest: Seq<char>) -> Option<(Seq<char>, Seq<char>)> {
    if !starts_with(rest, "<!ENTITY"@) {
        None
    } else {
        let body = trim(rest.subrange(8, rest.len() as int));
        match first_ws_from(body, 0) {
            None => None,
            Some(w) => {
                let name = trim(body.subrange(0, w));
                let after = trim_start(body.subrange(w + 1, body.len() as int));
                if after.len() == 0 || !(after[0] == '"' || after[0] == '\'') {
                    None
                } else {
                    let q = after[0];
                    let v = after.subrange(1, after.len() as int);
                    match index_of(v, q) {
                        None => None,
                        Some(e) => Some((name, v.subrange(0, e))),
                    }
                }
            },
        }
    }
}

pub proof fn lemma_first_ws_bounds(s: Seq<char>, i: int)
    requires
        0 <= i,
    ensures
        first_ws_from(s, i) matches Some(w) ==> i <= w < s.len(),
    decreases s.len() - i,
{
    if i < s.len() && !is_whitespace(s[i]) {
        lemma_first_ws_bounds(s, i + 1);
    }
}

fn first_ws_exec(s: &Vec<char>) -> (r: Option<usize>)
    ensures
        opt_int(r) == first_ws_from(s@, 0),
        r matches Some(w) ==> w < s.len(),
{
    proof {
        lemma_first_ws_bounds(s@, 0);
    }
    let mut i: usize = 0;
    while i < s.len()
        invariant
            i <= s.len(),
            first_ws_from(s@, 0) == first_ws_from(s@, i as int),
        decreases s.len() - i,
    {
        if crate::text::char_is_whitespace(s[i]) {
            return Some(i);
        }
        i += 1;
    }
    None
}

/// `parse_entity_decl`.
pub fn parse_entity_decl(rest: &Vec<char>) -> (r: Option<(Vec<char>, Vec<char>)>)
    ensures
        match r {
            Some((n, v)) => entity_decl(rest@) == Some((n@, v@)),
            None => entity_decl(rest@) is None,
        },
{
    if !at_lit(rest, 0, "<!ENTITY") {
        return None;
    }
    proof {
        reveal_strlit("<!ENTITY");
    }
    let tail = slice(rest, 8, rest.len());
    let body = trim_exec(&tail);
    let w = match first_ws_exec(&body) {
        None => return None,
        Some(w) => w,
    };
    let name_part = slice(&body, 0, w);
    let name = trim_exec(&name_part);
    let after_part = slice(&body, w + 1, body.len());
    let after = trim_start_exec(&after_part);
    if after.len() == 0 || !(after[0] == '"' || after[0] == '\'') {
        return None;
    }
    let q = after[0];
    let v = slice(&after, 1, after.len());
    match index_of_exec(&v, q) {
        None => None,
        Some(e) => {
            proof {
                lemma_find_from_bounds(v@, 0, seq![q]);
                assert(e < v.len());
            }
            Some((name, slice(&v, 0, e)))
        },
    }
}

/// Entity declarations in first-declaration order; a later declaration of a name replaces
/// the value in place.
pub open spec fn table_insert(t: Seq<(Seq<char>, Seq<char>)>, n: Seq<char>, v: Seq<char>) -> Seq<
    (Seq<char>, Seq<char>),
> {
    match key_index_from(t, n, 0) {
        Some(i) => t.update(i, (n, v)),
        None => t.push((n, v)),
    }
}

/// The first index at or after `i` whose entry has key `n`.
pub open spec fn key_index_from(t: Seq<(Seq<char>, Seq<char>)>, n: Seq<char>, i: int) -> Option<
    int,
>
    decreases t.len() - i,
{
    if i < 0 || i >= t.len() {
        None
    } else if t[i].0 == n {
        Some(i)
    } else {
        key_index_from(t, n, i + 1)
    }
}

/// The declarations found line by line from index `i` (`str::lines`: lines end at `\n`, and a
/// `\r` before it is dropped).
pub open spec fn decl_scan(s: Seq<char>, i: int, t: Seq<(Seq<char>, Seq<char>)>) -> Seq<
    (Seq<char>, Seq<char>),
>
    decreases s.len() - i,
{
    if i < 0 || i > s.len() {
        t
    } else {
        let nl = find_from(s, i, seq!['\n']);
        let e = match nl {
            Some(k) => k,
            None => s.len() as int,
        };
        if e < i || e > s.len() {
            t
        } else {
            let raw = s.subrange(i, e);
            let line = if nl is Some && raw.len() > 0 && raw[raw.len() - 1] == '\r' {
                raw.drop_last()
            } else {
                raw
            };
            let t2 = match find_from(line, 0, "<!ENTITY"@) {
                Some(idx) => match entity_decl(line.subrange(idx, line.len() as int)) {
                    Some((n, v)) => table_insert(t, n, v),
                    None => t,
                },
                None => t,
            };
            match nl {
                None => t2,
                Some(k) => if k + 1 <= s.len() {
                    decl_scan(s, k + 1, t2)
                } else {
                    t2
                },
            }
        }
    }
}

/// The entity table of a document.
pub open spec fn entity_table(s: Seq<char>) -> Seq<(Seq<char>, Seq<char>)> {
    decl_scan(s, 0, seq![])
}

/// The entity table of a document, held as two parallel vectors.
pub struct EntityTable {
    pub names: Vec<Vec<char>>,
    pub values: Vec<Vec<char>>,
}

impl EntityTable {
    pub open spec fn wf(&self) -> bool {
        self.names.len() == self.values.len()
    }

    pub open spec fn entries(&self) -> Seq<(Seq<char>, Seq<char>)> {
        Seq::new(self.names.len() as nat, |i: int| (self.names@[i]@, self.values@[i]@))
    }

    fn insert(&mut self, n: Vec<char>, v: Vec<char>)
        requires
            old(self).wf(),
        ensures
            final(self).wf(),
            final(self).entries() == table_insert(old(self).entries(), n@, v@),
    {
        let ghost t = self.entries();
        let mut i: usize = 0;
        while i < self.names.len()
            invariant
                self.wf(),
                self.entries() == t,
                t == old(self).entries(),
                i <= self.names.len(),
                key_index_from(t, n@, 0) == key_index_from(t, n@, i as int),
            decreases self.names.len() - i,
        {
            if vec_eq(&self.names[i], &n) {
                let ghost vv = v@;
                assert(t[i as int].0 == n@);
                assert(key_index_from(t, n@, i as int) == Some(i as int));
                self.values.set(i, v);
                assert(self.entries() =~= t.update(i as int, (n@, vv)));
                assert(key_index_from(t, n@, 0) == Some(i as int));
                assert(table_insert(t, n@, vv) == t.update(i as int, (n@, vv)));
                assert(t == old(self).entries());
                assert(vv == v@);
                return;
            }
            i += 1;
        }
        let ghost nv = n@;
        let ghost vv = v@;
        self.names.push(n);
        self.values.push(v);
        assert(self.entries() =~= t.push((nv, vv)));
    }
}

} // verus!

verus! {

/// `entity_table`: the `<!ENTITY ...>` declarations of a document, line by line.
pub fn collect_entities(s: &Vec<char>) -> (r: EntityTable)
    ensures
        r.wf(),
        r.entries() == entity_table(s@),
{
    let mut t = EntityTable { names: Vec::new(), values: Vec::new() };
    assert(t.entries() =~= seq![]);
    let nlv: Vec<char> = vec!['\n'];
    assert(nlv@ =~= seq!['\n']);
    let mut i: usize = 0;
    while i <= s.len()
        invariant
            t.wf(),
            nlv@ == seq!['\n'],
            i <= s.len() + 1,
            decl_scan(s@, i as int, t.entries()) == entity_table(s@),
        decreases s.len() + 1 - i,
    {
        let nl = find(s, i, &nlv);
        proof {
            lemma_find_from_bounds(s@, i as int, nlv@);
        }
        let e = match nl {
            Some(k) => k,
            None => s.len(),
        };
        let raw = slice(s, i, e);
        let line = if nl.is_some() && raw.len() > 0 && raw[raw.len() - 1] == '\r' {
            let l = slice(&raw, 0, raw.len() - 1);
            assert(l@ =~= raw@.drop_last());
            l
        } else {
            raw
        };
        let ghost before = t.entries();
        match find_lit(&line, 0, "<!ENTITY") {
            Some(idx) => {
                proof {
                    lemma_find_from_bounds(line@, 0, "<!ENTITY"@);
                }
                let frag = slice(&line, idx, line.len());
                match parse_entity_decl(&frag) {
                    Some((n, v)) => {
                        t.insert(n, v);
                    },
                    None => {},
                }
            },
            None => {},
        }
        match nl {
            None => {
                return t;
            },
            Some(k) => {
                i = k + 1;
            },
        }
    }
    t
}

/// `find_doctype_end`: just past the `>` that closes the doctype at `start`, skipping quoted
/// text and the `[...]` internal subset (`opens - closes` is the bracket depth).
pub open spec fn doctype_scan(s: Seq<char>, i: int, quote: Option<char>, depth: int) -> Option<int>
    decreases s.len() - i,
{
    if i < 0 || i >= s.len() {
        None
    } else {
        let b = s[i];
        match quote {
            Some(q) => if b == q {
                doctype_scan(s, i + 1, None, depth)
            } else {
                doctype_scan(s, i + 1, quote, depth)
            },
            None => if b == '"' || b == '\'' {
                doctype_scan(s, i + 1, Some(b), depth)
            } else if b == '[' {
                doctype_scan(s, i + 1, None, depth + 1)
            } else if b == ']' {
                doctype_scan(s, i + 1, None, depth - 1)
            } else if b == '>' && depth == 0 {
                Some(i + 1)
            } else {
                doctype_scan(s, i + 1, None, depth)
            },
        }
    }
}

pub proof fn lemma_doctype_scan_bounds(s: Seq<char>, i: int, quote: Option<char>, depth: int)
    requires
        0 <= i,
    ensures
        doctype_scan(s, i, quote, depth) matches Some(e) ==> i < e <= s.len(),
    decreases s.len() - i,
{
    if i < s.len() {
        let b = s[i];
        match quote {
            Some(q) => if b == q {
                lemma_doctype_scan_bounds(s, i + 1, None, depth);
            } else {
                lemma_doctype_scan_bounds(s, i + 1, quote, depth);
            },
            None => if b == '"' || b == '\'' {
                lemma_doctype_scan_bounds(s, i + 1, Some(b), depth);
            } else if b == '[' {
                lemma_doctype_scan_bounds(s, i + 1, None, depth + 1);
            } else if b == ']' {
                lemma_doctype_scan_bounds(s, i + 1, None, depth - 1);
            } else if !(b == '>' && depth == 0) {
                lemma_doctype_scan_bounds(s, i + 1, None, depth);
            },
        }
    }
}

/// `find_doctype_end`.
pub fn find_doctype_end(s: &Vec<char>, start: usize) -> (r: Option<usize>)
    ensures
        opt_int(r) == doctype_scan(s@, start as int, None, 0),
        r matches Some(e) ==> start < e <= s.len(),
{
    proof {
        lemma_doctype_scan_bounds(s@, start as int, None, 0);
    }
    let mut quote: Option<char> = None;
    let mut opens: usize = 0;
    let mut closes: usize = 0;
    let mut i = start;
    while i < s.len()
        invariant
            start <= i,
            opens + closes <= i - start,
            doctype_scan(s@, start as int, None, 0) == doctype_scan(
                s@,
                i as int,
                quote,
                opens - closes,
            ),
        decreases s.len() - i,
    {
        let b = s[i];
        match quote {
            Some(q) => {
                if b == q {
                    quote = None;
                }
            },
            None => {
                if b == '"' || b == '\'' {
                    quote = Some(b);
                } else if b == '[' {
                    opens += 1;
                } else if b == ']' {
                    closes += 1;
                } else if b == '>' && opens == closes {
                    return Some(i + 1);
                }
            },
        }
        i += 1;
    }
    None
}

/// `strip_xml_internal_subset`: the text without its `<!DOCTYPE ...>` declaration.
pub open spec fn strip_internal_subset(s: Seq<char>) -> Seq<char> {
    match find_from(s, 0, "<!DOCTYPE"@) {
        None => s,
        Some(start) => match doctype_scan(s, start, None, 0) {
            None => s,
            Some(end) => s.subrange(0, start) + s.subrange(end, s.len() as int),
        },
    }
}

/// `strip_xml_internal_subset`.
pub fn strip_xml_internal_subset(s: &Vec<char>) -> (r: Vec<char>)
    ensures
        r@ == strip_internal_subset(s@),
{
    let start = match find_lit(s, 0, "<!DOCTYPE") {
        None => return copy(s),
        Some(st) => st,
    };
    let end = match find_doctype_end(s, start) {
        None => return copy(s),
        Some(e) => e,
    };
    let mut out = slice(s, 0, start);
    push_range(&mut out, s, end, s.len());
    out
}

} // verus!

verus! {

/// `&name;`
pub open spec fn entity_ref(name: Seq<char>) -> Seq<char> {
    seq!['&'] + name + seq![';']
}

/// One expansion round from entry `j`: each entity reference is replaced in turn; `None` as
/// soon as the text grows past `max` bytes.
pub open spec fn expand_round(
    s: Seq<char>,
    t: Seq<(Seq<char>, Seq<char>)>,
    j: int,
    max: nat,
) -> Option<Seq<char>>
    decreases t.len() - j,
{
    if j < 0 || j >= t.len() {
        Some(s)
    } else {
        let s2 = replace_all(s, entity_ref(t[j].0), t[j].1);
        if utf8_len(s2) > max {
            None
        } else {
            expand_round(s2, t, j + 1, max)
        }
    }
}

/// Up to eight expansion rounds from round `r`, stopping early once a round changes nothing.
pub open spec fn expand_rounds(
    s: Seq<char>,
    t: Seq<(Seq<char>, Seq<char>)>,
    r: int,
    max: nat,
) -> Option<Seq<char>>
    decreases 8 - r,
{
    if r >= 8 {
        Some(s)
    } else {
        match expand_round(s, t, 0, max) {
            None => None,
            Some(s2) => if s2 == s {
                Some(s2)
            } else {
                expand_rounds(s2, t, r + 1, max)
            },
        }
    }
}

/// The message for an input that is over the size limit before any expansion.
pub open spec fn size_limit_message(len: nat, max: nat) -> Seq<char> {
    "expanded RDF/XML size "@ + decimal(len) + " exceeds limit of "@ + decimal(max) + " bytes"@
}

/// The message for an expansion that grows past the size limit.
pub open spec fn expansion_limit_message(max: nat) -> Seq<char> {
    "expanded RDF/XML size exceeds limit of "@ + decimal(max)
        + " bytes during entity expansion"@
}

/// `expand_xml_entities_with_limit`: without `<!ENTITY` declarations the text is kept (the
/// internal subset removed when some `<!ENTITY` text declares nothing usable) if it fits in
/// `max` bytes; otherwise every declared `&name;` is expanded, round after round, and the
/// doctype removed.  `None` when the text does not fit in `max` bytes.
pub open spec fn expanded(s: Seq<char>, max: nat) -> Result<Seq<char>, Seq<char>> {
    if !contains(s, "<!ENTITY"@) {
        if utf8_len(s) > max {
            Err(size_limit_message(utf8_len(s), max))
        } else {
            Ok(s)
        }
    } else if entity_table(s).len() == 0 {
        if utf8_len(s) > max {
            Err(size_limit_message(utf8_len(s), max))
        } else {
            Ok(strip_internal_subset(s))
        }
    } else {
        match expand_rounds(s, entity_table(s), 0, max) {
            None => Err(expansion_limit_message(max)),
            Some(out) => Ok(strip_internal_subset(out)),
        }
    }
}

fn expand_round_exec(s: &Vec<char>, t: &EntityTable, max: usize) -> (r: Option<Vec<char>>)
    requires
        t.wf(),
    ensures
        match r {
            Some(v) => expand_round(s@, t.entries(), 0, max as nat) == Some(v@),
            None => expand_round(s@, t.entries(), 0, max as nat) is None,
        },
{
    let mut out = copy(s);
    let mut j: usize = 0;
    while j < t.names.len()
        invariant
            t.wf(),
            j <= t.names.len(),
            expand_round(s@, t.entries(), 0, max as nat) == expand_round(
                out@,
                t.entries(),
                j as int,
                max as nat,
            ),
        decreases t.names.len() - j,
    {
        let mut pat: Vec<char> = vec!['&'];
        push_all(&mut pat, &t.names[j]);
        pat.push(';');
        assert(pat@ =~= entity_ref(t.entries()[j as int].0));
        let next = replace_all_exec(&out, &pat, &t.values[j]);
        if utf8_len_exceeds(&next, max) {
            return None;
        }
        out = next;
        j += 1;
    }
    Some(out)
}

fn expand_rounds_exec(s: &Vec<char>, t: &EntityTable, max: usize) -> (r: Option<Vec<char>>)
    requires
        t.wf(),
    ensures
        match r {
            Some(v) => expand_rounds(s@, t.entries(), 0, max as nat) == Some(v@),
            None => expand_rounds(s@, t.entries(), 0, max as nat) is None,
        },
{
    let mut out = copy(s);
    let mut round: usize = 0;
    while round < 8
        invariant
            t.wf(),
            round <= 8,
            expand_rounds(s@, t.entries(), 0, max as nat) == expand_rounds(
                out@,
                t.entries(),
                round as int,
                max as nat,
            ),
        decreases 8 - round,
    {
        let next = match expand_round_exec(&out, t, max) {
            None => return None,
            Some(n) => n,
        };
        if vec_eq(&next, &out) {
            return Some(next);
        }
        out = next;
        round += 1;
    }
    Some(out)
}

fn size_limit_error(len_of: &Vec<char>, max: usize) -> (e: Error)
    ensures
        e == Error::Parse(e->Parse_0) && e->Parse_0@ == size_limit_message(
            utf8_len(len_of@),
            max as nat,
        ),
{
    let n = crate::text::utf8_len_exec(len_of);
    let mut m: Vec<char> = Vec::new();
    push_str(&mut m, "expanded RDF/XML size ");
    push_decimal_u128(&mut m, n);
    push_str(&mut m, " exceeds limit of ");
    push_decimal(&mut m, max);
    push_str(&mut m, " bytes");
    Error::Parse(string_of(&m))
}

/// Expand entities with an output size cap for untrusted RDF/XML.
pub fn expand_xml_entities_with_limit(input: &str, max_bytes: usize) -> (r: Result<String, Error>)
    ensures
        match expanded(input@, max_bytes as nat) {
            Ok(out) => r matches Ok(v) && v@ == out,
            Err(msg) => r matches Err(Error::Parse(m)) && m@ == msg,
        },
{
    let s = chars_of(input);
    match expand_chars(&s, max_bytes) {
        Ok(v) => Ok(string_of(&v)),
        Err(e) => Err(e),
    }
}

/// `expand_xml_entities_with_limit` on a character vector.
pub fn expand_chars(s: &Vec<char>, max_bytes: usize) -> (r: Result<Vec<char>, Error>)
    ensures
        match expanded(s@, max_bytes as nat) {
            Ok(out) => r matches Ok(v) && v@ == out,
            Err(msg) => r matches Err(Error::Parse(m)) && m@ == msg,
        },
{
    if !contains_lit(s, "<!ENTITY") {
        if utf8_len_exceeds(s, max_bytes) {
            return Err(size_limit_error(s, max_bytes));
        }
        return Ok(copy(s));
    }
    let t = collect_entities(s);
    if t.names.len() == 0 {
        if utf8_len_exceeds(s, max_bytes) {
            return Err(size_limit_error(s, max_bytes));
        }
        return Ok(strip_xml_internal_subset(s));
    }
    match expand_rounds_exec(s, &t, max_bytes) {
        None => {
            let mut m: Vec<char> = Vec::new();
            push_str(&mut m, "expanded RDF/XML size exceeds limit of ");
            push_decimal(&mut m, max_bytes);
            push_str(&mut m, " bytes during entity expansion");
            Err(Error::Parse(string_of(&m)))
        },
        Some(out) => Ok(strip_xml_internal_subset(&out)),
    }
}

/// `expand_xml_entities`: entity expansion without a size cap; where expansion fails the
/// input is returned unchanged.
pub open spec fn entities_expanded(s: Seq<char>) -> Seq<char> {
    match expanded(s, usize::MAX as nat) {
        Ok(out) => out,
        Err(_) => s,
    }
}

/// Expand `<!ENTITY ...>` declarations in an RDF/XML prolog.
pub fn expand_xml_entities(input: &str) -> (r: String)
    ensures
        r@ == entities_expanded(input@),
{
    let s = chars_of(input);
    match expand_chars(&s, usize::MAX) {
        Ok(v) => string_of(&v),
        Err(_) => string_of(&s),
    }
}

} // verus!

verus! {

proof fn lemma_round_within_limit(s: Seq<char>, t: Seq<(Seq<char>, Seq<char>)>, j: int, max: nat)
    requires
        0 <= j < t.len(),
    ensures
        expand_round(s, t, j, max) matches Some(v) ==> utf8_len(v) <= max,
    decreases t.len() - j,
{
    let s2 = replace_all(s, entity_ref(t[j].0), t[j].1);
    if utf8_len(s2) <= max {
        if j + 1 < t.len() {
            lemma_round_within_limit(s2, t, j + 1, max);
        } else {
            assert(expand_round(s2, t, j + 1, max) == Some(s2));
        }
    }
}

proof fn lemma_rounds_within_limit(s: Seq<char>, t: Seq<(Seq<char>, Seq<char>)>, r: int, max: nat)
    requires
        0 < t.len(),
        r < 8,
    ensures
        expand_rounds(s, t, r, max) matches Some(v) ==> utf8_len(v) <= max,
    decreases 8 - r,
{
    lemma_round_within_limit(s, t, 0, max);
    match expand_round(s, t, 0, max) {
        None => {},
        Some(s2) => {
            if s2 != s && r + 1 < 8 {
                lemma_rounds_within_limit(s2, t, r + 1, max);
            }
        },
    }
}

proof fn lemma_strip_shrinks(s: Seq<char>)
    ensures
        utf8_len(strip_internal_subset(s)) <= utf8_len(s),
{
    match find_from(s, 0, "<!DOCTYPE"@) {
        None => {},
        Some(start) => {
            crate::text::lemma_find_from_bounds(s, 0, "<!DOCTYPE"@);
            lemma_doctype_scan_bounds(s, start, None, 0);
            match doctype_scan(s, start, None, 0) {
                None => {},
                Some(end) => {
                    let a = s.subrange(0, start);
                    let m = s.subrange(start, end);
                    let b = s.subrange(end, s.len() as int);
                    assert(s =~= a + m + b);
                    crate::text::lemma_utf8_len_concat(a + m, b);
                    crate::text::lemma_utf8_len_concat(a, m);
                    crate::text::lemma_utf8_len_concat(a, b);
                },
            }
        },
    }
}

/// Entity expansion never produces a document larger than the limit: whatever
/// `expand_xml_entities_with_limit` accepts fits in `max` bytes of UTF-8.
pub proof fn lemma_expansion_within_limit(s: Seq<char>, max: nat)
    ensures
        expanded(s, max) matches Ok(out) ==> utf8_len(out) <= max,
{
    if contains(s, "<!ENTITY"@) {
        if entity_table(s).len() == 0 {
            lemma_strip_shrinks(s);
        } else {
            lemma_rounds_within_limit(s, entity_table(s), 0, max);
            match expand_rounds(s, entity_table(s), 0, max) {
                None => {},
                Some(out) => {
                    lemma_strip_shrinks(out);
                },
            }
        }
    }
}


proof fn lemma_round_cap_raised(s: Seq<char>, t: Seq<(Seq<char>, Seq<char>)>, j: int, m1: nat, m2: nat)
    requires
        m1 <= m2,
    ensures
        expand_round(s, t, j, m1) matches Some(x) ==> expand_round(s, t, j, m2) == Some(x),
    decreases t.len() - j,
{
    if 0 <= j < t.len() {
        let s2 = replace_all(s, entity_ref(t[j].0), t[j].1);
        if utf8_len(s2) <= m1 {
            lemma_round_cap_raised(s2, t, j + 1, m1, m2);
        }
    }
}

proof fn lemma_rounds_cap_raised(s: Seq<char>, t: Seq<(Seq<char>, Seq<char>)>, r: int, m1: nat, m2: nat)
    requires
        m1 <= m2,
    ensures
        expand_rounds(s, t, r, m1) matches Some(x) ==> expand_rounds(s, t, r, m2) == Some(x),
    decreases 8 - r,
{
    if r < 8 {
        lemma_round_cap_raised(s, t, 0, m1, m2);
        match expand_round(s, t, 0, m1) {
            None => {},
            Some(s2) => {
                if s2 != s {
                    lemma_rounds_cap_raised(s2, t, r + 1, m1, m2);
                }
            },
        }
    }
}

/// The size cap of entity expansion decides only whether it fails, never the text: a larger cap
/// keeps every success, with the same text, and two caps that both succeed give the same text.
pub proof fn lemma_cap_decides_only_failure(s: Seq<char>, m1: nat, m2: nat)
    ensures
        m1 <= m2 ==> (expanded(s, m1) matches Ok(a) ==> expanded(s, m2) == Ok::<Seq<char>, Seq<char>>(a)),
        expanded(s, m1) matches Ok(a) ==> (expanded(s, m2) matches Ok(b) ==> a == b),
{
    if contains(s, "<!ENTITY"@) && entity_table(s).len() != 0 {
        if m1 <= m2 {
            lemma_rounds_cap_raised(s, entity_table(s), 0, m1, m2);
        } else {
            lemma_rounds_cap_raised(s, entity_table(s), 0, m2, m1);
        }
    }
}

/// `expand_xml_entities` expands with no cap short of the machine's: on a text that fits in
/// `usize::MAX` bytes, the uncapped expansion fails only where an expansion round would pass
/// `usize::MAX` bytes, and gives exactly what any capped expansion that succeeds gives.
pub proof fn lemma_uncapped_expansion(s: Seq<char>, max: nat)
    requires
        utf8_len(s) <= usize::MAX,
    ensures
        expanded(s, usize::MAX as nat) matches Err(m) ==> m == expansion_limit_message(usize::MAX as nat),
        expanded(s, usize::MAX as nat) is Ok ==> entities_expanded(s) == expanded(s, usize::MAX as nat)->Ok_0,
        max <= usize::MAX ==> (expanded(s, max) matches Ok(a) ==> entities_expanded(s) == a),
{
    lemma_cap_decides_only_failure(s, max, usize::MAX as nat);
}


/// `n` expansion rounds in a row from `s`, with no early stop.
pub open spec fn rounds_in_a_row(s: Seq<char>, t: Seq<(Seq<char>, Seq<char>)>, n: nat, max: nat) -> Option<Seq<char>>
    decreases n,
{
    if n == 0 {
        Some(s)
    } else {
        match expand_round(s, t, 0, max) {
            None => None,
            Some(s2) => rounds_in_a_row(s2, t, (n - 1) as nat, max),
        }
    }
}

proof fn lemma_rounds_settle_from(s: Seq<char>, t: Seq<(Seq<char>, Seq<char>)>, r: int, max: nat)
    requires
        0 <= r <= 8,
    ensures
        expand_rounds(s, t, r, max) matches Some(out) ==> (expand_round(out, t, 0, max) == Some(out)
            || rounds_in_a_row(s, t, (8 - r) as nat, max) == Some(out)),
    decreases 8 - r,
{
    if r < 8 {
        match expand_round(s, t, 0, max) {
            None => {},
            Some(s2) => {
                if s2 != s {
                    lemma_rounds_settle_from(s2, t, r + 1, max);
                }
            },
        }
    }
}

/// Entity expansion repeats its rounds until they change nothing: where it succeeds, one more
/// round leaves its text as it is, unless the text is what eight full rounds give (the round
/// limit), so references that an expansion brings in are expanded in later rounds.
pub proof fn lemma_expansion_reaches_fixpoint(s: Seq<char>, t: Seq<(Seq<char>, Seq<char>)>, max: nat)
    ensures
        expand_rounds(s, t, 0, max) matches Some(out) ==> (expand_round(out, t, 0, max) == Some(out)
            || rounds_in_a_row(s, t, 8, max) == Some(out)),
{
    lemma_rounds_settle_from(s, t, 0, max);
}

/// The number of `&` characters in `s`.
pub open spec fn amp_count(s: Seq<char>) -> nat
    decreases s.len(),
{
    if s.len() == 0 {
        0
    } else {
        amp_count(s.drop_last()) + if s.last() == '&' {
            1nat
        } else {
            0nat
        }
    }
}

proof fn lemma_amp_count_concat(a: Seq<char>, b: Seq<char>)
    ensures
        amp_count(a + b) == amp_count(a) + amp_count(b),
    decreases b.len(),
{
    if b.len() == 0 {
        assert(a + b =~= a);
    } else {
        lemma_amp_count_concat(a, b.drop_last());
        assert((a + b).drop_last() =~= a + b.drop_last());
    }
}

/// Replacing a pattern that holds a `&` by a text that holds none never adds a `&`, and takes
/// one away wherever the pattern occurs.
proof fn lemma_replace_from_amps(s: Seq<char>, i: int, f: Seq<char>, v: Seq<char>)
    requires
        0 <= i <= s.len(),
        f.len() > 0,
        amp_count(f) >= 1,
        amp_count(v) == 0,
    ensures
        amp_count(replace_from(s, i, f, v)) <= amp_count(s.subrange(i, s.len() as int)),
        find_from(s, i, f) is Some ==> amp_count(replace_from(s, i, f, v)) < amp_count(
            s.subrange(i, s.len() as int),
        ),
    decreases s.len() - i,
{
    lemma_find_from_bounds(s, i, f);
    match find_from(s, i, f) {
        None => {},
        Some(k) => {
            let j = k + f.len();
            lemma_replace_from_amps(s, j, f, v);
            let seg = s.subrange(i, k);
            let rest = s.subrange(j, s.len() as int);
            assert(s.subrange(k, j) =~= f);
            assert(s.subrange(i, s.len() as int) =~= seg + f + rest);
            lemma_amp_count_concat(seg, f);
            lemma_amp_count_concat(seg + f, rest);
            lemma_amp_count_concat(seg, v);
            lemma_amp_count_concat(seg + v, replace_from(s, j, f, v));
        },
    }
}

proof fn lemma_ref_has_amp(name: Seq<char>)
    ensures
        amp_count(entity_ref(name)) >= 1,
        entity_ref(name).len() > 0,
{
    lemma_amp_count_concat(seq!['&'], name);
    lemma_amp_count_concat(seq!['&'] + name, seq![';']);
    assert(seq!['&'].drop_last() =~= Seq::<char>::empty());
}

proof fn lemma_round_amps(x: Seq<char>, t: Seq<(Seq<char>, Seq<char>)>, j: int, max: nat)
    requires
        0 <= j,
        forall|k: int| 0 <= k < t.len() ==> amp_count(#[trigger] t[k].1) == 0,
    ensures
        expand_round(x, t, j, max) matches Some(y) ==> amp_count(y) <= amp_count(x) && (amp_count(y)
            == amp_count(x) ==> forall|k: int| j <= k < t.len() ==> !contains(
            x,
            #[trigger] entity_ref(t[k].0),
        )),
    decreases t.len() - j,
{
    if j < t.len() {
        let f = entity_ref(t[j].0);
        let x2 = replace_all(x, f, t[j].1);
        lemma_ref_has_amp(t[j].0);
        lemma_replace_from_amps(x, 0, f, t[j].1);
        assert(x.subrange(0, x.len() as int) =~= x);
        lemma_round_amps(x2, t, j + 1, max);
        if expand_round(x, t, j, max) is Some {
            let y = expand_round(x, t, j, max)->0;
            if amp_count(y) == amp_count(x) {
                lemma_find_from_bounds(x, 0, f);
                if contains(x, f) {
                    let p = choose|p: int| matches_at(x, p, f);
                    assert(find_from(x, 0, f) is Some);
                }
                assert(!contains(x, f));
                lemma_replace_absent(x, f, t[j].1);
            }
        }
    }
}

/// Where a round changes nothing and no entity value holds a `&`, no reference to a declared
/// entity is left: with the fixpoint that expansion reaches before its round limit, every
/// `&name;` of a declared entity has been expanded.
pub proof fn lemma_settled_text_has_no_references(out: Seq<char>, t: Seq<(Seq<char>, Seq<char>)>, max: nat)
    requires
        expand_round(out, t, 0, max) == Some(out),
        forall|k: int| 0 <= k < t.len() ==> amp_count(#[trigger] t[k].1) == 0,
    ensures
        forall|k: int| 0 <= k < t.len() ==> !contains(out, #[trigger] entity_ref(t[k].0)),
{
    lemma_round_amps(out, t, 0, max);
}
} // verus!

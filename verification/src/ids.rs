//! Repairs of `rdf:ID` attributes in legacy RDF/XML.
use vstd::prelude::*;

use crate::text::{at_lit, chars_of, contains, copy, find, find_from, find_lit, index_of, index_of_exec, lemma_find_from_bounds, push_all, push_range, replace_all, replace_all_exec, slice, starts_with, string_of};
use crate::xml::{element_end, find_element_end, vec_eq};

verus! {

/// The views of a list of character vectors.
pub open spec fn views(v: Seq<Vec<char>>) -> Seq<Seq<char>> {
    v.map_values(|x: Vec<char>| x@)
}

/// Whether `x` is among the vectors of `v`.
pub fn list_contains(v: &Vec<Vec<char>>, x: &Vec<char>) -> (b: bool)
    ensures
        b == views(v@).contains(x@),
{
    let mut i: usize = 0;
    while i < v.len()
        invariant
            i <= v.len(),
            forall|j: int| 0 <= j < i ==> v@[j]@ != x@,
        decreases v.len() - i,
    {
        if vec_eq(&v[i], x) {
            assert(views(v@)[i as int] == x@);
            return true;
        }
        i += 1;
    }
    assert(!views(v@).contains(x@)) by {
        if views(v@).contains(x@) {
            let k = choose|k: int| 0 <= k < views(v@).len() && views(v@)[k] == x@;
            assert(v@[k]@ == x@);
        }
    }
    false
}

/// `extract_rdf_id`: the value of the first `rdf:ID="..."` in a tag.
pub open spec fn rdf_id(tag: Seq<char>) -> Option<Seq<char>> {
    match find_from(tag, 0, "rdf:ID=\""@) {
        None => None,
        Some(idx) => {
            let rest = tag.subrange(idx + 8, tag.len() as int);
            match index_of(rest, '"') {
                None => None,
                Some(e) => Some(rest.subrange(0, e)),
            }
        },
    }
}

/// `extract_rdf_id`.
pub fn extract_rdf_id(tag: &Vec<char>) -> (r: Option<Vec<char>>)
    ensures
        match r {
            Some(v) => rdf_id(tag@) == Some(v@),
            None => rdf_id(tag@) is None,
        },
{
    let idx = match find_lit(tag, 0, "rdf:ID=\"") {
        None => return None,
        Some(i) => i,
    };
    proof {
        reveal_strlit("rdf:ID=\"");
        lemma_find_from_bounds(tag@, 0, "rdf:ID=\""@);
        assert(idx + 8 <= tag.len());
    }
    let rest = slice(tag, idx + 8, tag.len());
    match index_of_exec(&rest, '"') {
        None => None,
        Some(e) => {
            proof {
                lemma_find_from_bounds(rest@, 0, seq!['"']);
                assert(e < rest.len());
            }
            Some(slice(&rest, 0, e))
        },
    }
}

/// The walk of `dedupe_rdf_xml_ids` from `pos`: tags are copied one by one, comments whole,
/// and an element whose `rdf:ID` was already seen is dropped with its subtree.
pub open spec fn dedupe_scan(s: Seq<char>, pos: int, seen: Seq<Seq<char>>) -> Seq<char>
    decreases s.len() - pos,
{
    if pos < 0 || pos >= s.len() {
        Seq::empty()
    } else {
        match find_from(s, pos, seq!['<']) {
            None => s.subrange(pos, s.len() as int),
            Some(start) => if start < pos || start >= s.len() {
                s.subrange(pos, s.len() as int)
            } else {
                let pre = s.subrange(pos, start);
                match find_from(s, start, seq!['>']) {
                    None => s.subrange(pos, s.len() as int),
                    Some(te) => if te < start || te >= s.len() {
                        s.subrange(pos, s.len() as int)
                    } else {
                        let tag = s.subrange(start, te + 1);
                        let comment_close = find_from(s, start, "-->"@);
                        if starts_with(tag, "<!--"@) && comment_close is Some && start
                            <= comment_close->0 && comment_close->0 + 3 <= s.len() {
                            let c = comment_close->0;
                            pre + s.subrange(start, c + 3) + dedupe_scan(s, c + 3, seen)
                        } else {
                            match rdf_id(tag) {
                                Some(id) => if seen.contains(id) {
                                    match element_end(s, start) {
                                        Some(end) => if end <= start || end >= s.len() {
                                            pre
                                        } else {
                                            pre + dedupe_scan(s, end, seen)
                                        },
                                        None => pre + tag + dedupe_scan(s, te + 1, seen),
                                    }
                                } else {
                                    pre + tag + dedupe_scan(s, te + 1, seen.push(id))
                                },
                                None => pre + tag + dedupe_scan(s, te + 1, seen),
                            }
                        }
                    },
                }
            },
        }
    }
}

/// `dedupe_rdf_xml_ids`: the document with every element that repeats an earlier `rdf:ID`
/// removed together with its subtree.
pub open spec fn ids_deduped(s: Seq<char>) -> Seq<char> {
    dedupe_scan(s, 0, seq![])
}

/// Remove duplicate `rdf:ID` element subtrees (legacy fixtures such as `wine.xml`).
pub fn dedupe_rdf_xml_ids(input: &str) -> (r: String)
    ensures
        r@ == ids_deduped(input@),
{
    let s = chars_of(input);
    let out = dedupe_chars(&s);
    string_of(&out)
}

/// `dedupe_rdf_xml_ids` on a character vector.
pub fn dedupe_chars(s: &Vec<char>) -> (r: Vec<char>)
    ensures
        r@ == ids_deduped(s@),
{
    let ltv: Vec<char> = vec!['<'];
    assert(ltv@ =~= seq!['<']);
    let gtv: Vec<char> = vec!['>'];
    assert(gtv@ =~= seq!['>']);
    let mut seen: Vec<Vec<char>> = Vec::new();
    let mut out: Vec<char> = Vec::new();
    let mut pos: usize = 0;
    assert(views(seen@) =~= seq![]);
    while pos < s.len()
        invariant
            ltv@ == seq!['<'],
            gtv@ == seq!['>'],
            out@ + dedupe_scan(s@, pos as int, views(seen@)) == ids_deduped(s@),
        decreases s.len() - pos,
    {
        let ghost before = out@;
        let start = match find(s, pos, &ltv) {
            None => {
                push_range(&mut out, s, pos, s.len());
                return out;
            },
            Some(st) => st,
        };
        proof {
            lemma_find_from_bounds(s@, pos as int, ltv@);
        }
        let te = match find(s, start, &gtv) {
            None => {
                push_range(&mut out, s, pos, s.len());
                return out;
            },
            Some(t) => t,
        };
        proof {
            lemma_find_from_bounds(s@, start as int, gtv@);
            assert(te < s.len());
        }
        push_range(&mut out, s, pos, start);
        let tag = slice(s, start, te + 1);
        if at_lit(&tag, 0, "<!--") {
            let cc = find_lit(s, start, "-->");
            proof {
                reveal_strlit("-->");
                lemma_find_from_bounds(s@, start as int, "-->"@);
            }
            if let Some(c) = cc {
                push_range(&mut out, s, start, c + 3);
                proof {
                    assert(out@ + dedupe_scan(s@, c + 3, views(seen@)) =~= before + dedupe_scan(
                        s@,
                        pos as int,
                        views(seen@),
                    ));
                }
                pos = c + 3;
                continue;
            }
        }
        match extract_rdf_id(&tag) {
            Some(id) => {
                if list_contains(&seen, &id) {
                    match find_element_end(s, start) {
                        Some(end) => {
                            if end >= s.len() {
                                return out;
                            }
                            pos = end;
                            continue;
                        },
                        None => {},
                    }
                } else {
                    let ghost sv = views(seen@);
                    let ghost idv = id@;
                    seen.push(id);
                    assert(views(seen@) =~= sv.push(idv));
                }
            },
            None => {},
        }
        push_all(&mut out, &tag);
        pos = te + 1;
    }
    out
}

} // verus!

verus! {

/// An ASCII letter.
pub open spec fn is_ascii_letter(c: char) -> bool {
    ('a' <= c && c <= 'z') || ('A' <= c && c <= 'Z')
}

/// An ASCII letter or digit.
pub open spec fn is_ascii_alnum(c: char) -> bool {
    is_ascii_letter(c) || ('0' <= c && c <= '9')
}

fn is_ascii_letter_exec(c: char) -> (b: bool)
    ensures
        b == is_ascii_letter(c),
{
    ('a' <= c && c <= 'z') || ('A' <= c && c <= 'Z')
}

fn is_ascii_alnum_exec(c: char) -> (b: bool)
    ensures
        b == is_ascii_alnum(c),
{
    is_ascii_letter_exec(c) || ('0' <= c && c <= '9')
}

/// `is_valid_rdf_id`: a letter or `_`, then letters, digits, `.`, `-` and `_`.
pub open spec fn is_valid_rdf_id(id: Seq<char>) -> bool {
    &&& id.len() > 0
    &&& (is_ascii_letter(id[0]) || id[0] == '_')
    &&& forall|i: int|
        1 <= i < id.len() ==> #[trigger] is_ascii_alnum(id[i]) || id[i] == '.' || id[i] == '-'
            || id[i] == '_'
}

fn is_valid_rdf_id_exec(id: &Vec<char>) -> (b: bool)
    ensures
        b == is_valid_rdf_id(id@),
{
    if id.len() == 0 {
        return false;
    }
    if !(is_ascii_letter_exec(id[0]) || id[0] == '_') {
        return false;
    }
    let mut i: usize = 1;
    while i < id.len()
        invariant
            1 <= i <= id.len(),
            forall|k: int|
                1 <= k < i ==> #[trigger] is_ascii_alnum(id@[k]) || id@[k] == '.' || id@[k] == '-'
                    || id@[k] == '_',
        decreases id.len() - i,
    {
        let c = id[i];
        if !(is_ascii_alnum_exec(c) || c == '.' || c == '-' || c == '_') {
            assert(!(is_ascii_alnum(id@[i as int]) || id@[i as int] == '.' || id@[i as int] == '-'
                || id@[i as int] == '_'));
            return false;
        }
        i += 1;
    }
    true
}

/// `sanitize_rdf_id`: `_` followed by the id with every character other than an ASCII letter or
/// digit replaced by `_`.
pub open spec fn sanitize_rdf_id(id: Seq<char>) -> Seq<char> {
    seq!['_'] + id.map_values(|c: char| if is_ascii_alnum(c) { c } else { '_' })
}

fn sanitize_rdf_id_exec(id: &Vec<char>) -> (r: Vec<char>)
    ensures
        r@ == sanitize_rdf_id(id@),
{
    let mut out: Vec<char> = vec!['_'];
    let mut i: usize = 0;
    while i < id.len()
        invariant
            i <= id.len(),
            out@ == seq!['_'] + id@.take(i as int).map_values(
                |c: char| if is_ascii_alnum(c) { c } else { '_' },
            ),
        decreases id.len() - i,
    {
        let c = id[i];
        if is_ascii_alnum_exec(c) {
            out.push(c);
        } else {
            out.push('_');
        }
        assert(id@.take(i + 1).map_values(|c: char| if is_ascii_alnum(c) { c } else { '_' })
            =~= id@.take(i as int).map_values(|c: char| if is_ascii_alnum(c) { c } else { '_' })
            .push(if is_ascii_alnum(c) { c } else { '_' }));
        i += 1;
    }
    assert(id@.take(id.len() as int) =~= id@);
    out
}

/// A sanitized id is always a valid one.
pub proof fn lemma_sanitized_id_is_valid(id: Seq<char>)
    ensures
        is_valid_rdf_id(sanitize_rdf_id(id)),
{
    let t = sanitize_rdf_id(id);
    assert(t[0] == '_');
    assert forall|i: int| 1 <= i < t.len() implies #[trigger] is_ascii_alnum(t[i]) || t[i] == '.'
        || t[i] == '-' || t[i] == '_' by {
        let c = id[i - 1];
        assert(t[i] == (if is_ascii_alnum(c) { c } else { '_' }));
    }
}

/// The walk over `rdf:ID` values from `pos`: the `rdf:ID="..."` values, each kept once, in the
/// order they first occur.
pub open spec fn rdf_ids_scan(s: Seq<char>, pos: int, seen: Seq<Seq<char>>) -> Seq<Seq<char>>
    decreases s.len() - pos,
{
    if pos < 0 || pos >= s.len() {
        seen
    } else {
        match find_from(s, pos, "rdf:ID=\""@) {
            None => seen,
            Some(k) => if k < pos || k + 8 > s.len() {
                seen
            } else {
                match find_from(s, k + 8, seq!['"']) {
                    None => seen,
                    Some(e) => if e < k + 8 || e >= s.len() {
                        seen
                    } else {
                        let id = s.subrange(k + 8, e);
                        rdf_ids_scan(
                            s,
                            e + 1,
                            if seen.contains(id) {
                                seen
                            } else {
                                seen.push(id)
                            },
                        )
                    },
                }
            },
        }
    }
}

fn rdf_ids_exec(s: &Vec<char>) -> (r: Vec<Vec<char>>)
    ensures
        views(r@) == rdf_ids_scan(s@, 0, seq![]),
{
    proof {
        reveal_strlit("rdf:ID=\"");
    }
    let q: Vec<char> = vec!['"'];
    assert(q@ =~= seq!['"']);
    let mut ids: Vec<Vec<char>> = Vec::new();
    let mut pos: usize = 0;
    assert(views(ids@) =~= seq![]);
    while pos < s.len()
        invariant
            q@ == seq!['"'],
            "rdf:ID=\""@.len() == 8,
            rdf_ids_scan(s@, pos as int, views(ids@)) == rdf_ids_scan(s@, 0, seq![]),
        decreases s.len() - pos,
    {
        let k = match find_lit(s, pos, "rdf:ID=\"") {
            None => return ids,
            Some(k) => k,
        };
        proof {
            lemma_find_from_bounds(s@, pos as int, "rdf:ID=\""@);
        }
        let e = match find(s, k + 8, &q) {
            None => return ids,
            Some(e) => e,
        };
        proof {
            lemma_find_from_bounds(s@, k + 8, q@);
            assert(e < s.len());
        }
        let id = slice(s, k + 8, e);
        if !list_contains(&ids, &id) {
            let ghost sv = views(ids@);
            let ghost idv = id@;
            ids.push(id);
            assert(views(ids@) =~= sv.push(idv));
        }
        pos = e + 1;
    }
    ids
}

/// The invalid ids of `ids` of length `len`, in order.
pub open spec fn invalid_ids_of_len(ids: Seq<Seq<char>>, len: nat) -> Seq<Seq<char>>
    decreases ids.len(),
{
    if ids.len() == 0 {
        Seq::empty()
    } else {
        invalid_ids_of_len(ids.drop_last(), len) + (if ids.last().len() == len && !is_valid_rdf_id(
            ids.last(),
        ) {
            seq![ids.last()]
        } else {
            Seq::empty()
        })
    }
}

/// The length of the longest id.
pub open spec fn longest_id(ids: Seq<Seq<char>>) -> nat
    decreases ids.len(),
{
    if ids.len() == 0 {
        0
    } else if ids.last().len() > longest_id(ids.drop_last()) {
        ids.last().len()
    } else {
        longest_id(ids.drop_last())
    }
}

/// The invalid ids of length `len` or less, longest first, in order within a length.
pub open spec fn remap_order(ids: Seq<Seq<char>>, len: int) -> Seq<Seq<char>>
    decreases len + 1,
{
    if len < 0 {
        Seq::empty()
    } else {
        invalid_ids_of_len(ids, len as nat) + remap_order(ids, len - 1)
    }
}

/// One id renamed to its sanitized form in `rdf:ID="..."`, `rdf:ID='...'` and `#...`.
pub open spec fn remap_id(s: Seq<char>, old: Seq<char>) -> Seq<char> {
    let new = sanitize_rdf_id(old);
    let a = replace_all(s, "rdf:ID=\""@ + old + seq!['"'], "rdf:ID=\""@ + new + seq!['"']);
    let b = replace_all(a, "rdf:ID='"@ + old + seq!['\''], "rdf:ID='"@ + new + seq!['\'']);
    replace_all(b, seq!['#'] + old, seq!['#'] + new)
}

/// The ids renamed one after another, in order.
pub open spec fn remap_ids(s: Seq<char>, olds: Seq<Seq<char>>) -> Seq<char>
    decreases olds.len(),
{
    if olds.len() == 0 {
        s
    } else {
        remap_ids(remap_id(s, olds[0]), olds.subrange(1, olds.len() as int))
    }
}

/// `normalize_invalid_rdf_ids`: every distinct `rdf:ID` value that is not a valid id is
/// renamed to its sanitized form, longest ids first.
pub open spec fn invalid_ids_normalized(s: Seq<char>) -> Seq<char> {
    let ids = rdf_ids_scan(s, 0, seq![]);
    remap_ids(s, remap_order(ids, longest_id(ids) as int))
}

proof fn lemma_remap_ids_concat(s: Seq<char>, a: Seq<Seq<char>>, b: Seq<Seq<char>>)
    ensures
        remap_ids(s, a + b) == remap_ids(remap_ids(s, a), b),
    decreases a.len(),
{
    if a.len() == 0 {
        assert(a + b =~= b);
    } else {
        assert((a + b).subrange(1, (a + b).len() as int) =~= a.subrange(1, a.len() as int) + b);
        lemma_remap_ids_concat(remap_id(s, a[0]), a.subrange(1, a.len() as int), b);
    }
}

fn remap_id_exec(s: &Vec<char>, old: &Vec<char>) -> (r: Vec<char>)
    ensures
        r@ == remap_id(s@, old@),
{
    let new = sanitize_rdf_id_exec(old);
    let mut f1 = chars_of("rdf:ID=\"");
    push_all(&mut f1, old);
    f1.push('"');
    let mut t1 = chars_of("rdf:ID=\"");
    push_all(&mut t1, &new);
    t1.push('"');
    let mut f2 = chars_of("rdf:ID='");
    push_all(&mut f2, old);
    f2.push('\'');
    let mut t2 = chars_of("rdf:ID='");
    push_all(&mut t2, &new);
    t2.push('\'');
    let mut f3: Vec<char> = vec!['#'];
    push_all(&mut f3, old);
    let mut t3: Vec<char> = vec!['#'];
    push_all(&mut t3, &new);
    assert(f1@ =~= "rdf:ID=\""@ + old@ + seq!['"']);
    assert(t1@ =~= "rdf:ID=\""@ + new@ + seq!['"']);
    assert(f2@ =~= "rdf:ID='"@ + old@ + seq!['\'']);
    assert(t2@ =~= "rdf:ID='"@ + new@ + seq!['\'']);
    assert(f3@ =~= seq!['#'] + old@);
    assert(t3@ =~= seq!['#'] + new@);
    let a = replace_all_exec(s, &f1, &t1);
    let b = replace_all_exec(&a, &f2, &t2);
    replace_all_exec(&b, &f3, &t3)
}

/// Rewrite legacy `rdf:ID` values that are not valid NCNames (such as `1.0`).
///
/// Ids are renamed longest first; ids of equal length in the order they first occur.
pub fn normalize_invalid_rdf_ids(input: &str) -> (r: String)
    ensures
        r@ == invalid_ids_normalized(input@),
{
    let s = chars_of(input);
    let out = invalid_ids_chars(&s);
    string_of(&out)
}

/// `normalize_invalid_rdf_ids` on a character vector.
pub fn invalid_ids_chars(s: &Vec<char>) -> (r: Vec<char>)
    ensures
        r@ == invalid_ids_normalized(s@),
{
    let ids = rdf_ids_exec(s);
    let ghost vids = views(ids@);
    let mut longest: usize = 0;
    let mut i: usize = 0;
    while i < ids.len()
        invariant
            i <= ids.len(),
            vids == views(ids@),
            longest == longest_id(vids.take(i as int)),
        decreases ids.len() - i,
    {
        assert(vids.take(i + 1).drop_last() =~= vids.take(i as int));
        if ids[i].len() > longest {
            longest = ids[i].len();
        }
        i += 1;
    }
    assert(vids.take(ids.len() as int) =~= vids);
    let mut out = copy(s);
    let mut len: usize = longest;
    let ghost order = remap_order(vids, longest as int);
    assert(longest == longest_id(vids));
    loop
        invariant
            len <= longest,
            longest == longest_id(vids),
            vids == rdf_ids_scan(s@, 0, seq![]),
            vids == views(ids@),
            order == remap_order(vids, longest as int),
            remap_ids(out@, remap_order(vids, len as int)) == remap_ids(s@, order),
        decreases len,
    {
        let ghost at_len = out@;
        let mut j: usize = 0;
        while j < ids.len()
            invariant
                j <= ids.len(),
                vids == views(ids@),
                out@ == remap_ids(at_len, invalid_ids_of_len(vids.take(j as int), len as nat)),
            decreases ids.len() - j,
        {
            let ghost before = out@;
            assert(vids.take(j + 1).drop_last() =~= vids.take(j as int));
            assert(vids.take(j + 1).last() == ids@[j as int]@);
            if ids[j].len() == len && !is_valid_rdf_id_exec(&ids[j]) {
                out = remap_id_exec(&out, &ids[j]);
                proof {
                    let prev = invalid_ids_of_len(vids.take(j as int), len as nat);
                    let x = ids@[j as int]@;
                    assert(invalid_ids_of_len(vids.take(j + 1), len as nat) == prev + seq![x]);
                    lemma_remap_ids_concat(at_len, prev, seq![x]);
                    assert(seq![x].subrange(1, 1) =~= Seq::<Seq<char>>::empty());
                    assert(remap_ids(remap_id(before, x), Seq::<Seq<char>>::empty()) == remap_id(
                        before,
                        x,
                    ));
                    assert(remap_ids(before, seq![x]) == remap_id(before, x));
                }
            } else {
                assert(invalid_ids_of_len(vids.take(j + 1), len as nat) =~= invalid_ids_of_len(
                    vids.take(j as int),
                    len as nat,
                ) + Seq::<Seq<char>>::empty());
            }
            j += 1;
        }
        proof {
            assert(vids.take(ids.len() as int) =~= vids);
            lemma_remap_ids_concat(
                at_len,
                invalid_ids_of_len(vids, len as nat),
                remap_order(vids, len - 1),
            );
        }
        if len == 0 {
            proof {
                assert(remap_order(vids, -1) =~= Seq::<Seq<char>>::empty());
                assert(invalid_ids_of_len(vids, 0) + Seq::<Seq<char>>::empty() =~= invalid_ids_of_len(
                    vids,
                    0,
                ));
                assert(remap_ids(out@, Seq::<Seq<char>>::empty()) == out@);
            }
            return out;
        }
        len = len - 1;
    }
}

proof fn lemma_no_invalid_of_len(ids: Seq<Seq<char>>, len: nat)
    requires
        forall|i: int| 0 <= i < ids.len() ==> is_valid_rdf_id(#[trigger] ids[i]),
    ensures
        invalid_ids_of_len(ids, len) == Seq::<Seq<char>>::empty(),
    decreases ids.len(),
{
    if ids.len() > 0 {
        let d = ids.drop_last();
        assert forall|i: int| 0 <= i < d.len() implies is_valid_rdf_id(#[trigger] d[i]) by {
            assert(d[i] == ids[i]);
        }
        lemma_no_invalid_of_len(d, len);
        assert(is_valid_rdf_id(ids[ids.len() - 1]));
        assert(invalid_ids_of_len(ids, len) =~= Seq::<Seq<char>>::empty());
    }
}

proof fn lemma_no_remaps(ids: Seq<Seq<char>>, len: int)
    requires
        forall|i: int| 0 <= i < ids.len() ==> is_valid_rdf_id(#[trigger] ids[i]),
    ensures
        remap_order(ids, len) == Seq::<Seq<char>>::empty(),
    decreases len + 1,
{
    if len >= 0 {
        lemma_no_invalid_of_len(ids, len as nat);
        lemma_no_remaps(ids, len - 1);
        assert(remap_order(ids, len) =~= Seq::<Seq<char>>::empty());
    }
}

/// A document whose `rdf:ID` values are all valid ids is left unchanged by
/// `normalize_invalid_rdf_ids`.
pub proof fn lemma_valid_ids_unchanged(s: Seq<char>)
    requires
        forall|i: int|
            0 <= i < rdf_ids_scan(s, 0, seq![]).len() ==> is_valid_rdf_id(
                #[trigger] rdf_ids_scan(s, 0, seq![])[i],
            ),
    ensures
        invalid_ids_normalized(s) == s,
{
    let ids = rdf_ids_scan(s, 0, seq![]);
    lemma_no_remaps(ids, longest_id(ids) as int);
}

} // verus!

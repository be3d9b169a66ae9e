use vstd::prelude::*;

verus! {

/// The characters of a string slice, in order.
pub fn chars_of(s: &str) -> (v: Vec<char>)
    ensures
        v@ == s@,
{
    let mut v: Vec<char> = Vec::new();
    for c in it: s.chars()
        invariant
            v@ == it.seq().take(it.index() as int),
            it.seq() == s@,
    {
        v.push(c);
    }
    v
}

/// Appends one character to a string (`String::push`).
#[verifier::external_body]
fn push_char(s: &mut String, c: char)
    ensures
        final(s)@ == old(s)@.push(c),
{
    s.push(c);
}

/// The string made of the given characters.
pub fn string_of(v: &Vec<char>) -> (s: String)
    ensures
        s@ == v@,
{
    let mut s = String::new();
    let mut i: usize = 0;
    while i < v.len()
        invariant
            i <= v.len(),
            s@ == v@.take(i as int),
        decreases v.len() - i,
    {
        push_char(&mut s, v[i]);
        assert(v@.take(i + 1) == v@.take(i as int).push(v@[i as int]));
        i += 1;
    }
    assert(v@.take(v.len() as int) == v@);
    s
}

} // verus!

verus! {

/// `p` occurs in `s` starting at index `i`.
pub open spec fn matches_at(s: Seq<char>, i: int, p: Seq<char>) -> bool {
    0 <= i && i + p.len() <= s.len() && s.subrange(i, i + p.len()) == p
}

/// The first index at or after `from` where `p` occurs in `s` (`str::find` on `s[from..]`,
/// shifted back by `from`).
pub open spec fn find_from(s: Seq<char>, from: int, p: Seq<char>) -> Option<int>
    decreases s.len() - from,
{
    if from < 0 {
        None
    } else if matches_at(s, from, p) {
        Some(from)
    } else if from + p.len() >= s.len() {
        None
    } else {
        find_from(s, from + 1, p)
    }
}

/// The last index at or before `i` where `p` occurs in `s`.
pub open spec fn rfind_upto(s: Seq<char>, i: int, p: Seq<char>) -> Option<int>
    decreases i + 1,
{
    if i < 0 {
        None
    } else if matches_at(s, i, p) {
        Some(i)
    } else {
        rfind_upto(s, i - 1, p)
    }
}

/// The last index where `p` occurs in `s` (`str::rfind`).
pub open spec fn rfind(s: Seq<char>, p: Seq<char>) -> Option<int> {
    rfind_upto(s, s.len() - p.len(), p)
}

/// `p` occurs somewhere in `s` (`str::contains`).
pub open spec fn contains(s: Seq<char>, p: Seq<char>) -> bool {
    exists|i: int| matches_at(s, i, p)
}

/// `s` begins with `p`.
pub open spec fn starts_with(s: Seq<char>, p: Seq<char>) -> bool {
    matches_at(s, 0, p)
}

/// `s` ends with `p`.
pub open spec fn ends_with(s: Seq<char>, p: Seq<char>) -> bool {
    matches_at(s, s.len() - p.len(), p)
}

/// Lifts an optional index to an optional mathematical integer.
pub open spec fn opt_int(r: Option<usize>) -> Option<int> {
    match r {
        Some(i) => Some(i as int),
        None => None,
    }
}

pub proof fn lemma_find_from_bounds(s: Seq<char>, from: int, p: Seq<char>)
    requires
        0 <= from,
    ensures
        find_from(s, from, p) matches Some(i) ==> from <= i && matches_at(s, i, p)
            && forall|j: int| from <= j < i ==> !matches_at(s, j, p),
        find_from(s, from, p) is None ==> forall|j: int| from <= j ==> !matches_at(s, j, p),
    decreases s.len() - from,
{
    if !matches_at(s, from, p) && from + p.len() < s.len() {
        lemma_find_from_bounds(s, from + 1, p);
    }
}

} // verus!

verus! {

/// Whether `p` occurs in `s` at index `i`.
pub fn is_match_at(s: &Vec<char>, i: usize, p: &Vec<char>) -> (b: bool)
    ensures
        b == matches_at(s@, i as int, p@),
{
    if i > s.len() || p.len() > s.len() - i {
        return false;
    }
    let mut k: usize = 0;
    while k < p.len()
        invariant
            i + p.len() <= s.len(),
            k <= p.len(),
            forall|j: int| 0 <= j < k ==> s@[i + j] == p@[j],
        decreases p.len() - k,
    {
        if s[i + k] != p[k] {
            assert(s@.subrange(i as int, i + p.len())[k as int] != p@[k as int]);
            return false;
        }
        k += 1;
    }
    assert(s@.subrange(i as int, i + p.len()) =~= p@);
    true
}

/// The first occurrence of `p` in `s` at or after `from`.
pub fn find(s: &Vec<char>, from: usize, p: &Vec<char>) -> (r: Option<usize>)
    ensures
        opt_int(r) == find_from(s@, from as int, p@),
{
    let mut i = from;
    while i <= s.len()
        invariant
            from <= i,
            find_from(s@, from as int, p@) == find_from(s@, i as int, p@),
        decreases s.len() + 1 - i,
    {
        if is_match_at(s, i, p) {
            return Some(i);
        }
        if p.len() >= s.len() - i {
            return None;
        }
        i += 1;
    }
    None
}

/// The last occurrence of `p` in `s`.
pub fn rfind_exec(s: &Vec<char>, p: &Vec<char>) -> (r: Option<usize>)
    ensures
        opt_int(r) == rfind(s@, p@),
{
    if p.len() > s.len() {
        return None;
    }
    let mut i = s.len() - p.len();
    loop
        invariant
            i <= s.len() - p.len(),
            p.len() <= s.len(),
            rfind(s@, p@) == rfind_upto(s@, i as int, p@),
        decreases i,
    {
        if is_match_at(s, i, p) {
            return Some(i);
        }
        if i == 0 {
            assert(rfind_upto(s@, -1, p@) is None);
            return None;
        }
        i -= 1;
    }
}

/// Whether `p` occurs anywhere in `s`.
pub fn contains_exec(s: &Vec<char>, p: &Vec<char>) -> (b: bool)
    ensures
        b == contains(s@, p@),
{
    proof {
        lemma_find_from_bounds(s@, 0, p@);
    }
    find(s, 0, p).is_some()
}

/// A copy of `s[a..b]`.
pub fn slice(s: &Vec<char>, a: usize, b: usize) -> (r: Vec<char>)
    requires
        a <= b <= s.len(),
    ensures
        r@ == s@.subrange(a as int, b as int),
{
    let mut r: Vec<char> = Vec::new();
    let mut i = a;
    while i < b
        invariant
            a <= i <= b <= s.len(),
            r@ == s@.subrange(a as int, i as int),
        decreases b - i,
    {
        r.push(s[i]);
        assert(s@.subrange(a as int, i + 1) == s@.subrange(a as int, i as int).push(s@[i as int]));
        i += 1;
    }
    r
}

/// Appends `s[a..b]` to `out`.
pub fn push_range(out: &mut Vec<char>, s: &Vec<char>, a: usize, b: usize)
    requires
        a <= b <= s.len(),
    ensures
        final(out)@ == old(out)@ + s@.subrange(a as int, b as int),
{
    let mut i = a;
    while i < b
        invariant
            a <= i <= b <= s.len(),
            out@ == old(out)@ + s@.subrange(a as int, i as int),
        decreases b - i,
    {
        out.push(s[i]);
        assert(s@.subrange(a as int, i + 1) == s@.subrange(a as int, i as int).push(s@[i as int]));
        i += 1;
    }
}

/// Appends all of `s` to `out`.
pub fn push_all(out: &mut Vec<char>, s: &Vec<char>)
    ensures
        final(out)@ == old(out)@ + s@,
{
    push_range(out, s, 0, s.len());
    assert(s@.subrange(0, s@.len() as int) == s@);
}

/// Appends the characters of a string slice to `out`.
pub fn push_str(out: &mut Vec<char>, s: &str)
    ensures
        final(out)@ == old(out)@ + s@,
{
    let v = chars_of(s);
    push_all(out, &v);
}

} // verus!

verus! {

/// Unicode `White_Space`, the set that `char::is_whitespace` tests.
pub open spec fn is_whitespace(c: char) -> bool {
    let u = c as u32;
    (0x9 <= u <= 0xd) || u == 0x20 || u == 0x85 || u == 0xa0 || u == 0x1680 || (0x2000 <= u
        <= 0x200a) || u == 0x2028 || u == 0x2029 || u == 0x202f || u == 0x205f || u == 0x3000
}

/// The ASCII whitespace set that `u8::is_ascii_whitespace` tests (no vertical tab).
pub open spec fn is_ascii_whitespace(c: char) -> bool {
    c == ' ' || c == '\t' || c == '\n' || c == '\x0C' || c == '\r'
}

/// The first index at or after `i` that does not hold whitespace.
pub open spec fn skip_ws(s: Seq<char>, i: int) -> int
    decreases s.len() - i,
{
    if 0 <= i < s.len() && is_whitespace(s[i]) {
        skip_ws(s, i + 1)
    } else {
        i
    }
}

/// The end of `s[..j]` once trailing whitespace is dropped.
pub open spec fn skip_ws_back(s: Seq<char>, j: int) -> int
    decreases j,
{
    if 0 < j <= s.len() && is_whitespace(s[j - 1]) {
        skip_ws_back(s, j - 1)
    } else {
        j
    }
}

/// `str::trim_start`.
pub open spec fn trim_start(s: Seq<char>) -> Seq<char> {
    s.subrange(skip_ws(s, 0), s.len() as int)
}

/// `str::trim_end`.
pub open spec fn trim_end(s: Seq<char>) -> Seq<char> {
    s.subrange(0, skip_ws_back(s, s.len() as int))
}

/// `str::trim`.
pub open spec fn trim(s: Seq<char>) -> Seq<char> {
    trim_end(trim_start(s))
}

pub proof fn lemma_skip_ws_bounds(s: Seq<char>, i: int)
    requires
        0 <= i <= s.len(),
    ensures
        i <= skip_ws(s, i) <= s.len(),
        skip_ws(s, i) < s.len() ==> !is_whitespace(s[skip_ws(s, i)]),
    decreases s.len() - i,
{
    if i < s.len() && is_whitespace(s[i]) {
        lemma_skip_ws_bounds(s, i + 1);
    }
}

pub proof fn lemma_skip_ws_back_bounds(s: Seq<char>, j: int)
    requires
        0 <= j <= s.len(),
    ensures
        0 <= skip_ws_back(s, j) <= j,
        skip_ws_back(s, j) > 0 ==> !is_whitespace(s[skip_ws_back(s, j) - 1]),
    decreases j,
{
    if 0 < j && is_whitespace(s[j - 1]) {
        lemma_skip_ws_back_bounds(s, j - 1);
    }
}

/// Whether `c` is Unicode whitespace.
pub fn char_is_whitespace(c: char) -> (b: bool)
    ensures
        b == is_whitespace(c),
{
    let u = c as u32;
    (0x9 <= u && u <= 0xd) || u == 0x20 || u == 0x85 || u == 0xa0 || u == 0x1680 || (0x2000 <= u
        && u <= 0x200a) || u == 0x2028 || u == 0x2029 || u == 0x202f || u == 0x205f || u == 0x3000
}

/// Whether `c` is ASCII whitespace.
pub fn char_is_ascii_whitespace(c: char) -> (b: bool)
    ensures
        b == is_ascii_whitespace(c),
{
    c == ' ' || c == '\t' || c == '\n' || c == '\x0C' || c == '\r'
}

/// The first index at or after `i` that does not hold whitespace.
pub fn skip_ws_exec(s: &Vec<char>, i: usize) -> (r: usize)
    requires
        i <= s.len(),
    ensures
        r as int == skip_ws(s@, i as int),
        i <= r <= s.len(),
{
    proof {
        lemma_skip_ws_bounds(s@, i as int);
    }
    let mut k = i;
    while k < s.len() && char_is_whitespace(s[k])
        invariant
            i <= k <= s.len(),
            skip_ws(s@, i as int) == skip_ws(s@, k as int),
        decreases s.len() - k,
    {
        k += 1;
    }
    k
}

/// The end of `s[..j]` once trailing whitespace is dropped.
pub fn skip_ws_back_exec(s: &Vec<char>, j: usize) -> (r: usize)
    requires
        j <= s.len(),
    ensures
        r as int == skip_ws_back(s@, j as int),
        r <= j,
{
    proof {
        lemma_skip_ws_back_bounds(s@, j as int);
    }
    let mut k = j;
    while k > 0 && char_is_whitespace(s[k - 1])
        invariant
            k <= j <= s.len(),
            skip_ws_back(s@, j as int) == skip_ws_back(s@, k as int),
        decreases k,
    {
        k -= 1;
    }
    k
}

/// `str::trim_start` on a character vector.
pub fn trim_start_exec(s: &Vec<char>) -> (r: Vec<char>)
    ensures
        r@ == trim_start(s@),
{
    let a = skip_ws_exec(s, 0);
    slice(s, a, s.len())
}

/// `str::trim_end` on a character vector.
pub fn trim_end_exec(s: &Vec<char>) -> (r: Vec<char>)
    ensures
        r@ == trim_end(s@),
{
    let b = skip_ws_back_exec(s, s.len());
    slice(s, 0, b)
}

/// `str::trim` on a character vector.
pub fn trim_exec(s: &Vec<char>) -> (r: Vec<char>)
    ensures
        r@ == trim(s@),
{
    let t = trim_start_exec(s);
    trim_end_exec(&t)
}

/// Whether `s` begins with `p`.
pub fn starts_with_exec(s: &Vec<char>, p: &Vec<char>) -> (b: bool)
    ensures
        b == starts_with(s@, p@),
{
    is_match_at(s, 0, p)
}

/// Whether `s` ends with `p`.
pub fn ends_with_exec(s: &Vec<char>, p: &Vec<char>) -> (b: bool)
    ensures
        b == ends_with(s@, p@),
{
    if p.len() > s.len() {
        return false;
    }
    is_match_at(s, s.len() - p.len(), p)
}

/// Whether `s` holds `p` at index `i` (a `str` literal pattern).
pub fn at_lit(s: &Vec<char>, i: usize, p: &str) -> (b: bool)
    ensures
        b == matches_at(s@, i as int, p@),
{
    let pv = chars_of(p);
    is_match_at(s, i, &pv)
}

/// The first occurrence of the literal `p` in `s` at or after `from`.
pub fn find_lit(s: &Vec<char>, from: usize, p: &str) -> (r: Option<usize>)
    ensures
        opt_int(r) == find_from(s@, from as int, p@),
{
    let pv = chars_of(p);
    find(s, from, &pv)
}

/// Whether the literal `p` occurs in `s`.
pub fn contains_lit(s: &Vec<char>, p: &str) -> (b: bool)
    ensures
        b == contains(s@, p@),
{
    let pv = chars_of(p);
    contains_exec(s, &pv)
}

/// The last occurrence of the literal `p` in `s`.
pub fn rfind_lit(s: &Vec<char>, p: &str) -> (r: Option<usize>)
    ensures
        opt_int(r) == rfind(s@, p@),
{
    let pv = chars_of(p);
    rfind_exec(s, &pv)
}

} // verus!

verus! {

/// `s` with every trailing `c` removed (`str::trim_end_matches` with a character).
pub open spec fn strip_trailing(s: Seq<char>, c: char) -> Seq<char>
    decreases s.len(),
{
    if s.len() > 0 && s[s.len() - 1] == c {
        strip_trailing(s.drop_last(), c)
    } else {
        s
    }
}

/// The first index at or after `i` holding whitespace, or the end of `s`.
pub open spec fn word_end(s: Seq<char>, i: int) -> int
    decreases s.len() - i,
{
    if 0 <= i < s.len() && !is_whitespace(s[i]) {
        word_end(s, i + 1)
    } else {
        i
    }
}

/// The first whitespace-separated word of `s` (`split_whitespace().next()`).
pub open spec fn first_word(s: Seq<char>) -> Option<Seq<char>> {
    let a = skip_ws(s, 0);
    if a >= s.len() {
        None
    } else {
        Some(s.subrange(a, word_end(s, a)))
    }
}

/// The first index of character `c` in `s`.
pub open spec fn index_of(s: Seq<char>, c: char) -> Option<int> {
    find_from(s, 0, seq![c])
}

/// The last index of character `c` in `s`.
pub open spec fn last_index_of(s: Seq<char>, c: char) -> Option<int> {
    rfind(s, seq![c])
}

pub proof fn lemma_word_end_bounds(s: Seq<char>, i: int)
    requires
        0 <= i <= s.len(),
    ensures
        i <= word_end(s, i) <= s.len(),
        forall|k: int| i <= k < word_end(s, i) ==> !is_whitespace(s[k]),
    decreases s.len() - i,
{
    if i < s.len() && !is_whitespace(s[i]) {
        lemma_word_end_bounds(s, i + 1);
    }
}

/// `s` with every trailing `c` removed.
pub fn strip_trailing_exec(s: &Vec<char>, c: char) -> (r: Vec<char>)
    ensures
        r@ == strip_trailing(s@, c),
{
    let mut k = s.len();
    assert(s@.subrange(0, s.len() as int) =~= s@);
    while k > 0 && s[k - 1] == c
        invariant
            k <= s.len(),
            strip_trailing(s@, c) == strip_trailing(s@.subrange(0, k as int), c),
        decreases k,
    {
        assert(s@.subrange(0, k as int).drop_last() =~= s@.subrange(0, k - 1));
        k -= 1;
    }
    slice(s, 0, k)
}

/// The first index at or after `i` holding whitespace, or the end of `s`.
pub fn word_end_exec(s: &Vec<char>, i: usize) -> (r: usize)
    requires
        i <= s.len(),
    ensures
        r as int == word_end(s@, i as int),
        i <= r <= s.len(),
{
    proof {
        lemma_word_end_bounds(s@, i as int);
    }
    let mut k = i;
    while k < s.len() && !char_is_whitespace(s[k])
        invariant
            i <= k <= s.len(),
            word_end(s@, i as int) == word_end(s@, k as int),
        decreases s.len() - k,
    {
        k += 1;
    }
    k
}

/// The first whitespace-separated word of `s`.
pub fn first_word_exec(s: &Vec<char>) -> (r: Option<Vec<char>>)
    ensures
        match r {
            Some(w) => first_word(s@) == Some(w@),
            None => first_word(s@) is None,
        },
{
    let a = skip_ws_exec(s, 0);
    if a >= s.len() {
        return None;
    }
    let b = word_end_exec(s, a);
    Some(slice(s, a, b))
}

/// The first index of `c` in `s`.
pub fn index_of_exec(s: &Vec<char>, c: char) -> (r: Option<usize>)
    ensures
        opt_int(r) == index_of(s@, c),
{
    let p: Vec<char> = vec![c];
    assert(p@ =~= seq![c]);
    find(s, 0, &p)
}

/// The last index of `c` in `s`.
pub fn last_index_of_exec(s: &Vec<char>, c: char) -> (r: Option<usize>)
    ensures
        opt_int(r) == last_index_of(s@, c),
{
    let p: Vec<char> = vec![c];
    assert(p@ =~= seq![c]);
    rfind_exec(s, &p)
}

/// The characters of `a` followed by those of `b`.
pub fn concat(a: &Vec<char>, b: &Vec<char>) -> (r: Vec<char>)
    ensures
        r@ == a@ + b@,
{
    let mut r: Vec<char> = Vec::new();
    push_all(&mut r, a);
    push_all(&mut r, b);
    assert(r@ =~= a@ + b@);
    r
}

} // verus!

verus! {

pub proof fn lemma_rfind_upto_bounds(s: Seq<char>, i: int, p: Seq<char>)
    ensures
        rfind_upto(s, i, p) matches Some(k) ==> 0 <= k <= i && matches_at(s, k, p),
    decreases i + 1,
{
    if i >= 0 && !matches_at(s, i, p) {
        lemma_rfind_upto_bounds(s, i - 1, p);
    }
}

pub proof fn lemma_rfind_bounds(s: Seq<char>, p: Seq<char>)
    ensures
        rfind(s, p) matches Some(k) ==> 0 <= k && k + p.len() <= s.len() && matches_at(s, k, p),
{
    lemma_rfind_upto_bounds(s, s.len() - p.len(), p);
}

} // verus!

verus! {

pub proof fn lemma_ends_with_char(s: Seq<char>, c: char)
    ensures
        ends_with(s, seq![c]) <==> (s.len() > 0 && s[s.len() - 1] == c),
{
    if s.len() > 0 {
        assert(s.subrange(s.len() - 1, s.len() as int)[0] == s[s.len() - 1]);
        if s[s.len() - 1] == c {
            assert(s.subrange(s.len() - 1, s.len() as int) =~= seq![c]);
        }
    }
}

/// Whether `s` ends with the character `c`.
pub fn ends_with_char(s: &Vec<char>, c: char) -> (b: bool)
    ensures
        b == ends_with(s@, seq![c]),
        b == (s@.len() > 0 && s@[s@.len() - 1] == c),
{
    proof {
        lemma_ends_with_char(s@, c);
    }
    s.len() > 0 && s[s.len() - 1] == c
}

/// A copy of `s`.
pub fn copy(s: &Vec<char>) -> (r: Vec<char>)
    ensures
        r@ == s@,
{
    let r = slice(s, 0, s.len());
    assert(r@ =~= s@);
    r
}

} // verus!

verus! {

/// The decimal digit for `d < 10`.
pub open spec fn digit_char(d: nat) -> char {
    if d == 0 { '0' }
    else if d == 1 { '1' }
    else if d == 2 { '2' }
    else if d == 3 { '3' }
    else if d == 4 { '4' }
    else if d == 5 { '5' }
    else if d == 6 { '6' }
    else if d == 7 { '7' }
    else if d == 8 { '8' }
    else { '9' }
}

/// The decimal representation of `n`, as `format!("{n}")` writes it.
pub open spec fn decimal(n: nat) -> Seq<char>
    decreases n,
{
    if n < 10 {
        seq![digit_char(n)]
    } else {
        decimal(n / 10).push(digit_char(n % 10))
    }
}

fn digit_char_exec(d: usize) -> (c: char)
    requires
        d < 10,
    ensures
        c == digit_char(d as nat),
{
    if d == 0 { '0' }
    else if d == 1 { '1' }
    else if d == 2 { '2' }
    else if d == 3 { '3' }
    else if d == 4 { '4' }
    else if d == 5 { '5' }
    else if d == 6 { '6' }
    else if d == 7 { '7' }
    else if d == 8 { '8' }
    else { '9' }
}

/// Appends the decimal representation of `n` to `out`.
pub fn push_decimal(out: &mut Vec<char>, n: usize)
    ensures
        final(out)@ == old(out)@ + decimal(n as nat),
    decreases n,
{
    if n < 10 {
        out.push(digit_char_exec(n));
        assert(old(out)@.push(digit_char(n as nat)) =~= old(out)@ + decimal(n as nat));
    } else {
        push_decimal(out, n / 10);
        out.push(digit_char_exec(n % 10));
        assert(out@ =~= old(out)@ + decimal(n as nat));
    }
}

} // verus!

verus! {

/// `s[i..]` with every occurrence of `from` replaced by `to`, scanning left to right without
/// overlap (`str::replace`).
pub open spec fn replace_from(s: Seq<char>, i: int, from: Seq<char>, to: Seq<char>) -> Seq<char>
    decreases s.len() - i,
{
    if i < 0 || i > s.len() || from.len() == 0 {
        Seq::empty()
    } else {
        match find_from(s, i, from) {
            None => s.subrange(i, s.len() as int),
            Some(k) => if k < i || k + from.len() > s.len() {
                s.subrange(i, s.len() as int)
            } else {
                s.subrange(i, k) + to + replace_from(s, k + from.len(), from, to)
            },
        }
    }
}

/// `str::replace` for a nonempty pattern.
pub open spec fn replace_all(s: Seq<char>, from: Seq<char>, to: Seq<char>) -> Seq<char> {
    replace_from(s, 0, from, to)
}

/// `str::replace` on character vectors.
pub fn replace_all_exec(s: &Vec<char>, from: &Vec<char>, to: &Vec<char>) -> (r: Vec<char>)
    requires
        from.len() > 0,
    ensures
        r@ == replace_all(s@, from@, to@),
{
    let mut out: Vec<char> = Vec::new();
    let mut i: usize = 0;
    while i <= s.len()
        invariant
            from.len() > 0,
            out@ + replace_from(s@, i as int, from@, to@) == replace_all(s@, from@, to@),
        decreases s.len() + 1 - i,
    {
        let k = match find(s, i, from) {
            None => {
                push_range(&mut out, s, i, s.len());
                assert(out@ =~= replace_all(s@, from@, to@));
                return out;
            },
            Some(k) => k,
        };
        proof {
            lemma_find_from_bounds(s@, i as int, from@);
        }
        let ghost before = out@;
        push_range(&mut out, s, i, k);
        push_all(&mut out, to);
        assert(out@ + replace_from(s@, k + from@.len(), from@, to@) =~= before + replace_from(
            s@,
            i as int,
            from@,
            to@,
        ));
        i = k + from.len();
    }
    out
}

/// `str::replace` with literal pattern and replacement.
pub fn replace_lit(s: &Vec<char>, from: &str, to: &str) -> (r: Vec<char>)
    requires
        from@.len() > 0,
    ensures
        r@ == replace_all(s@, from@, to@),
{
    let f = chars_of(from);
    let t = chars_of(to);
    replace_all_exec(s, &f, &t)
}


/// Replacing a pattern that does not occur changes nothing.
pub proof fn lemma_replace_absent(s: Seq<char>, from: Seq<char>, to: Seq<char>)
    requires
        from.len() > 0,
        !contains(s, from),
    ensures
        replace_all(s, from, to) == s,
{
    lemma_find_from_bounds(s, 0, from);
    if find_from(s, 0, from) is Some {
        assert(matches_at(s, find_from(s, 0, from)->0, from));
    }
    assert(s.subrange(0, s.len() as int) =~= s);
}

/// A replacement at least as long as its pattern never shortens the text.
pub proof fn lemma_replace_from_len(s: Seq<char>, i: int, from: Seq<char>, to: Seq<char>)
    requires
        0 <= i <= s.len(),
        from.len() > 0,
        to.len() >= from.len(),
    ensures
        replace_from(s, i, from, to).len() >= s.len() - i,
    decreases s.len() - i,
{
    lemma_find_from_bounds(s, i, from);
    match find_from(s, i, from) {
        None => {},
        Some(k) => {
            if k + from.len() <= s.len() {
                lemma_replace_from_len(s, k + from.len(), from, to);
            }
        },
    }
}

/// Searching `pre + b` from `pre.len() + j` finds what searching `b` from `j` finds, shifted.
pub proof fn lemma_find_from_shift(pre: Seq<char>, b: Seq<char>, j: int, f: Seq<char>)
    requires
        0 <= j,
    ensures
        match find_from(b, j, f) {
            None => find_from(pre + b, pre.len() + j, f) is None,
            Some(k) => find_from(pre + b, pre.len() + j, f) == Some(pre.len() + k),
        },
    decreases b.len() - j,
{
    let s = pre + b;
    let x = pre.len() + j;
    if j + f.len() <= b.len() {
        assert(s.subrange(x, x + f.len()) =~= b.subrange(j, j + f.len()));
    }
    if !matches_at(b, j, f) && j + f.len() < b.len() {
        lemma_find_from_shift(pre, b, j + 1, f);
    }
}

/// A search that finds `f` inside `a` finds it at the same place in `a + b`.
pub proof fn lemma_find_from_prefix(a: Seq<char>, b: Seq<char>, i: int, f: Seq<char>)
    requires
        0 <= i,
        find_from(a, i, f) is Some,
    ensures
        find_from(a + b, i, f) == find_from(a, i, f),
    decreases a.len() - i,
{
    if i + f.len() <= a.len() {
        assert((a + b).subrange(i, i + f.len()) =~= a.subrange(i, i + f.len()));
    }
    if !matches_at(a, i, f) {
        lemma_find_from_prefix(a, b, i + 1, f);
    }
}

/// A search from `i` that meets no occurrence before `j` finds what a search from `j` finds.
pub proof fn lemma_find_from_skip(s: Seq<char>, i: int, j: int, f: Seq<char>)
    requires
        0 <= i <= j,
        forall|x: int| i <= x < j ==> !matches_at(s, x, f),
    ensures
        find_from(s, i, f) == find_from(s, j, f),
    decreases j - i,
{
    if i < j {
        if i + f.len() < s.len() {
            lemma_find_from_skip(s, i + 1, j, f);
        }
    }
}

/// Replacing in `pre + b` from `pre.len() + j` is replacing in `b` from `j`.
pub proof fn lemma_replace_from_shift(pre: Seq<char>, b: Seq<char>, j: int, f: Seq<char>, t: Seq<char>)
    requires
        0 <= j <= b.len(),
        f.len() > 0,
    ensures
        replace_from(pre + b, pre.len() + j, f, t) == replace_from(b, j, f, t),
    decreases b.len() - j,
{
    let s = pre + b;
    let x = pre.len() + j;
    lemma_find_from_shift(pre, b, j, f);
    lemma_find_from_bounds(b, j, f);
    match find_from(b, j, f) {
        None => {
            assert(s.subrange(x, s.len() as int) =~= b.subrange(j, b.len() as int));
        },
        Some(k) => {
            lemma_replace_from_shift(pre, b, k + f.len(), f, t);
            assert(s.subrange(x, pre.len() + k) =~= b.subrange(j, k));
        },
    }
}

/// No occurrence of `f` in `a + b` begins in `a` and ends in `b`.
pub open spec fn no_straddle(a: Seq<char>, b: Seq<char>, f: Seq<char>) -> bool {
    forall|p: int| p < a.len() < p + f.len() ==> !#[trigger] matches_at(a + b, p, f)
}

/// Where no occurrence of `f` straddles the seam, replacing in `a + b` replaces in `a` and in
/// `b` apart.
pub proof fn lemma_replace_from_split(a: Seq<char>, b: Seq<char>, i: int, f: Seq<char>, t: Seq<char>)
    requires
        0 <= i <= a.len(),
        f.len() > 0,
        no_straddle(a, b, f),
    ensures
        replace_from(a + b, i, f, t) == replace_from(a, i, f, t) + replace_all(b, f, t),
    decreases a.len() - i,
{
    let s = a + b;
    lemma_find_from_bounds(a, i, f);
    match find_from(a, i, f) {
        Some(k) => {
            lemma_find_from_prefix(a, b, i, f);
            lemma_replace_from_split(a, b, k + f.len(), f, t);
            assert(s.subrange(i, k) =~= a.subrange(i, k));
        },
        None => {
            assert forall|x: int| i <= x < a.len() implies !matches_at(s, x, f) by {
                if matches_at(s, x, f) {
                    if x + f.len() <= a.len() {
                        assert(s.subrange(x, x + f.len()) =~= a.subrange(x, x + f.len()));
                        assert(matches_at(a, x, f));
                    } else {
                        assert(x < a.len() < x + f.len());
                        assert(!matches_at(a + b, x, f));
                    }
                }
            }
            lemma_find_from_skip(s, i, a.len() as int, f);
            lemma_find_from_shift(a, b, 0, f);
            lemma_find_from_bounds(b, 0, f);
            match find_from(b, 0, f) {
                None => {
                    assert(s.subrange(i, s.len() as int) =~= a.subrange(i, a.len() as int) + b);
                    assert(b.subrange(0, b.len() as int) =~= b);
                },
                Some(k) => {
                    lemma_replace_from_shift(a, b, k + f.len(), f, t);
                    assert(s.subrange(i, a.len() + k) =~= a.subrange(i, a.len() as int) + b.subrange(0, k));
                },
            }
        },
    }
}

/// An occurrence of a pattern that holds `<` only first, and `>` at most last, cannot straddle
/// a seam just after a `>` or just before a `<`.
pub proof fn lemma_no_straddle_at_tag(a: Seq<char>, b: Seq<char>, f: Seq<char>)
    requires
        forall|k: int| 0 < k < f.len() ==> f[k] != '<',
        forall|k: int| 0 <= k < f.len() - 1 ==> f[k] != '>',
        (a.len() > 0 && a[a.len() - 1] == '>') || (b.len() > 0 && b[0] == '<'),
    ensures
        no_straddle(a, b, f),
{
    assert forall|p: int| p < a.len() < p + f.len() implies !#[trigger] matches_at(a + b, p, f) by {
        if matches_at(a + b, p, f) {
            let w = (a + b).subrange(p, p + f.len());
            if a.len() > 0 && a[a.len() - 1] == '>' {
                assert(w[a.len() - 1 - p] == a[a.len() - 1]);
            } else {
                assert(w[a.len() - p] == b[0]);
            }
        }
    }
}

/// An occurrence of `f` straddling the seam would start inside `a` with `f`'s first character;
/// where `a` holds that character only first and does not begin `f` (or is not shorter than
/// `f`), none does.
pub proof fn lemma_no_straddle_first(a: Seq<char>, b: Seq<char>, f: Seq<char>)
    requires
        f.len() > 0,
        forall|p: int| 0 < p < a.len() ==> a[p] != f[0],
        a.len() >= f.len() || a != f.subrange(0, a.len() as int),
    ensures
        no_straddle(a, b, f),
{
    assert forall|p: int| p < a.len() < p + f.len() implies !#[trigger] matches_at(a + b, p, f) by {
        if matches_at(a + b, p, f) {
            let w = (a + b).subrange(p, p + f.len());
            assert(w[0] == a[p]);
            if p == 0 {
                assert(a =~= f.subrange(0, a.len() as int)) by {
                    assert forall|k: int| 0 <= k < a.len() implies a[k] == f[k] by {
                        assert(w[k] == a[k]);
                    }
                }
            }
        }
    }
}

/// Replacing never changes a last character that the pattern does not end with.
pub proof fn lemma_replace_from_last(a: Seq<char>, i: int, f: Seq<char>, t: Seq<char>, c: char)
    requires
        0 <= i < a.len(),
        f.len() > 0,
        a[a.len() - 1] == c,
        f[f.len() - 1] != c,
    ensures
        replace_from(a, i, f, t).len() > 0,
        replace_from(a, i, f, t)[replace_from(a, i, f, t).len() - 1] == c,
    decreases a.len() - i,
{
    lemma_find_from_bounds(a, i, f);
    match find_from(a, i, f) {
        None => {},
        Some(k) => {
            if k + f.len() == a.len() {
                assert(a.subrange(k, k + f.len())[f.len() - 1] == a[a.len() - 1]);
            }
            lemma_replace_from_last(a, k + f.len(), f, t, c);
        },
    }
}

/// Replacing never changes a first character, where the replacement begins with it too.
pub proof fn lemma_replace_all_first(b: Seq<char>, f: Seq<char>, t: Seq<char>, c: char)
    requires
        b.len() > 0,
        b[0] == c,
        f.len() > 0,
        t.len() > 0,
        t[0] == c,
    ensures
        replace_all(b, f, t).len() > 0,
        replace_all(b, f, t)[0] == c,
{
    lemma_find_from_bounds(b, 0, f);
}

/// `m` ends `p` and occurs nowhere else in it.
pub open spec fn ends_with_unique(p: Seq<char>, m: char) -> bool {
    &&& p.len() > 0
    &&& p[p.len() - 1] == m
    &&& forall|k: int| 0 <= k < p.len() - 1 ==> p[k] != m
}

/// Where `q` and the replacement `to` both end with a character that they hold nowhere else,
/// `q` is no longer than `to` and is not its tail, then replacing leaves no occurrence of `q`:
/// none that was not in the text (or, for `q` the pattern itself, none at all).
pub proof fn lemma_replace_from_avoids(
    s: Seq<char>,
    i: int,
    from: Seq<char>,
    to: Seq<char>,
    q: Seq<char>,
    m: char,
)
    requires
        0 <= i <= s.len(),
        from.len() > 0,
        ends_with_unique(q, m),
        ends_with_unique(to, m),
        q.len() <= to.len(),
        to.subrange(to.len() - q.len(), to.len() as int) != q,
        q == from || forall|p: int| i <= p ==> !matches_at(s, p, q),
    ensures
        forall|p: int| !matches_at(replace_from(s, i, from, to), p, q),
    decreases s.len() - i,
{
    lemma_find_from_bounds(s, i, from);
    let o = replace_from(s, i, from, to);
    let n = q.len();
    match find_from(s, i, from) {
        None => {
            assert forall|p: int| !matches_at(o, p, q) by {
                if matches_at(o, p, q) {
                    assert(o.subrange(p, p + n) =~= s.subrange(i + p, i + p + n));
                    assert(matches_at(s, i + p, q));
                }
            }
        },
        Some(k) => {
            if k + from.len() > s.len() {
                assert(matches_at(s, k, from));
            }
            let j = k + from.len();
            lemma_replace_from_avoids(s, j, from, to, q, m);
            let seg = s.subrange(i, k);
            let r = replace_from(s, j, from, to);
            let a = seg.len() as int;
            let b = to.len() as int;
            assert(o == seg + to + r);
            assert forall|p: int| !matches_at(o, p, q) by {
                if matches_at(o, p, q) {
                    let w = o.subrange(p, p + n);
                    assert(w[n - 1] == m);
                    if p + n <= a {
                        assert(w =~= s.subrange(i + p, i + p + n));
                        assert(matches_at(s, i + p, q));
                    } else if p < a {
                        let e = p + n - 1;
                        assert(o[e] == w[n - 1]);
                        assert(o[e] == to[e - a]);
                    } else if p + n <= a + b {
                        assert(w =~= to.subrange(p - a, p - a + n));
                        assert(to[p - a + n - 1] == m);
                        assert(p - a + n - 1 == b - 1);
                        assert(to.subrange(b - n, b) =~= w);
                    } else if p < a + b {
                        let e = a + b - 1;
                        assert(o[e] == to[b - 1]);
                        assert(w[e - p] == o[e]);
                        assert(q[e - p] == m);
                    } else {
                        assert(w =~= r.subrange(p - a - b, p - a - b + n));
                        assert(matches_at(r, p - a - b, q));
                    }
                }
            }
        },
    }
}
/// The number of bytes that encode `c` in UTF-8 (`char::len_utf8`).
pub open spec fn utf8_width(c: char) -> nat {
    let u = c as u32;
    if u < 0x80 {
        1
    } else if u < 0x800 {
        2
    } else if u < 0x10000 {
        3
    } else {
        4
    }
}

/// The number of bytes that encode `s` in UTF-8 (`str::len`).
pub open spec fn utf8_len(s: Seq<char>) -> nat
    decreases s.len(),
{
    if s.len() == 0 {
        0
    } else {
        utf8_len(s.drop_last()) + utf8_width(s.last())
    }
}

/// Whether `s` takes more than `max` bytes in UTF-8.
pub fn utf8_len_exceeds(s: &Vec<char>, max: usize) -> (b: bool)
    ensures
        b == (utf8_len(s@) > max),
{
    let mut total: usize = 0;
    let mut i: usize = 0;
    while i < s.len()
        invariant
            i <= s.len(),
            total == utf8_len(s@.subrange(0, i as int)),
            total <= max,
        decreases s.len() - i,
    {
        let u = s[i] as u32;
        let w: usize = if u < 0x80 {
            1
        } else if u < 0x800 {
            2
        } else if u < 0x10000 {
            3
        } else {
            4
        };
        assert(s@.subrange(0, i + 1).drop_last() =~= s@.subrange(0, i as int));
        if w > max - total {
            proof {
                lemma_utf8_len_prefix_mono(s@, i + 1);
            }
            return true;
        }
        total = total + w;
        i += 1;
    }
    assert(s@.subrange(0, s@.len() as int) =~= s@);
    false
}

pub proof fn lemma_utf8_len_prefix_mono(s: Seq<char>, k: int)
    requires
        0 <= k <= s.len(),
    ensures
        utf8_len(s.subrange(0, k)) <= utf8_len(s),
    decreases s.len() - k,
{
    if k < s.len() {
        lemma_utf8_len_prefix_mono(s, k + 1);
        assert(s.subrange(0, k + 1).drop_last() =~= s.subrange(0, k));
    } else {
        assert(s.subrange(0, k) =~= s);
    }
}

} // verus!

verus! {

pub proof fn lemma_utf8_len_bound(s: Seq<char>)
    ensures
        utf8_len(s) <= 4 * s.len(),
    decreases s.len(),
{
    if s.len() > 0 {
        lemma_utf8_len_bound(s.drop_last());
    }
}

/// The number of bytes that encode `s` in UTF-8.
pub fn utf8_len_exec(s: &Vec<char>) -> (n: u128)
    ensures
        n == utf8_len(s@),
{
    let mut total: u128 = 0;
    let mut i: usize = 0;
    while i < s.len()
        invariant
            i <= s.len(),
            total == utf8_len(s@.subrange(0, i as int)),
            total <= 4 * i,
        decreases s.len() - i,
    {
        let u = s[i] as u32;
        let w: u128 = if u < 0x80 {
            1
        } else if u < 0x800 {
            2
        } else if u < 0x10000 {
            3
        } else {
            4
        };
        assert(s@.subrange(0, i + 1).drop_last() =~= s@.subrange(0, i as int));
        total = total + w;
        i += 1;
    }
    assert(s@.subrange(0, s@.len() as int) =~= s@);
    total
}

/// Appends the decimal representation of `n` to `out`.
pub fn push_decimal_u128(out: &mut Vec<char>, n: u128)
    ensures
        final(out)@ == old(out)@ + decimal(n as nat),
    decreases n,
{
    if n < 10 {
        out.push(digit_char_exec(n as usize));
        assert(old(out)@.push(digit_char(n as nat)) =~= old(out)@ + decimal(n as nat));
    } else {
        push_decimal_u128(out, n / 10);
        out.push(digit_char_exec((n % 10) as usize));
        assert(out@ =~= old(out)@ + decimal(n as nat));
    }
}

} // verus!

verus! {

pub proof fn lemma_utf8_len_concat(a: Seq<char>, b: Seq<char>)
    ensures
        utf8_len(a + b) == utf8_len(a) + utf8_len(b),
    decreases b.len(),
{
    if b.len() == 0 {
        assert(a + b =~= a);
    } else {
        lemma_utf8_len_concat(a, b.drop_last());
        assert((a + b).drop_last() =~= a + b.drop_last());
    }
}

} // verus!

verus! {

/// `s` with every trailing copy of `p` removed (`str::trim_end_matches` with a string).
pub open spec fn strip_suffix_all(s: Seq<char>, p: Seq<char>) -> Seq<char>
    decreases s.len(),
{
    if p.len() > 0 && ends_with(s, p) {
        strip_suffix_all(s.subrange(0, s.len() - p.len()), p)
    } else {
        s
    }
}

/// `s` with every trailing copy of `p` removed.
pub fn strip_suffix_all_exec(s: &Vec<char>, p: &Vec<char>) -> (r: Vec<char>)
    ensures
        r@ == strip_suffix_all(s@, p@),
{
    let mut k = s.len();
    assert(s@.subrange(0, s.len() as int) =~= s@);
    while p.len() > 0 && k >= p.len() && is_match_at(s, k - p.len(), p)
        invariant
            k <= s.len(),
            strip_suffix_all(s@, p@) == strip_suffix_all(s@.subrange(0, k as int), p@),
        decreases k,
    {
        let ghost t = s@.subrange(0, k as int);
        assert(t.subrange(k - p.len(), k as int) =~= s@.subrange(k - p.len(), k as int));
        assert(ends_with(t, p@));
        assert(t.subrange(0, t.len() - p@.len()) =~= s@.subrange(0, k - p.len()));
        k -= p.len();
    }
    proof {
        let t = s@.subrange(0, k as int);
        if p@.len() > 0 && ends_with(t, p@) {
            assert(k >= p.len());
            assert(t.subrange(k - p.len(), k as int) =~= s@.subrange(k - p.len(), k as int));
            assert(matches_at(s@, k - p.len(), p@));
        }
    }
    slice(s, 0, k)
}

/// `s` with its first occurrence of `from` replaced by `to` (`str::replacen(from, to, 1)` for a
/// non-empty `from`).
pub open spec fn replace_first(s: Seq<char>, from: Seq<char>, to: Seq<char>) -> Seq<char> {
    match find_from(s, 0, from) {
        None => s,
        Some(i) => s.subrange(0, i) + to + s.subrange(i + from.len(), s.len() as int),
    }
}

/// `s` with its first occurrence of `from` replaced by `to`.
pub fn replace_first_exec(s: &Vec<char>, from: &Vec<char>, to: &Vec<char>) -> (r: Vec<char>)
    ensures
        r@ == replace_first(s@, from@, to@),
{
    match find(s, 0, from) {
        None => copy(s),
        Some(i) => {
            proof {
                lemma_find_from_bounds(s@, 0, from@);
                assert(i + from.len() <= s.len());
            }
            let mut out = slice(s, 0, i);
            push_all(&mut out, to);
            push_range(&mut out, s, i + from.len(), s.len());
            out
        },
    }
}

} // verus!

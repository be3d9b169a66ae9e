//! Lexical checks of typed literals: integer and short literals must parse in their range.
use vstd::prelude::*;

use crate::error::Error;
use crate::text::{chars_of, contains, contains_lit, ends_with, ends_with_exec, string_of};

verus! {

/// The value of a run of decimal digits.
pub open spec fn digits_value(d: Seq<char>) -> int
    decreases d.len(),
{
    if d.len() == 0 {
        0
    } else {
        digits_value(d.drop_last()) * 10 + (d.last() as int - '0' as int)
    }
}

/// Every character of `d` is a decimal digit.
pub open spec fn all_digits(d: Seq<char>) -> bool {
    forall|i: int| 0 <= i < d.len() ==> '0' <= #[trigger] d[i] <= '9'
}

/// The value of an integer literal: an optional `+` or `-` followed by at least one decimal
/// digit and nothing else (the syntax that `str::parse` accepts for integer types).
pub open spec fn integer_literal_value(s: Seq<char>) -> Option<int> {
    let (neg, d) = if s.len() > 0 && s[0] == '-' {
        (true, s.drop_first())
    } else if s.len() > 0 && s[0] == '+' {
        (false, s.drop_first())
    } else {
        (false, s)
    };
    if d.len() > 0 && all_digits(d) {
        Some(
            if neg {
                -digits_value(d)
            } else {
                digits_value(d)
            },
        )
    } else {
        None
    }
}

/// `s` is an integer literal whose value lies in `lo..=hi`.
pub open spec fn parses_in(s: Seq<char>, lo: int, hi: int) -> bool {
    match integer_literal_value(s) {
        Some(v) => lo <= v <= hi,
        None => false,
    }
}

proof fn lemma_digits_value_nonneg(d: Seq<char>)
    requires
        all_digits(d),
    ensures
        digits_value(d) >= 0,
    decreases d.len(),
{
    if d.len() > 0 {
        assert(all_digits(d.drop_last()));
        lemma_digits_value_nonneg(d.drop_last());
    }
}

/// Whether `s` is an integer literal whose value lies in `lo..=hi`.
pub fn integer_in_range(s: &str, lo: i128, hi: i128) -> (b: bool)
    requires
        -0x1_0000_0000_0000_0000_0000 <= lo <= 0 <= hi <= 0x1_0000_0000_0000_0000_0000,
    ensures
        b == parses_in(s@, lo as int, hi as int),
{
    let c = chars_of(s);
    let n = c.len();
    let (neg, start): (bool, usize) = if n > 0 && c[0] == '-' {
        (true, 1)
    } else if n > 0 && c[0] == '+' {
        (false, 1)
    } else {
        (false, 0)
    };
    let ghost d = c@.subrange(start as int, n as int);
    assert(start == 1 ==> d =~= c@.drop_first());
    assert(start == 0 ==> d =~= c@);
    if start >= n {
        return false;
    }
    let limit: i128 = if neg {
        -lo
    } else {
        hi
    };
    let mut v: i128 = 0;
    let mut i: usize = start;
    assert(integer_literal_value(s@) == (if d.len() > 0 && all_digits(d) {
        Some(if neg { -digits_value(d) } else { digits_value(d) })
    } else {
        None::<int>
    }));
    assert(c@.subrange(start as int, start as int) =~= Seq::<char>::empty());
    while i < n
        invariant
            integer_literal_value(s@) == (if d.len() > 0 && all_digits(d) {
                Some(if neg { -digits_value(d) } else { digits_value(d) })
            } else {
                None::<int>
            }),
            n == c.len(),
            c@ == s@,
            start <= i <= n,
            start < n,
            -0x1_0000_0000_0000_0000_0000 <= lo <= 0 <= hi <= 0x1_0000_0000_0000_0000_0000,
            d == c@.subrange(start as int, n as int),
            0 <= v <= limit,
            limit == (if neg { -lo } else { hi as int }),
            lo <= 0 <= hi,
            all_digits(c@.subrange(start as int, i as int)),
            v == digits_value(c@.subrange(start as int, i as int)),
        decreases n - i,
    {
        let ch = c[i];
        if !('0' <= ch && ch <= '9') {
            assert(!all_digits(d)) by {
                assert(d[i - start] == ch);
            }
            return false;
        }
        let digit = (ch as u32 - '0' as u32) as i128;
        assert(c@.subrange(start as int, i + 1).drop_last() =~= c@.subrange(start as int, i as int));
        assert(all_digits(c@.subrange(start as int, i + 1)));
        let next = v * 10 + digit;
        assert(digits_value(c@.subrange(start as int, i + 1)) == v * 10 + digit);
        if next > limit {
            proof {
                lemma_digits_grow(c@, start as int, i + 1, n as int);
            }
            return false;
        }
        v = next;
        i += 1;
    }
    assert(c@.subrange(start as int, n as int) == d);
    true
}

/// A longer run of digits has a value at least as large.
proof fn lemma_digits_grow(c: Seq<char>, start: int, k: int, n: int)
    requires
        0 <= start < k <= n <= c.len(),
    ensures
        all_digits(c.subrange(start, n)) ==> digits_value(c.subrange(start, n)) >= digits_value(
            c.subrange(start, k),
        ),
    decreases n - k,
{
    if k < n && all_digits(c.subrange(start, n)) {
        assert(c.subrange(start, n).drop_last() =~= c.subrange(start, n - 1));
        assert(all_digits(c.subrange(start, n - 1)));
        lemma_digits_grow(c, start, k, n - 1);
        lemma_digits_value_nonneg(c.subrange(start, n - 1));
    }
}

} // verus!

verus! {

/// The `Debug` rendering of a string: in double quotes, with the characters that `Debug`
/// escapes escaped.
pub uninterp spec fn debug_quoted(s: Seq<char>) -> Seq<char>;

/// `format!("{s:?}")`: the `Debug` rendering of `s`, named by `debug_quoted`; its escaping
/// rules (which rest on Unicode tables) are not written out here.
#[verifier::external_body]
pub(crate) fn quoted(s: &str) -> (r: String)
    ensures
        r@ == debug_quoted(s@),
{
    format!("{s:?}")
}

/// `invalid xsd:integer literal {lexical:?}`.
pub open spec fn invalid_integer_message(lexical: Seq<char>) -> Seq<char> {
    "invalid xsd:integer literal "@ + debug_quoted(lexical)
}

/// `invalid xsd:short literal {lexical:?}`.
pub open spec fn invalid_short_message(lexical: Seq<char>) -> Seq<char> {
    "invalid xsd:short literal "@ + debug_quoted(lexical)
}

/// Whether an integer datatype IRI names `integer` (or ends with `#int`), whose literals must
/// parse as `i64`.
pub open spec fn is_integer_datatype(datatype_iri: Seq<char>) -> bool {
    contains(datatype_iri, "integer"@) || ends_with(datatype_iri, "#int"@)
}

/// Reject a literal of an integer datatype that does not parse as `i64`, and one of a `short`
/// datatype that does not parse as `i16`.
pub fn validate_literal_lexical(datatype_iri: &str, lexical: &str) -> (r: Result<(), Error>)
    ensures
        r is Ok <==> (!is_integer_datatype(datatype_iri@) || parses_in(
            lexical@,
            i64::MIN as int,
            i64::MAX as int,
        )) && (!contains(datatype_iri@, "short"@) || parses_in(
            lexical@,
            i16::MIN as int,
            i16::MAX as int,
        )),
        r matches Err(e) ==> (e matches Error::Parse(m) && m@ == if is_integer_datatype(
            datatype_iri@,
        ) && !parses_in(lexical@, i64::MIN as int, i64::MAX as int) {
            invalid_integer_message(lexical@)
        } else {
            invalid_short_message(lexical@)
        }),
{
    let dt = chars_of(datatype_iri);
    if (contains_lit(&dt, "integer") || ends_with_exec(&dt, &chars_of("#int"))) && !integer_in_range(
        lexical,
        i64::MIN as i128,
        i64::MAX as i128,
    ) {
        let mut m = chars_of("invalid xsd:integer literal ");
        crate::text::push_all(&mut m, &chars_of(quoted(lexical).as_str()));
        return Err(Error::Parse(string_of(&m)));
    }
    if contains_lit(&dt, "short") && !integer_in_range(lexical, i16::MIN as i128, i16::MAX as i128) {
        let mut m = chars_of("invalid xsd:short literal ");
        crate::text::push_all(&mut m, &chars_of(quoted(lexical).as_str()));
        return Err(Error::Parse(string_of(&m)));
    }
    Ok(())
}

} // verus!

verus! {

proof fn lemma_digit_char_value(k: nat)
    requires
        k < 10,
    ensures
        crate::text::digit_char(k) as int - '0' as int == k,
        '0' <= crate::text::digit_char(k) <= '9',
{
}

/// The decimal rendering of a number reads back as that number.
pub proof fn lemma_decimal_reads_back(n: nat)
    ensures
        all_digits(crate::text::decimal(n)),
        crate::text::decimal(n).len() > 0,
        digits_value(crate::text::decimal(n)) == n,
        integer_literal_value(crate::text::decimal(n)) == Some(n as int),
    decreases n,
{
    let d = crate::text::decimal(n);
    if n < 10 {
        lemma_digit_char_value(n);
        assert(d == seq![crate::text::digit_char(n)]);
        assert(d.drop_last() =~= Seq::<char>::empty());
        assert(digits_value(Seq::<char>::empty()) == 0);
        assert(digits_value(d) == digits_value(d.drop_last()) * 10 + (d.last() as int - '0' as int));
    } else {
        lemma_digit_char_value(n % 10);
        lemma_decimal_reads_back(n / 10);
        let p = crate::text::decimal(n / 10);
        assert(d == p.push(crate::text::digit_char(n % 10)));
        assert(d.drop_last() =~= p);
        assert forall|i: int| 0 <= i < d.len() implies '0' <= #[trigger] d[i] <= '9' by {
            if i < p.len() {
                assert(d[i] == p[i]);
            }
        }
        assert(n == (n / 10) * 10 + n % 10);
        assert(digits_value(d) == digits_value(p) * 10 + (d.last() as int - '0' as int));
    }
    assert(d[0] != '-' && d[0] != '+');
}

} // verus!

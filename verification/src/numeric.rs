//! Decimal integers as `str::parse` reads them for `u8` and `i64`: an
//! optional sign, then one or more ASCII digits, refused on overflow.

use crate::text::{all_digits, digit_value, digits_value, is_digit};
use vstd::prelude::*;

verus! {

/// The digits that follow an optional `+` (unsigned types take no `-`).
pub open spec fn unsigned_digits(s: Seq<char>) -> Seq<char> {
    if s.len() > 0 && s[0] == '+' {
        s.skip(1)
    } else {
        s
    }
}

/// `s.parse::<u8>().is_ok()`.
pub open spec fn parses_u8(s: Seq<char>) -> bool {
    let d = unsigned_digits(s);
    d.len() > 0 && all_digits(d) && digits_value(d) <= 255
}

/// Why `str::parse` refused an integer (`core::num::IntErrorKind`).
#[derive(Debug, Clone, Copy, PartialEq, Eq, Structural)]
pub enum IntParseError {
    Empty,
    InvalidDigit,
    PosOverflow,
    NegOverflow,
}

/// Length of the run of ASCII digits that opens `s`.
pub open spec fn digit_run(s: Seq<char>) -> nat
    decreases s.len(),
{
    if s.len() > 0 && is_digit(s[0]) {
        1 + digit_run(s.drop_first())
    } else {
        0
    }
}

/// `s.parse::<i64>()`: an optional sign, then digits. Reading left to right,
/// the first non-digit is an invalid digit unless the digits before it
/// already left the range of `i64`.
pub open spec fn parse_i64_result(s: Seq<char>) -> Result<int, IntParseError> {
    if s.len() == 0 {
        Err(IntParseError::Empty)
    } else {
        let neg = s[0] == '-';
        let signed = s[0] == '-' || s[0] == '+';
        let d = if signed {
            s.skip(1)
        } else {
            s
        };
        if d.len() == 0 {
            Err(IntParseError::InvalidDigit)
        } else {
            let j = digit_run(d);
            let m = digits_value(d.take(j as int));
            if neg && m > 9223372036854775808 {
                Err(IntParseError::NegOverflow)
            } else if !neg && m > 9223372036854775807 {
                Err(IntParseError::PosOverflow)
            } else if j < d.len() {
                Err(IntParseError::InvalidDigit)
            } else if neg {
                Ok(-m)
            } else {
                Ok(m as int)
            }
        }
    }
}

/// `s.parse::<i64>().ok()`, as a mathematical integer.
pub open spec fn parsed_i64(s: Seq<char>) -> Option<int> {
    match parse_i64_result(s) {
        Ok(v) => Some(v),
        Err(_) => None,
    }
}

/// The `Display` text of `core::num::ParseIntError` for each kind.
pub open spec fn int_error_text(e: IntParseError) -> Seq<char> {
    match e {
        IntParseError::Empty => "cannot parse integer from empty string"@,
        IntParseError::InvalidDigit => "invalid digit found in string"@,
        IntParseError::PosOverflow => "number too large to fit in target type"@,
        IntParseError::NegOverflow => "number too small to fit in target type"@,
    }
}

/// The message `str::parse` reports for `e`.
pub fn int_error_message(e: IntParseError) -> (r: &'static str)
    ensures
        r@ == int_error_text(e),
{
    match e {
        IntParseError::Empty => "cannot parse integer from empty string",
        IntParseError::InvalidDigit => "invalid digit found in string",
        IntParseError::PosOverflow => "number too large to fit in target type",
        IntParseError::NegOverflow => "number too small to fit in target type",
    }
}

pub proof fn lemma_digit_run(s: Seq<char>, j: int)
    requires
        0 <= j <= s.len(),
        forall|k: int| 0 <= k < j ==> is_digit(#[trigger] s[k]),
        j == s.len() || !is_digit(s[j]),
    ensures
        digit_run(s) == j,
    decreases j,
{
    if j > 0 {
        let t = s.drop_first();
        assert forall|k: int| 0 <= k < j - 1 implies is_digit(#[trigger] t[k]) by {
            assert(t[k] == s[k + 1]);
        }
        if j < s.len() {
            assert(t[j - 1] == s[j]);
        }
        lemma_digit_run(t, j - 1);
    }
}

/// A longer run of digits never spells a smaller number.
pub proof fn lemma_digits_value_mono(s: Seq<char>, i: int, j: int)
    requires
        0 <= i <= j <= s.len(),
        all_digits(s),
    ensures
        digits_value(s.take(i)) <= digits_value(s.take(j)),
    decreases j - i,
{
    if i < j {
        lemma_digits_value_mono(s, i, j - 1);
        let t = s.take(j);
        assert(t.drop_last() =~= s.take(j - 1));
        assert(is_digit(s[j - 1]));
    }
}

/// The value of the digits `v[start..end]`, when it is at most `limit`.
pub fn digits_upto(v: &Vec<char>, start: usize, end: usize, limit: u64) -> (r: Option<u64>)
    requires
        start <= end <= v.len(),
        all_digits(v@.subrange(start as int, end as int)),
        limit >= 9,
    ensures
        r is Some <==> digits_value(v@.subrange(start as int, end as int)) <= limit,
        r matches Some(x) ==> x == digits_value(v@.subrange(start as int, end as int)),
{
    let ghost sub = v@.subrange(start as int, end as int);
    let mut acc: u64 = 0;
    let mut i: usize = start;
    assert(sub.take(0) =~= Seq::<char>::empty());
    while i < end
        invariant
            start <= i <= end <= v.len(),
            sub == v@.subrange(start as int, end as int),
            all_digits(sub),
            limit >= 9,
            acc == digits_value(sub.take(i - start)),
            acc <= limit,
        decreases end - i,
    {
        let c = v[i];
        assert(c == sub[i - start]);
        assert(is_digit(c));
        let d: u64 = (c as u32 - '0' as u32) as u64;
        assert(sub.take(i - start + 1).drop_last() =~= sub.take(i - start));
        assert(d == digit_value(sub[i - start]));
        if acc > (limit - d) / 10 {
            proof {
                assert(acc * 10 + d > limit) by (nonlinear_arith)
                    requires
                        acc > (limit - d) / 10,
                        d <= 9,
                        limit >= 9,
                ;
                lemma_digits_value_mono(sub, i - start + 1, sub.len() as int);
                assert(sub.take(sub.len() as int) =~= sub);
            }
            return None;
        }
        assert(acc * 10 + d <= limit) by (nonlinear_arith)
            requires
                acc <= (limit - d) / 10,
                d <= 9,
                limit >= 9,
        ;
        acc = acc * 10 + d;
        i = i + 1;
    }
    assert(sub.take(sub.len() as int) =~= sub);
    Some(acc)
}

/// Whether `v[start..end]` is all ASCII digits.
pub fn range_all_digits(v: &Vec<char>, start: usize, end: usize) -> (r: bool)
    requires
        start <= end <= v.len(),
    ensures
        r == all_digits(v@.subrange(start as int, end as int)),
{
    let mut i = start;
    while i < end
        invariant
            start <= i <= end <= v.len(),
            forall|j: int| start <= j < i ==> is_digit(#[trigger] v@[j]),
        decreases end - i,
    {
        if !('0' <= v[i] && v[i] <= '9') {
            assert(v@.subrange(start as int, end as int)[i - start] == v@[i as int]);
            return false;
        }
        i = i + 1;
    }
    assert forall|k: int| 0 <= k < end - start implies is_digit(
        #[trigger] v@.subrange(start as int, end as int)[k],
    ) by {
        assert(v@.subrange(start as int, end as int)[k] == v@[start + k]);
    }
    true
}

/// `v[start..end].parse::<u8>().is_ok()`.
pub fn range_parses_u8(v: &Vec<char>, start: usize, end: usize) -> (r: bool)
    requires
        start <= end <= v.len(),
    ensures
        r == parses_u8(v@.subrange(start as int, end as int)),
{
    let ghost s = v@.subrange(start as int, end as int);
    let mut b = start;
    if start < end && v[start] == '+' {
        b = start + 1;
        assert(s.skip(1) =~= v@.subrange(b as int, end as int));
    } else {
        assert(s =~= v@.subrange(b as int, end as int));
    }
    if b == end {
        return false;
    }
    if !range_all_digits(v, b, end) {
        return false;
    }
    digits_upto(v, b, end, 255).is_some()
}

/// `v[start..end].parse::<i64>()`.
pub fn range_parse_i64_result(v: &Vec<char>, start: usize, end: usize) -> (r: Result<i64, IntParseError>)
    requires
        start <= end <= v.len(),
    ensures
        match parse_i64_result(v@.subrange(start as int, end as int)) {
            Ok(x) => r == Ok::<i64, IntParseError>(x as i64),
            Err(e) => r == Err::<i64, IntParseError>(e),
        },
{
    let ghost s = v@.subrange(start as int, end as int);
    if start == end {
        return Err(IntParseError::Empty);
    }
    let neg = v[start] == '-';
    let mut b = start;
    if v[start] == '-' || v[start] == '+' {
        b = start + 1;
        assert(s.skip(1) =~= v@.subrange(b as int, end as int));
    } else {
        assert(s =~= v@.subrange(b as int, end as int));
    }
    if b == end {
        return Err(IntParseError::InvalidDigit);
    }
    let ghost d = v@.subrange(b as int, end as int);
    let mut j = b;
    while j < end && '0' <= v[j] && v[j] <= '9'
        invariant
            b <= j <= end <= v.len(),
            forall|k: int| b <= k < j ==> is_digit(#[trigger] v@[k]),
        decreases end - j,
    {
        j = j + 1;
    }
    proof {
        assert forall|k: int| 0 <= k < j - b implies is_digit(#[trigger] d[k]) by {
            assert(d[k] == v@[b + k]);
        }
        if j < end {
            assert(d[j - b] == v@[j as int]);
        }
        lemma_digit_run(d, j - b);
        assert(d.take(j - b) =~= v@.subrange(b as int, j as int));
        assert forall|k: int| 0 <= k < j - b implies is_digit(#[trigger] v@.subrange(b as int, j as int)[k]) by {
            assert(v@.subrange(b as int, j as int)[k] == v@[b + k]);
        }
    }
    let limit: u64 = if neg { 9223372036854775808u64 } else { 9223372036854775807u64 };
    match digits_upto(v, b, j, limit) {
        None => {
            if neg {
                Err(IntParseError::NegOverflow)
            } else {
                Err(IntParseError::PosOverflow)
            }
        },
        Some(m) => {
            if j < end {
                Err(IntParseError::InvalidDigit)
            } else if neg {
                if m == 9223372036854775808u64 {
                    Ok(i64::MIN)
                } else {
                    Ok(-(m as i64))
                }
            } else {
                Ok(m as i64)
            }
        },
    }
}

/// `v[start..end].parse::<i64>().ok()`.
pub fn range_parse_i64(v: &Vec<char>, start: usize, end: usize) -> (r: Option<i64>)
    requires
        start <= end <= v.len(),
    ensures
        match parsed_i64(v@.subrange(start as int, end as int)) {
            Some(x) => r == Some(x as i64),
            None => r is None,
        },
{
    match range_parse_i64_result(v, start, end) {
        Ok(x) => Some(x),
        Err(_) => None,
    }
}

} // verus!

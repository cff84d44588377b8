//! The local date and time as text (`%Y-%m-%d` and `%Y年%m月%d日 %H-%M-%S`
//! of `chrono`), used to name backup files.

use crate::text::{dec_digit, nat_to_dec, push_char, push_str, u64_to_string};
use chrono::{Datelike, Timelike};
use vstd::prelude::*;

verus! {

broadcast use vstd::string::group_string_axioms;

/// The clock reading `chrono::Local::now()` gives: year, month, day, hour,
/// minute, second and nanosecond.
pub struct LocalTime {
    pub year: i32,
    pub month: u32,
    pub day: u32,
    pub hour: u32,
    pub minute: u32,
    pub second: u32,
    pub nanosecond: u32,
}

/// A reading within the ranges `chrono` documents for its fields (a leap
/// second shows as a nanosecond count from 1,000,000,000 on).
pub open spec fn time_ok(t: LocalTime) -> bool {
    &&& 1 <= t.month <= 12
    &&& 1 <= t.day <= 31
    &&& t.hour <= 23
    &&& t.minute <= 59
    &&& t.second <= 59
    &&& t.nanosecond <= 1999999999
}

/// `chrono::Local::now()`, read field by field through `Datelike` and
/// `Timelike`. The reading depends on the clock and the time zone; the
/// contract states only the documented ranges of the fields.
#[verifier::external_body]
fn local_now() -> (r: LocalTime)
    ensures
        time_ok(r),
{
    let n = chrono::Local::now();
    LocalTime {
        year: n.year(),
        month: n.month(),
        day: n.day(),
        hour: n.hour(),
        minute: n.minute(),
        second: n.second(),
        nanosecond: n.nanosecond(),
    }
}

/// Two digits, zero-padded (`%m`, `%d`, `%H`, `%M`, `%S`).
pub open spec fn two_digits(n: nat) -> Seq<char> {
    seq![dec_digit((n / 10) % 10), dec_digit(n % 10)]
}

/// At least four digits, zero-padded.
pub open spec fn four_digits(n: nat) -> Seq<char> {
    if n < 10000 {
        seq![dec_digit(n / 1000), dec_digit((n / 100) % 10), dec_digit((n / 10) % 10), dec_digit(n % 10)]
    } else {
        nat_to_dec(n)
    }
}

/// `%Y`: four zero-padded digits for years 0 to 9999, else a sign and at
/// least four digits.
pub open spec fn year_text(y: int) -> Seq<char> {
    if 0 <= y <= 9999 {
        four_digits(y as nat)
    } else if y < 0 {
        seq!['-'] + four_digits((-y) as nat)
    } else {
        seq!['+'] + four_digits(y as nat)
    }
}

fn digit_char(d: u64) -> (c: char)
    requires
        d < 10,
    ensures
        c == dec_digit(d as nat),
{
    if d == 0 { '0' } else if d == 1 { '1' } else if d == 2 { '2' } else if d == 3 { '3' } else if d == 4 { '4' }
    else if d == 5 { '5' } else if d == 6 { '6' } else if d == 7 { '7' } else if d == 8 { '8' } else { '9' }
}

fn push_two(out: &mut String, n: u64)
    ensures
        final(out)@ == old(out)@ + two_digits(n as nat),
{
    push_char(out, digit_char((n / 10) % 10));
    push_char(out, digit_char(n % 10));
}

fn push_four(out: &mut String, n: u64)
    ensures
        final(out)@ == old(out)@ + four_digits(n as nat),
{
    if n < 10000 {
        push_char(out, digit_char(n / 1000));
        push_char(out, digit_char((n / 100) % 10));
        push_char(out, digit_char((n / 10) % 10));
        push_char(out, digit_char(n % 10));
    } else {
        let s = u64_to_string(n);
        push_str(out, s.as_str());
    }
}

fn push_year(out: &mut String, y: i32)
    ensures
        final(out)@ == old(out)@ + year_text(y as int),
{
    if 0 <= y && y <= 9999 {
        push_four(out, y as u64);
    } else if y < 0 {
        push_char(out, '-');
        let m: u64 = (-(y as i64)) as u64;
        push_four(out, m);
    } else {
        push_char(out, '+');
        push_four(out, y as u64);
    }
}

/// `%Y-%m-%d` of a reading.
pub open spec fn ymd_text(t: LocalTime) -> Seq<char> {
    year_text(t.year as int) + seq!['-'] + two_digits(t.month as nat) + seq!['-'] + two_digits(t.day as nat)
}

/// `%S` of a reading: a leap second shows as 60.
pub open spec fn shown_second(t: LocalTime) -> nat {
    (t.second + t.nanosecond / 1000000000) as nat
}

/// `%Y年%m月%d日 %H-%M-%S` of a reading.
pub open spec fn ymd_hms_text(t: LocalTime) -> Seq<char> {
    year_text(t.year as int) + "年"@ + two_digits(t.month as nat) + "月"@ + two_digits(t.day as nat) + "日 "@
        + two_digits(t.hour as nat) + seq!['-'] + two_digits(t.minute as nat) + seq!['-'] + two_digits(shown_second(t))
}

/// `%Y-%m-%d` of a reading.
pub fn format_ymd(t: &LocalTime) -> (r: String)
    ensures
        r@ == ymd_text(*t),
{
    let mut out = String::new();
    push_year(&mut out, t.year);
    push_char(&mut out, '-');
    push_two(&mut out, t.month as u64);
    push_char(&mut out, '-');
    push_two(&mut out, t.day as u64);
    out
}

/// `%Y年%m月%d日 %H-%M-%S` of a reading.
pub fn format_ymd_hms(t: &LocalTime) -> (r: String)
    requires
        time_ok(*t),
    ensures
        r@ == ymd_hms_text(*t),
{
    let mut out = String::new();
    push_year(&mut out, t.year);
    push_str(&mut out, "年");
    push_two(&mut out, t.month as u64);
    push_str(&mut out, "月");
    push_two(&mut out, t.day as u64);
    push_str(&mut out, "日 ");
    push_two(&mut out, t.hour as u64);
    push_char(&mut out, '-');
    push_two(&mut out, t.minute as u64);
    push_char(&mut out, '-');
    push_two(&mut out, (t.second + t.nanosecond / 1000000000) as u64);
    out
}

/// Today's local date as `%Y-%m-%d` (for instance `2025-09-16`); the date
/// is whatever the clock says, its spelling is `ymd_text` of that reading.
pub fn now_ymd() -> (r: String)
    ensures
        exists|t: LocalTime| time_ok(t) && r@ == ymd_text(t),
{
    let t = local_now();
    format_ymd(&t)
}

/// The local date and time as `%Y年%m月%d日 %H-%M-%S`.
pub fn now_ymd_hms() -> (r: String)
    ensures
        exists|t: LocalTime| time_ok(t) && r@ == ymd_hms_text(t),
{
    let t = local_now();
    format_ymd_hms(&t)
}

} // verus!

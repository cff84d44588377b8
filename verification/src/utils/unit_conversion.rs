//! Byte-size standards and the human-readable size text.

use crate::text::{char_of_digit, dec_digit, nat_to_dec, push_char, push_str, u64_to_string};
use vstd::prelude::*;

verus! {

/// How many bytes a gigabyte has.
#[derive(Debug, Clone, Copy, PartialEq, Eq, Structural)]
pub enum ByteConversionStandard {
    /// IEC: 1 GB = 1024^3 bytes.
    Binary,
    /// SI: 1 GB = 1000^3 bytes.
    Decimal,
}

impl ByteConversionStandard {
    /// Bytes in one gigabyte under this standard.
    pub open spec fn bytes_per_gb_spec(self) -> nat {
        match self {
            ByteConversionStandard::Binary => 1073741824,
            ByteConversionStandard::Decimal => 1000000000,
        }
    }

    /// Bytes in one gigabyte under this standard.
    pub fn bytes_per_gb(&self) -> (r: u64)
        ensures
            r == self.bytes_per_gb_spec(),
    {
        match self {
            ByteConversionStandard::Binary => 1073741824,
            ByteConversionStandard::Decimal => 1000000000,
        }
    }

    /// The name shown for the standard.
    pub fn label(&self) -> (r: &'static str)
        ensures
            r@ == (match self {
                ByteConversionStandard::Binary => "二进制 (IEC)"@,
                ByteConversionStandard::Decimal => "十进制 (SI)"@,
            }),
    {
        match self {
            ByteConversionStandard::Binary => "二进制 (IEC)",
            ByteConversionStandard::Decimal => "十进制 (SI)",
        }
    }
}

pub open spec fn pow2n(e: nat) -> nat
    decreases e,
{
    if e == 0 {
        1
    } else {
        2 * pow2n((e - 1) as nat)
    }
}

pub open spec fn pow1024(k: nat) -> nat
    decreases k,
{
    if k == 0 {
        1
    } else {
        1024 * pow1024((k - 1) as nat)
    }
}

/// Number of binary digits of `n`.
pub open spec fn bit_len(n: nat) -> nat
    decreases n,
{
    if n == 0 {
        0
    } else {
        1 + bit_len(n / 2)
    }
}

/// The value of `n as f64`: `n` rounded to 53 significant bits, ties to even.
pub open spec fn f64_value(n: nat) -> nat {
    if n < pow2n(53) {
        n
    } else {
        let d = pow2n((bit_len(n) - 53) as nat);
        let q = n / d;
        let r = n % d;
        let up = r * 2 > d || (r * 2 == d && q % 2 == 1);
        (if up {
            q + 1
        } else {
            q
        }) * d
    }
}

/// The unit a size is shown in: divide by 1024 while the value is at least
/// 1024, at most six times (up to EB).
pub open spec fn unit_from(v: nat, k: nat) -> nat
    decreases 6 - k,
{
    if k < 6 && v >= pow1024(k + 1) {
        unit_from(v, k + 1)
    } else {
        k
    }
}

/// `v / 1024^k` in hundredths, rounded half to even (how `{:.2}` rounds
/// the exact value of a float).
pub open spec fn hundredths(v: nat, k: nat) -> nat {
    let n = v * 100;
    let d = pow1024(k);
    let q = n / d;
    let r = n % d;
    if r * 2 > d || (r * 2 == d && q % 2 == 1) {
        q + 1
    } else {
        q
    }
}

pub open spec fn unit_name(k: nat) -> Seq<char> {
    if k == 0 {
        "B"@
    } else if k == 1 {
        "KB"@
    } else if k == 2 {
        "MB"@
    } else if k == 3 {
        "GB"@
    } else if k == 4 {
        "TB"@
    } else if k == 5 {
        "PB"@
    } else {
        "EB"@
    }
}

/// `format!("{:.2} {}", value, unit)` of `n` bytes, with the value divided
/// by 1024 per unit step.
pub open spec fn bytes_text(n: nat) -> Seq<char> {
    let v = f64_value(n);
    let k = unit_from(v, 0);
    let h = hundredths(v, k);
    nat_to_dec(h / 100) + seq!['.', dec_digit((h % 100) / 10), dec_digit(h % 10)] + seq![' '] + unit_name(k)
}

proof fn lemma_bit_len_bound(n: nat, e: nat)
    requires
        n < pow2n(e),
    ensures
        bit_len(n) <= e,
    decreases e,
{
    if n > 0 && e > 0 {
        lemma_bit_len_bound(n / 2, (e - 1) as nat);
    }
}

proof fn lemma_bit_len_low(n: nat, e: nat)
    requires
        n >= pow2n(e),
    ensures
        bit_len(n) >= e + 1,
    decreases e,
{
    if e > 0 {
        lemma_bit_len_low(n / 2, (e - 1) as nat);
    }
}

/// `n as f64`, as the integer it equals (at most 2^64).
fn f64_value_exec(n: u64) -> (r: u128)
    ensures
        r == f64_value(n as nat),
        r <= 18446744073709551616,
{
    proof {
        lemma_pow2n_is(53);
        lemma_pow2n_is(64);
        lemma_pow2n_is(11);
        vstd::arithmetic::power2::lemma2_to64();
        vstd::arithmetic::power2::lemma2_to64_rest();
    }
    assert(pow2n(53) == 9007199254740992);
    assert(pow2n(64) == 18446744073709551616);
    assert(pow2n(11) == 2048);
    if n < 9007199254740992 {
        return n as u128;
    }
    proof {
        lemma_bit_len_bound(n as nat, 64);
        lemma_bit_len_low(n as nat, 53);
    }
    let mut len: u64 = 0;
    let mut m: u64 = n;
    while m > 0
        invariant
            bit_len(n as nat) == len + bit_len(m as nat),
            bit_len(n as nat) <= 64,
        decreases m,
    {
        m = m / 2;
        len = len + 1;
    }
    let shift = len - 53;
    assert(shift <= 11);
    let mut d: u128 = 1;
    let mut i: u64 = 0;
    while i < shift
        invariant
            i <= shift <= 11,
            d == pow2n(i as nat),
            d <= 2048,
            d >= 1,
            pow2n(11) == 2048,
        decreases shift - i,
    {
        assert(pow2n((i + 1) as nat) == 2 * pow2n(i as nat));
        proof {
            lemma_pow2n_mono(i as nat + 1, 11);
        }
        d = d * 2;
        i = i + 1;
    }
    let nn = n as u128;
    let q = nn / d;
    let r = nn % d;
    let up = r * 2 > d || (r * 2 == d && q % 2 == 1);
    assert(q * d <= nn) by (nonlinear_arith)
        requires
            q == nn / d,
            d > 0,
    ;
    let qq = if up { q + 1 } else { q };
    assert(qq * d <= nn + d) by (nonlinear_arith)
        requires
            qq <= q + 1,
            q * d <= nn,
    ;
    proof {
        lemma_pow2n_add(shift as nat, (64 - shift) as nat);
        let k = pow2n((64 - shift) as nat);
        assert(d == pow2n(shift as nat));
        assert((shift as nat + (64 - shift) as nat) as nat == 64nat);
        assert(pow2n(64) == 18446744073709551616);
        assert(d * k == 18446744073709551616);
        assert(k * d == 18446744073709551616) by (nonlinear_arith)
            requires
                d * k == 18446744073709551616,
        ;
        assert(q < k) by (nonlinear_arith)
            requires
                q * d <= nn,
                nn < 18446744073709551616,
                k * d == 18446744073709551616,
                d > 0,
        ;
        assert(qq * d <= 18446744073709551616) by (nonlinear_arith)
            requires
                qq <= q + 1,
                q < k,
                k * d == 18446744073709551616,
                d > 0,
        ;
    }
    qq * d
}

/// The unit index that `format_bytes` settles on for the value `v`.
fn unit_exec(v: u128) -> (res: (u64, u128))
    requires
        v <= 18446744073709551616,
    ensures
        res.0 == unit_from(v as nat, 0),
        res.0 <= 6,
        res.1 == pow1024(res.0 as nat),
        res.0 < 6 ==> v < 1024 * res.1,
        res.0 == 6 ==> res.1 == 1152921504606846976,
        1 <= res.1 <= 1152921504606846976,
{
    let mut k: u64 = 0;
    let mut p: u128 = 1;
    proof {
        lemma_pow1024_bound(0);
    }
    while k < 6 && v >= p * 1024
        invariant
            k <= 6,
            p == pow1024(k as nat),
            1 <= p <= 1152921504606846976,
            k == 6 ==> p == 1152921504606846976,
            unit_from(v as nat, 0) == unit_from(v as nat, k as nat),
        decreases 6 - k,
    {
        assert(pow1024((k + 1) as nat) == 1024 * pow1024(k as nat));
        proof {
            lemma_pow1024_bound(k as nat);
            lemma_pow1024_bound((k + 1) as nat);
        }
        p = p * 1024;
        k = k + 1;
    }
    assert(pow1024((k + 1) as nat) == 1024 * pow1024(k as nat));
    (k, p)
}

proof fn lemma_pow1024_bound(k: nat)
    requires
        k <= 6,
    ensures
        k < 6 ==> 1024 * pow1024(k) <= 1152921504606846976,
        pow1024(k) >= 1,
        pow1024(6) == 1152921504606846976,
{
    assert(pow1024(0) == 1);
    assert(pow1024(1) == 1024);
    assert(pow1024(2) == 1048576);
    assert(pow1024(3) == 1073741824);
    assert(pow1024(4) == 1099511627776);
    assert(pow1024(5) == 1125899906842624);
    assert(pow1024(6) == 1152921504606846976);
}

fn unit_name_exec(k: u64) -> (r: &'static str)
    ensures
        r@ == unit_name(k as nat),
{
    if k == 0 {
        "B"
    } else if k == 1 {
        "KB"
    } else if k == 2 {
        "MB"
    } else if k == 3 {
        "GB"
    } else if k == 4 {
        "TB"
    } else if k == 5 {
        "PB"
    } else {
        "EB"
    }
}

/// `hundredths(v, k)`, for the unit `k` that `v` is shown in.
fn hundredths_exec(v: u128, k: u64, d: u128) -> (h: u64)
    requires
        v <= 18446744073709551616,
        k <= 6,
        d == pow1024(k as nat),
        1 <= d <= 1152921504606846976,
        k < 6 ==> v < 1024 * d,
        k == 6 ==> d == 1152921504606846976,
    ensures
        h == hundredths(v as nat, k as nat),
        h <= 102400,
{
    let num = v * 100;
    let q = num / d;
    let rem = num % d;
    assert(q * d <= num) by (nonlinear_arith)
        requires
            q == num / d,
            d >= 1,
    ;
    if k < 6 {
        assert(q < 102400) by (nonlinear_arith)
            requires
                q * d <= num,
                num == v * 100,
                v < 1024 * d,
                d >= 1,
        ;
    } else {
        assert(q <= 1600) by (nonlinear_arith)
            requires
                q * d <= num,
                num == v * 100,
                v <= 18446744073709551616,
                d == 1152921504606846976,
        ;
    }
    let h = if rem * 2 > d || (rem * 2 == d && q % 2 == 1) { q + 1 } else { q };
    h as u64
}

/// `"<h / 100>.<two digits> <unit>"`.
fn size_text(h: u64, k: u64) -> (out: String)
    ensures
        out@ == nat_to_dec(h as nat / 100) + seq!['.', dec_digit((h as nat % 100) / 10), dec_digit(h as nat % 10)]
            + seq![' '] + unit_name(k as nat),
{
    let whole = h / 100;
    let frac = (h % 100) as u32;
    assert((h as nat % 100) % 10 == h as nat % 10) by (nonlinear_arith);
    let mut out = u64_to_string(whole);
    push_char(&mut out, '.');
    push_char(&mut out, char_of_digit(frac / 10));
    push_char(&mut out, char_of_digit(frac % 10));
    push_char(&mut out, ' ');
    push_str(&mut out, unit_name_exec(k));
    assert(out@ =~= nat_to_dec(h as nat / 100) + seq!['.', dec_digit((h as nat % 100) / 10), dec_digit(h as nat % 10)]
            + seq![' '] + unit_name(k as nat));
    out
}

/// The size text of `n` bytes: the value is divided by 1024 while it is at
/// least 1024 (at most up to EB) and shown with two decimals and the unit,
/// as `"13.97 GB"`.
pub fn format_bytes(n: u64) -> (r: String)
    ensures
        r@ == bytes_text(n as nat),
{
    let v = f64_value_exec(n);
    let (k, d) = unit_exec(v);
    let h = hundredths_exec(v, k, d);
    size_text(h, k)
}

/// Byte counts shown with the size text of `format_bytes`.
pub trait ByteFormat {
    /// The human-readable size text.
    fn format_bytes(&self) -> String;
}

impl ByteFormat for u64 {
    fn format_bytes(&self) -> (r: String)
        ensures
            r@ == bytes_text(*self as nat),
    {
        format_bytes(*self)
    }
}

proof fn lemma_pow2n_is(e: nat)
    ensures
        pow2n(e) == vstd::arithmetic::power2::pow2(e),
    decreases e,
{
    if e > 0 {
        lemma_pow2n_is((e - 1) as nat);
        vstd::arithmetic::power2::lemma_pow2_unfold(e);
    } else {
        vstd::arithmetic::power2::lemma2_to64();
    }
}

proof fn lemma_pow2n_add(a: nat, b: nat)
    ensures
        pow2n(a + b) == pow2n(a) * pow2n(b),
    decreases a,
{
    if a > 0 {
        let a1 = (a - 1) as nat;
        lemma_pow2n_add(a1, b);
        assert((a + b) as nat == (a1 + b + 1) as nat);
        assert(pow2n(a1 + b + 1) == 2 * pow2n(a1 + b));
        assert(pow2n(a) == 2 * pow2n(a1));
        let x = pow2n(a1);
        let y = pow2n(b);
        assert(2 * (x * y) == (2 * x) * y) by (nonlinear_arith);
        assert(pow2n(a + b) == pow2n(a) * pow2n(b));
    } else {
        assert(pow2n(0) == 1);
        assert(pow2n(a + b) == pow2n(b));
    }
}

proof fn lemma_pow2n_mono(a: nat, b: nat)
    requires
        a <= b,
    ensures
        pow2n(a) <= pow2n(b),
    decreases b - a,
{
    if a < b {
        lemma_pow2n_mono(a, (b - 1) as nat);
    }
}

} // verus!

//! IPv4 dotted-quad checks.

use crate::numeric::{parses_u8, range_parses_u8, unsigned_digits};
use crate::text::{
    all_digits, chars_of, dec_digit, digit_value, digits_value, is_digit, is_ws, lemma_first_index, lemma_nat_to_dec_digits,
    nat_to_dec, split_bounds_char, split_on,
};
use vstd::prelude::*;

verus! {

broadcast use vstd::string::group_string_axioms;

/// Four `.`-separated parts, each of which `u8` parses (an optional `+`,
/// then decimal digits worth at most 255).
pub open spec fn is_ipv4(s: Seq<char>) -> bool {
    let parts = split_on(s, '.');
    &&& parts.len() == 4
    &&& forall|k: int| 0 <= k < parts.len() ==> parses_u8(#[trigger] parts[k])
}

/// Whether `address` is a dotted-quad IPv4 address.
pub fn check_ipv4_by_string(address: &str) -> (r: bool)
    ensures
        r == is_ipv4(address@),
{
    let v = chars_of(address);
    check_ipv4_chars(&v)
}

/// Whether the characters `v` form a dotted-quad IPv4 address.
pub fn check_ipv4_chars(v: &Vec<char>) -> (r: bool)
    ensures
        r == is_ipv4(v@),
{
    let bounds = split_bounds_char(v.as_slice(), '.');
    let ghost parts = split_on(v@, '.');
    let mut k: usize = 0;
    while k < bounds.len()
        invariant
            parts == split_on(v@, '.'),
            k <= bounds@.len() == parts.len(),
            forall|j: int|
                0 <= j < bounds@.len() ==> {
                    &&& (#[trigger] bounds@[j]).0 <= bounds@[j].1 <= v@.len()
                    &&& v@.subrange(bounds@[j].0 as int, bounds@[j].1 as int) == parts[j]
                },
            forall|j: int| 0 <= j < k ==> parses_u8(#[trigger] parts[j]),
        decreases bounds@.len() - k,
    {
        let (s, e) = bounds[k];
        assert(bounds@[k as int] == (s, e));
        if !range_parses_u8(v, s, e) {
            return false;
        }
        k = k + 1;
    }
    bounds.len() == 4
}

/// The digit `dec_digit(k)` is worth `k`.
proof fn lemma_dec_digit_value(k: nat)
    requires
        k < 10,
    ensures
        digit_value(dec_digit(k)) == k,
        is_digit(dec_digit(k)),
        dec_digit(k) != '+' && dec_digit(k) != '-' && dec_digit(k) != '.' && !is_ws(dec_digit(k)),
{
}

/// The decimal spelling of `n` is worth `n`.
pub proof fn lemma_nat_to_dec_value(n: nat)
    ensures
        digits_value(nat_to_dec(n)) == n,
        nat_to_dec(n).len() >= 1,
        all_digits(nat_to_dec(n)),
        forall|i: int| 0 <= i < nat_to_dec(n).len() ==> #[trigger] nat_to_dec(n)[i] != '.' && nat_to_dec(n)[i] != '+'
            && nat_to_dec(n)[i] != '-' && !is_ws(nat_to_dec(n)[i]),
    decreases n,
{
    lemma_nat_to_dec_digits(n);
    if n < 10 {
        lemma_dec_digit_value(n);
        assert(nat_to_dec(n).drop_last() =~= Seq::<char>::empty());
        assert(digits_value(Seq::<char>::empty()) == 0);
    } else {
        lemma_nat_to_dec_value(n / 10);
        lemma_dec_digit_value(n % 10);
        assert(nat_to_dec(n).drop_last() =~= nat_to_dec(n / 10));
        assert(nat_to_dec(n).last() == dec_digit(n % 10));
        assert((n / 10) * 10 + n % 10 == n) by (nonlinear_arith);
    }
}

/// `u8` parses the decimal spelling of `n` exactly when `n` fits a `u8`.
pub proof fn lemma_parses_u8_dec(n: nat)
    ensures
        parses_u8(nat_to_dec(n)) <==> n <= 255,
{
    lemma_nat_to_dec_value(n);
    assert(nat_to_dec(n)[0] != '+');
    assert(unsigned_digits(nat_to_dec(n)) == nat_to_dec(n));
}

/// Splitting `x.y` at the dots, where `x` holds no dot, gives `x` and then
/// the pieces of `y`.
proof fn lemma_split_dot(x: Seq<char>, y: Seq<char>)
    requires
        forall|i: int| 0 <= i < x.len() ==> #[trigger] x[i] != '.',
    ensures
        split_on(x + seq!['.'] + y, '.') == seq![x] + split_on(y, '.'),
{
    let s = x + seq!['.'] + y;
    assert forall|j: int| 0 <= j < x.len() implies #[trigger] s[j] != '.' by {
        assert(s[j] == x[j]);
    }
    assert(s[x.len() as int] == '.');
    lemma_first_index(s, '.', x.len() as int);
    assert(s.take(x.len() as int) =~= x);
    assert(s.skip(x.len() as int + 1) =~= y);
}

/// A text with no dot is one piece.
proof fn lemma_split_no_dot(x: Seq<char>)
    requires
        forall|i: int| 0 <= i < x.len() ==> #[trigger] x[i] != '.',
    ensures
        split_on(x, '.') == seq![x],
{
    lemma_first_index(x, '.', x.len() as int);
}

/// `a.b.c.d` for four texts with no dot in them.
pub open spec fn dotted(a: Seq<char>, b: Seq<char>, c: Seq<char>, d: Seq<char>) -> Seq<char> {
    a + seq!['.'] + b + seq!['.'] + c + seq!['.'] + d
}

/// Four dot-free parts joined by dots form an IPv4 address exactly when
/// `u8` parses every one of them, the last included.
pub proof fn law_ipv4_four_parts(a: Seq<char>, b: Seq<char>, c: Seq<char>, d: Seq<char>)
    requires
        forall|i: int| 0 <= i < a.len() ==> #[trigger] a[i] != '.',
        forall|i: int| 0 <= i < b.len() ==> #[trigger] b[i] != '.',
        forall|i: int| 0 <= i < c.len() ==> #[trigger] c[i] != '.',
        forall|i: int| 0 <= i < d.len() ==> #[trigger] d[i] != '.',
    ensures
        is_ipv4(dotted(a, b, c, d)) <==> (parses_u8(a) && parses_u8(b) && parses_u8(c) && parses_u8(d)),
{
    lemma_split_no_dot(d);
    lemma_split_dot(c, d);
    lemma_split_dot(b, c + seq!['.'] + d);
    lemma_split_dot(a, b + seq!['.'] + c + seq!['.'] + d);
    assert(dotted(a, b, c, d) =~= a + seq!['.'] + (b + seq!['.'] + c + seq!['.'] + d));
    assert(b + seq!['.'] + c + seq!['.'] + d =~= b + seq!['.'] + (c + seq!['.'] + d));
    let parts = split_on(dotted(a, b, c, d), '.');
    assert(parts =~= seq![a, b, c, d]);
    if parses_u8(a) && parses_u8(b) && parses_u8(c) && parses_u8(d) {
        assert forall|k: int| 0 <= k < parts.len() implies parses_u8(#[trigger] parts[k]) by {
            assert(k == 0 || k == 1 || k == 2 || k == 3);
        }
    }
    if is_ipv4(dotted(a, b, c, d)) {
        assert(parses_u8(parts[0]) && parses_u8(parts[1]) && parses_u8(parts[2]) && parses_u8(parts[3]));
    }
}

/// The dotted quad of four numbers, written in decimal.
pub open spec fn quad(a: nat, b: nat, c: nat, d: nat) -> Seq<char> {
    dotted(nat_to_dec(a), nat_to_dec(b), nat_to_dec(c), nat_to_dec(d))
}

/// Four decimal numbers joined by dots form an IPv4 address exactly when
/// each of the four is at most 255: `192.168.1.256` is refused, for its
/// last part as for any other.
pub proof fn law_ipv4_octets(a: nat, b: nat, c: nat, d: nat)
    ensures
        is_ipv4(quad(a, b, c, d)) <==> (a <= 255 && b <= 255 && c <= 255 && d <= 255),
{
    lemma_nat_to_dec_value(a);
    lemma_nat_to_dec_value(b);
    lemma_nat_to_dec_value(c);
    lemma_nat_to_dec_value(d);
    lemma_parses_u8_dec(a);
    lemma_parses_u8_dec(b);
    lemma_parses_u8_dec(c);
    lemma_parses_u8_dec(d);
    law_ipv4_four_parts(nat_to_dec(a), nat_to_dec(b), nat_to_dec(c), nat_to_dec(d));
}

/// A count of dot-separated parts other than four is never an address,
/// whatever the parts hold.
pub proof fn law_ipv4_needs_four_parts(s: Seq<char>)
    requires
        split_on(s, '.').len() != 4,
    ensures
        !is_ipv4(s),
{
}

} // verus!

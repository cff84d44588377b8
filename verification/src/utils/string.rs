//! Digit and number-shape tests on strings.

use crate::numeric::{parsed_i64, range_parse_i64};
use crate::text::{all_digits, chars_of, is_digit, unicode_numeric};
use vstd::prelude::*;

verus! {

broadcast use vstd::string::group_string_axioms;

/// Non-empty, and every character an ASCII digit.
pub open spec fn all_ascii_digits(s: Seq<char>) -> bool {
    s.len() > 0 && all_digits(s)
}

/// Non-empty, and every character numeric in the Unicode sense.
pub open spec fn all_numeric(s: Seq<char>) -> bool {
    s.len() > 0 && forall|i: int| 0 <= i < s.len() ==> unicode_numeric(#[trigger] s[i])
}

pub open spec fn is_sign(c: char) -> bool {
    c == '+' || c == '-'
}

/// An integer literal: digits, after an optional sign where signs are allowed.
pub open spec fn valid_integer(s: Seq<char>, allow_sign: bool) -> bool {
    &&& s.len() > 0
    &&& if allow_sign {
        &&& (if is_sign(s[0]) {
            s.len() > 1
        } else {
            is_digit(s[0])
        })
        &&& all_digits(s.skip(1))
    } else {
        all_digits(s)
    }
}

/// Digits with at most one `.`, which is not the last character.
pub open spec fn float_body(t: Seq<char>) -> bool {
    &&& forall|i: int| 0 <= i < t.len() ==> is_digit(#[trigger] t[i]) || t[i] == '.'
    &&& forall|i: int, j: int| 0 <= i < j < t.len() && #[trigger] t[i] == '.' ==> #[trigger] t[j] != '.'
    &&& t.len() > 0 ==> t.last() != '.'
}

/// A decimal literal: an optional sign where signs are allowed, then a body
/// as [`float_body`] says, which is not empty after a sign.
pub open spec fn valid_float(s: Seq<char>, allow_sign: bool) -> bool {
    &&& s.len() > 0
    &&& if allow_sign && is_sign(s[0]) {
        s.len() > 1 && float_body(s.skip(1))
    } else {
        float_body(s)
    }
}

/// What `to_i64` gives: the value of a signed integer literal that fits.
pub open spec fn to_i64_spec(s: Seq<char>) -> Option<int> {
    if valid_integer(s, true) {
        parsed_i64(s)
    } else {
        None
    }
}

/// Shape tests and integer conversion on string slices.
pub trait StringExt {
    /// The characters of the string.
    spec fn char_seq(&self) -> Seq<char>;

    /// Whether the string is non-empty and all ASCII digits.
    fn is_all_digits(&self) -> (r: bool)
        ensures
            r == all_ascii_digits(self.char_seq()),
    ;

    /// Whether the string is non-empty and all numeric (Unicode digits too).
    fn is_all_digits_unicode(&self) -> (r: bool)
        ensures
            r == all_numeric(self.char_seq()),
    ;

    /// Whether the string is an integer literal, optionally signed.
    fn is_valid_integer(&self, allow_sign: bool) -> (r: bool)
        ensures
            r == valid_integer(self.char_seq(), allow_sign),
    ;

    /// Whether the string is a decimal literal, optionally signed.
    fn is_valid_float(&self, allow_sign: bool) -> (r: bool)
        ensures
            r == valid_float(self.char_seq(), allow_sign),
    ;

    /// The value of a (signed) integer literal that fits an `i64`.
    fn to_i64(&self) -> (r: Option<i64>)
        ensures
            match to_i64_spec(self.char_seq()) {
                Some(x) => r == Some(x as i64),
                None => r is None,
            },
    ;
}

impl StringExt for str {
    open spec fn char_seq(&self) -> Seq<char> {
        self@
    }

    fn is_all_digits(&self) -> (r: bool) {
        let v = chars_of(self);
        if v.len() == 0 {
            return false;
        }
        let mut i: usize = 0;
        while i < v.len()
            invariant
                v@ == self@,
                i <= v@.len(),
                forall|j: int| 0 <= j < i ==> is_digit(#[trigger] v@[j]),
            decreases v@.len() - i,
        {
            if !('0' <= v[i] && v[i] <= '9') {
                return false;
            }
            i = i + 1;
        }
        true
    }

    fn is_all_digits_unicode(&self) -> (r: bool) {
        let v = chars_of(self);
        if v.len() == 0 {
            return false;
        }
        let mut i: usize = 0;
        while i < v.len()
            invariant
                v@ == self@,
                i <= v@.len(),
                forall|j: int| 0 <= j < i ==> unicode_numeric(#[trigger] v@[j]),
            decreases v@.len() - i,
        {
            if !crate::text::char_is_numeric(v[i]) {
                return false;
            }
            i = i + 1;
        }
        true
    }

    fn is_valid_integer(&self, allow_sign: bool) -> (r: bool) {
        let v = chars_of(self);
        if v.len() == 0 {
            return false;
        }
        let mut i: usize = 0;
        if allow_sign {
            let first = v[0];
            if first == '+' || first == '-' {
                if v.len() == 1 {
                    return false;
                }
            } else if !('0' <= first && first <= '9') {
                return false;
            }
            i = 1;
        }
        let ghost start = i;
        while i < v.len()
            invariant
                v@ == self@,
                start <= i <= v@.len(),
                start == (if allow_sign { 1int } else { 0int }),
                forall|j: int| start <= j < i ==> is_digit(#[trigger] v@[j]),
            decreases v@.len() - i,
        {
            if !('0' <= v[i] && v[i] <= '9') {
                assert(!is_digit(v@[i as int]));
                if allow_sign {
                    assert(v@.skip(1)[i - 1] == v@[i as int]);
                }
                return false;
            }
            i = i + 1;
        }
        proof {
            if allow_sign {
                assert forall|k: int| 0 <= k < v@.skip(1).len() implies is_digit(#[trigger] v@.skip(1)[k]) by {
                    assert(v@.skip(1)[k] == v@[k + 1]);
                }
            }
        }
        true
    }

    fn is_valid_float(&self, allow_sign: bool) -> (r: bool) {
        let v = chars_of(self);
        if v.len() == 0 {
            return false;
        }
        let mut i: usize = 0;
        if allow_sign && (v[0] == '+' || v[0] == '-') {
            if v.len() == 1 {
                return false;
            }
            i = 1;
        }
        let ghost start = i;
        let ghost t = v@.skip(start as int);
        assert(start == 0 ==> t =~= v@);
        assert(start == 1 <==> allow_sign && is_sign(v@[0]));
        let mut has_dot = false;
        while i < v.len()
            invariant
                v@ == self@,
                start <= i <= v@.len(),
                start <= 1,
                v@.len() > 0,
                (start == 1) == (allow_sign && is_sign(v@[0])),
                start == 1 ==> v@.len() > 1,
                t == v@.skip(start as int),
                forall|j: int| start <= j < i ==> is_digit(#[trigger] v@[j]) || v@[j] == '.',
                has_dot <==> exists|j: int| start <= j < i && #[trigger] v@[j] == '.',
                forall|j1: int, j2: int| start <= j1 < j2 < i && #[trigger] v@[j1] == '.' ==> #[trigger] v@[j2] != '.',
                forall|j: int| start <= j < i && #[trigger] v@[j] == '.' ==> j + 1 < v@.len(),
            decreases v@.len() - i,
        {
            let c = v[i];
            if c == '.' {
                if has_dot {
                    proof {
                        let j1 = choose|j: int| start <= j < i && #[trigger] v@[j] == '.';
                        assert(t[j1 - start] == '.');
                        assert(t[i - start] == '.');
                    }
                    return false;
                }
                has_dot = true;
                if i + 1 == v.len() {
                    assert(t.last() == v@[i as int]);
                    return false;
                }
            } else if !('0' <= c && c <= '9') {
                assert(t[i - start] == c);
                assert(!is_digit(t[i - start]) && t[i - start] != '.');
                return false;
            }
            i = i + 1;
        }
        proof {
            assert forall|k: int| 0 <= k < t.len() implies is_digit(#[trigger] t[k]) || t[k] == '.' by {
                assert(t[k] == v@[k + start]);
            }
            assert forall|k1: int, k2: int| 0 <= k1 < k2 < t.len() && #[trigger] t[k1] == '.' implies #[trigger] t[k2] != '.' by {
                assert(t[k1] == v@[k1 + start]);
                assert(t[k2] == v@[k2 + start]);
            }
            if t.len() > 0 {
                assert(t.last() == v@[v@.len() - 1]);
            }
            if !(allow_sign && (v@[0] == '+' || v@[0] == '-')) {
                assert(t =~= v@);
            }
        }
        true
    }

    fn to_i64(&self) -> (r: Option<i64>) {
        if self.is_valid_integer(true) {
            let v = chars_of(self);
            assert(v@.subrange(0, v@.len() as int) =~= v@);
            range_parse_i64(&v, 0, v.len())
        } else {
            None
        }
    }
}

} // verus!

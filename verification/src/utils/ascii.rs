//! ASCII digit test on owned strings.

use crate::text::is_digit;
use vstd::prelude::*;

verus! {

broadcast use vstd::string::group_string_axioms;

/// Digit tests on string types.
pub trait Str {
    /// The characters of the string.
    spec fn char_seq(&self) -> Seq<char>;

    /// Every character is an ASCII digit (true of the empty string).
    fn is_ascii_digit(&self) -> (r: bool)
        ensures
            r == (forall|i: int| 0 <= i < self.char_seq().len() ==> is_digit(#[trigger] self.char_seq()[i])),
    ;
}

impl Str for String {
    open spec fn char_seq(&self) -> Seq<char> {
        self@
    }

    fn is_ascii_digit(&self) -> (r: bool) {
        let v = crate::text::chars_of(self.as_str());
        let mut i: usize = 0;
        while i < v.len()
            invariant
                v@ == self@,
                i <= v@.len(),
                forall|j: int| 0 <= j < i ==> is_digit(#[trigger] v@[j]),
            decreases v@.len() - i,
        {
            if !('0' <= v[i] && v[i] <= '9') {
                assert(!is_digit(self.char_seq()[i as int]));
                return false;
            }
            i = i + 1;
        }
        true
    }
}

} // verus!

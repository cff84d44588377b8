//! Fields of the `\0`-separated binary strings Steam keeps in its user
//! configuration, and the hexadecimal text they are stored as.

use crate::game::apex::config::encoding::utf8_decode;
use vstd::utf8::{decode_utf8, valid_utf8};
use crate::text::{chars_of, is_control, nat_to_dec, push_str, split_bounds_u8, split_on, u64_to_string};
use vstd::utf8::{encode_utf8, is_ascii_chars, is_ascii_chars_encode_utf8};
use vstd::prelude::*;

verus! {

broadcast use vstd::string::group_string_axioms;

/// A control character other than `\n`, `\t` and `\r`.
pub open spec fn disallowed_control(c: char) -> bool {
    is_control(c) && c != '\n' && c != '\t' && c != '\r'
}

/// A field worth reporting: non-empty UTF-8 without disallowed controls.
pub open spec fn field_ok(f: Seq<u8>) -> bool {
    &&& f.len() > 0
    &&& valid_utf8(f)
    &&& forall|i: int| 0 <= i < decode_utf8(f).len() ==> !disallowed_control(#[trigger] decode_utf8(f)[i])
}

/// The last field of `fs` that is worth reporting.
pub open spec fn last_ok_field(fs: Seq<Seq<u8>>) -> Option<Seq<u8>>
    decreases fs.len(),
{
    if fs.len() == 0 {
        None
    } else if field_ok(fs.last()) {
        Some(fs.last())
    } else {
        last_ok_field(fs.drop_last())
    }
}

/// `b[start..end]` as a vector.
fn bytes_range(b: &[u8], start: usize, end: usize) -> (r: Vec<u8>)
    requires
        start <= end <= b@.len(),
    ensures
        r@ == b@.subrange(start as int, end as int),
{
    let mut r: Vec<u8> = Vec::new();
    let mut i = start;
    while i < end
        invariant
            start <= i <= end <= b@.len(),
            r@ == b@.subrange(start as int, i as int),
        decreases end - i,
    {
        r.push(b[i]);
        i = i + 1;
        assert(r@ =~= b@.subrange(start as int, i as int));
    }
    r
}

/// Whether the field is worth reporting, with its text when it is.
fn field_text(f: &[u8]) -> (r: Option<String>)
    ensures
        r is Some <==> field_ok(f@),
        r matches Some(s) ==> s@ == decode_utf8(f@),
{
    if f.len() == 0 {
        return None;
    }
    match utf8_decode(f) {
        Ok(s) => {
            let v = chars_of(s.as_str());
            let mut i: usize = 0;
            while i < v.len()
                invariant
                    v@ == s@,
                    s@ == decode_utf8(f@),
                    i <= v@.len(),
                    forall|j: int| 0 <= j < i ==> !disallowed_control(#[trigger] v@[j]),
                decreases v@.len() - i,
            {
                let c = v[i];
                if crate::text::char_is_control(c) && c != '\n' && c != '\t' && c != '\r' {
                    assert(disallowed_control(decode_utf8(f@)[i as int]));
                    return None;
                }
                i = i + 1;
            }
            Some(s)
        },
        Err(_) => None,
    }
}

/// The last non-empty `\0`-separated field of `bytes` that is valid UTF-8 and
/// holds no control character other than `\n`, `\t` and `\r`.
pub fn extract_last_field(bytes: &[u8]) -> (r: Option<String>)
    ensures
        match last_ok_field(split_on(bytes@, 0u8)) {
            Some(f) => r is Some && r.unwrap()@ == decode_utf8(f),
            None => r is None,
        },
{
    let bounds = split_bounds_u8(bytes, 0);
    let ghost fs = split_on(bytes@, 0u8);
    let mut k = bounds.len();
    assert(fs.take(k as int) =~= fs);
    while k > 0
        invariant
            k <= bounds@.len() == fs.len(),
            fs == split_on(bytes@, 0u8),
            forall|j: int|
                0 <= j < bounds@.len() ==> {
                    &&& (#[trigger] bounds@[j]).0 <= bounds@[j].1 <= bytes@.len()
                    &&& bytes@.subrange(bounds@[j].0 as int, bounds@[j].1 as int) == fs[j]
                },
            last_ok_field(fs) == last_ok_field(fs.take(k as int)),
        decreases k,
    {
        let (s, e) = bounds[k - 1];
        assert(bounds@[k - 1] == (s, e));
        let f = bytes_range(bytes, s, e);
        let t = field_text(f.as_slice());
        let ghost pre = fs.take(k as int);
        assert(pre.last() == fs[k - 1]);
        assert(pre.drop_last() =~= fs.take(k - 1));
        if t.is_some() {
            return t;
        }
        k = k - 1;
    }
    None
}

/// The bytes that `hex::decode` reads from hexadecimal text: each pair of
/// hexadecimal digits (either case) becomes one byte.
pub open spec fn hex_value(c: char) -> int {
    if '0' <= c && c <= '9' {
        c as int - '0' as int
    } else if 'a' <= c && c <= 'f' {
        c as int - 'a' as int + 10
    } else if 'A' <= c && c <= 'F' {
        c as int - 'A' as int + 10
    } else {
        -1
    }
}

/// Whether `s` is hexadecimal text of whole bytes.
pub open spec fn is_hex_text(s: Seq<char>) -> bool {
    &&& s.len() % 2 == 0
    &&& forall|i: int| 0 <= i < s.len() ==> #[trigger] hex_value(s[i]) >= 0
}

/// The bytes hexadecimal text `s` stands for.
pub open spec fn hex_bytes(s: Seq<char>) -> Seq<u8> {
    Seq::new(s.len() / 2, |i: int| (hex_value(s[2 * i]) * 16 + hex_value(s[2 * i + 1])) as u8)
}

/// The value of an ASCII hexadecimal digit byte, or `-1`.
pub open spec fn hex_byte_value(b: u8) -> int {
    if 0x30 <= b <= 0x39 {
        b - 0x30
    } else if 0x61 <= b <= 0x66 {
        b - 0x61 + 10
    } else if 0x41 <= b <= 0x46 {
        b - 0x41 + 10
    } else {
        -1
    }
}

/// Index of the first byte of `b` that is no hexadecimal digit, or `b.len()`.
pub open spec fn first_bad_hex_byte(b: Seq<u8>) -> nat
    decreases b.len(),
{
    if b.len() == 0 {
        0
    } else if hex_byte_value(b[0]) < 0 {
        0
    } else {
        1 + first_bad_hex_byte(b.drop_first())
    }
}

/// Why hexadecimal text did not decode (the variants of `hex::FromHexError`).
#[derive(Debug, Clone, Copy, PartialEq, Eq)]
pub enum HexDecodeError {
    InvalidHexCharacter { c: char, index: usize },
    OddLength,
    InvalidStringLength,
}

/// The mathematical form of a decoding error.
pub enum HexError {
    InvalidHexCharacter(char, nat),
    OddLength,
    InvalidStringLength,
}

pub open spec fn hex_error_view(e: HexDecodeError) -> HexError {
    match e {
        HexDecodeError::InvalidHexCharacter { c, index } => HexError::InvalidHexCharacter(c, index as nat),
        HexDecodeError::OddLength => HexError::OddLength,
        HexDecodeError::InvalidStringLength => HexError::InvalidStringLength,
    }
}

/// What `hex::decode` makes of the bytes `b`: an odd length fails first;
/// then the first byte that is no hexadecimal digit fails, with that byte
/// as a `char` and its index; else each pair of digits is one byte.
pub open spec fn hex_decode_spec(b: Seq<u8>) -> Result<Seq<u8>, HexError> {
    if b.len() % 2 != 0 {
        Err(HexError::OddLength)
    } else {
        let i = first_bad_hex_byte(b);
        if i < b.len() {
            Err(HexError::InvalidHexCharacter((b[i as int] as u32) as char, i))
        } else {
            Ok(Seq::new(b.len() / 2, |k: int| (hex_byte_value(b[2 * k]) * 16 + hex_byte_value(b[2 * k + 1])) as u8))
        }
    }
}

/// `hex::decode` of the UTF-8 bytes of `s`: the contract restates the
/// crate's `FromHex for Vec<u8>` (length check, then the digits pair by
/// pair, the first bad byte reported), and the error variants are carried
/// over one for one.
#[verifier::external_body]
pub(crate) fn hex_decode(s: &str) -> (r: Result<Vec<u8>, HexDecodeError>)
    ensures
        match hex_decode_spec(encode_utf8(s@)) {
            Ok(v) => r matches Ok(b) && b@ == v,
            Err(e) => r matches Err(x) && hex_error_view(x) == e,
        },
{
    match hex::decode(s) {
        Ok(b) => Ok(b),
        Err(hex::FromHexError::InvalidHexCharacter { c, index }) => Err(HexDecodeError::InvalidHexCharacter { c, index }),
        Err(hex::FromHexError::OddLength) => Err(HexDecodeError::OddLength),
        Err(hex::FromHexError::InvalidStringLength) => Err(HexDecodeError::InvalidStringLength),
    }
}

/// `format!("{:?}", c)` for a `char`: the quoted, escaped form that
/// `<char as Debug>` writes (its escaping tables are not restated here).
pub uninterp spec fn char_debug(c: char) -> Seq<char>;

/// `format!("{:?}", c)`.
#[verifier::external_body]
fn char_debug_text(c: char) -> (r: String)
    ensures
        r@ == char_debug(c),
{
    format!("{:?}", c)
}

/// The `Debug` text of a decoding error.
pub open spec fn hex_error_text(e: HexError) -> Seq<char> {
    match e {
        HexError::InvalidHexCharacter(c, index) => "InvalidHexCharacter { c: "@ + char_debug(c) + ", index: "@
            + nat_to_dec(index) + " }"@,
        HexError::OddLength => "OddLength"@,
        HexError::InvalidStringLength => "InvalidStringLength"@,
    }
}

/// The `Debug` text of a decoding error, as `{:?}` writes it.
pub fn hex_error_message(e: &HexDecodeError) -> (r: String)
    ensures
        r@ == hex_error_text(hex_error_view(*e)),
{
    match e {
        HexDecodeError::InvalidHexCharacter { c, index } => {
            let mut out = String::new();
            push_str(&mut out, "InvalidHexCharacter { c: ");
            push_str(&mut out, char_debug_text(*c).as_str());
            push_str(&mut out, ", index: ");
            push_str(&mut out, u64_to_string(*index as u64).as_str());
            push_str(&mut out, " }");
            out
        },
        HexDecodeError::OddLength => "OddLength".to_string(),
        HexDecodeError::InvalidStringLength => "InvalidStringLength".to_string(),
    }
}

/// Hexadecimal text given as characters decodes exactly when it is
/// hexadecimal text of whole bytes, to the bytes it stands for.
pub proof fn lemma_hex_decode_chars(h: Seq<char>)
    ensures
        hex_decode_spec(encode_utf8(h)) is Ok <==> is_hex_text(h),
        is_hex_text(h) ==> hex_decode_spec(encode_utf8(h)) == Ok::<Seq<u8>, HexError>(hex_bytes(h)),
{
    if is_hex_text(h) {
        assert(is_ascii_chars(h)) by {
            assert forall|i| 0 <= i < h.len() implies '\0' <= #[trigger] h[i] <= '\u{7f}' by {
                assert(hex_value(h[i]) >= 0);
            }
        }
        is_ascii_chars_encode_utf8(h);
        let b = encode_utf8(h);
        assert forall|i: int| 0 <= i < b.len() implies hex_byte_value(#[trigger] b[i]) == hex_value(h[i]) by {
            assert(hex_value(h[i]) >= 0);
            assert(h[i] as u8 == b[i]);
            assert(h[i] as int == b[i] as int);
        }
        lemma_first_bad_hex_byte_none(b);
        assert(hex_decode_spec(b) == Ok::<Seq<u8>, HexError>(hex_bytes(h))) by {
            if let Ok(v) = hex_decode_spec(b) {
                assert(v =~= hex_bytes(h));
            }
        }
    } else {
        lemma_not_hex_text(h);
    }
}

proof fn lemma_not_hex_text(h: Seq<char>)
    requires
        !is_hex_text(h),
    ensures
        hex_decode_spec(encode_utf8(h)) is Err,
{
    let b = encode_utf8(h);
    if exists|i: int| 0 <= i < h.len() && #[trigger] hex_value(h[i]) < 0 {
        lemma_bad_char_bad_byte(h);
    } else {
        assert(is_ascii_chars(h)) by {
            assert forall|i| 0 <= i < h.len() implies '\0' <= #[trigger] h[i] <= '\u{7f}' by {
                assert(hex_value(h[i]) >= 0);
            }
        }
        is_ascii_chars_encode_utf8(h);
        assert(h.len() % 2 != 0);
    }
}

/// A character that is no hexadecimal digit puts a byte that is none into
/// the UTF-8 encoding.
proof fn lemma_bad_char_bad_byte(h: Seq<char>)
    requires
        exists|i: int| 0 <= i < h.len() && #[trigger] hex_value(h[i]) < 0,
    ensures
        first_bad_hex_byte(encode_utf8(h)) < encode_utf8(h).len(),
    decreases h.len(),
{
    let b = encode_utf8(h);
    let c = h[0] as u32;
    let head = vstd::utf8::encode_scalar(c);
    assert(b == head + encode_utf8(h.drop_first()));
    if hex_value(h[0]) < 0 {
        if vstd::utf8::has_width_1_encoding(c) {
            assert(c as u8 == vstd::utf8::leading_byte_width_1(c)) by (bit_vector)
                requires
                    vstd::utf8::has_width_1_encoding(c),
            ;
            assert(b[0] == head[0]);
            assert((c as u8) as u32 == c) by (bit_vector)
                requires
                    c <= 0x7F,
            ;
            assert(b[0] as u32 == c);
            lemma_char_u32(h[0]);
            assert(b[0] as int == h[0] as int);
        } else {
            let l2 = vstd::utf8::leading_byte_width_2(c);
            let l3 = vstd::utf8::leading_byte_width_3(c);
            let l4 = vstd::utf8::leading_byte_width_4(c);
            assert(l2 >= 0xC0 && l3 >= 0xC0 && l4 >= 0xC0) by (bit_vector)
                requires
                    l2 == 0xC0 | ((c >> 6) & 0x1F) as u8,
                    l3 == 0xE0 | ((c >> 12) & 0x0F) as u8,
                    l4 == 0xF0 | ((c >> 18) & 0x7) as u8,
            ;
            assert(b[0] == head[0]);
            assert(head[0] >= 0xC0);
        }
        assert(hex_byte_value(b[0]) < 0);
    } else {
        let i = choose|i: int| 0 <= i < h.len() && #[trigger] hex_value(h[i]) < 0;
        assert(i > 0);
        assert(hex_value(h.drop_first()[i - 1]) < 0);
        lemma_bad_char_bad_byte(h.drop_first());
        assert(vstd::utf8::has_width_1_encoding(c));
        assert(c as u8 == vstd::utf8::leading_byte_width_1(c)) by (bit_vector)
            requires
                vstd::utf8::has_width_1_encoding(c),
        ;
        assert(head =~= seq![c as u8]);
        assert(b.drop_first() =~= encode_utf8(h.drop_first()));
        assert(hex_byte_value(b[0]) >= 0);
    }
}

proof fn lemma_char_u32(x: char)
    ensures
        (x as u32) as int == x as int,
{
}

proof fn lemma_first_bad_hex_byte_none(b: Seq<u8>)
    requires
        forall|i: int| 0 <= i < b.len() ==> hex_byte_value(#[trigger] b[i]) >= 0,
    ensures
        first_bad_hex_byte(b) == b.len(),
    decreases b.len(),
{
    if b.len() > 0 {
        assert forall|i: int| 0 <= i < b.drop_first().len() implies hex_byte_value(#[trigger] b.drop_first()[i]) >= 0 by {
            assert(b.drop_first()[i] == b[i + 1]);
        }
        lemma_first_bad_hex_byte_none(b.drop_first());
    }
}

} // verus!

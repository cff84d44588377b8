//! The byte encodings of Apex configuration files: detection on reading,
//! UTF-8 or UTF-16 LE (with byte-order mark) on writing.

use crate::text::push_char;
use vstd::prelude::*;
use vstd::utf8::{decode_utf8, valid_utf8};

verus! {

broadcast use vstd::string::group_string_axioms;

/// The encoding a configuration file is written back in.
#[derive(Debug, Clone, Copy, PartialEq, Eq)]
pub enum ApexFileEncoding {
    Utf8,
    Utf16Le,
}

/// The two little-endian bytes of a UTF-16 code unit.
pub open spec fn le_bytes(u: nat) -> Seq<u8> {
    seq![(u % 256) as u8, (u / 256) as u8]
}

/// A character in UTF-16 LE: one code unit below U+10000, else a surrogate pair.
pub open spec fn utf16le_char(c: char) -> Seq<u8> {
    let n = c as u32 as nat;
    if n < 0x10000 {
        le_bytes(n)
    } else {
        let x = (n - 0x10000) as nat;
        le_bytes(0xD800 + x / 1024) + le_bytes(0xDC00 + x % 1024)
    }
}

pub open spec fn utf16le(s: Seq<char>) -> Seq<u8>
    decreases s.len(),
{
    if s.len() == 0 {
        seq![]
    } else {
        utf16le_char(s[0]) + utf16le(s.drop_first())
    }
}

/// What `ApexFileEncoding::encode` writes for `s`.
pub open spec fn encoded(e: ApexFileEncoding, s: Seq<char>) -> Seq<u8> {
    match e {
        ApexFileEncoding::Utf8 => vstd::utf8::encode_utf8(s),
        ApexFileEncoding::Utf16Le => seq![0xFFu8, 0xFEu8] + utf16le(s),
    }
}

/// `s` without its NUL characters.
pub open spec fn remove_nul(s: Seq<char>) -> Seq<char>
    decreases s.len(),
{
    if s.len() == 0 {
        seq![]
    } else if s.last() == '\0' {
        remove_nul(s.drop_last())
    } else {
        remove_nul(s.drop_last()).push(s.last())
    }
}

impl ApexFileEncoding {
    /// The bytes of `content` in this encoding; UTF-16 LE opens with the
    /// byte-order mark `FF FE`.
    pub fn encode(&self, content: &str) -> (r: Vec<u8>)
        ensures
            r@ == encoded(*self, content@),
    {
        match self {
            ApexFileEncoding::Utf8 => content.as_bytes_vec(),
            ApexFileEncoding::Utf16Le => {
                let mut bytes: Vec<u8> = Vec::new();
                bytes.push(0xFF);
                bytes.push(0xFE);
                let ghost sv = content@;
                assert(sv.skip(0) =~= sv);
                assert(seq![0xFFu8, 0xFEu8] + utf16le(sv) =~= bytes@ + utf16le(sv.skip(0)));
                for c in it: content.chars()
                    invariant
                        it.seq() == sv,
                        sv == content@,
                        seq![0xFFu8, 0xFEu8] + utf16le(sv) == bytes@ + utf16le(sv.skip(it.index() as int)),
                {
                    let ghost rest = sv.skip(it.index() as int);
                    proof {
                        assert(rest[0] == c);
                        assert(rest.drop_first() =~= sv.skip(it.index() + 1));
                    }
                    let n = c as u32;
                    if n < 0x10000 {
                        bytes.push((n % 256) as u8);
                        bytes.push((n / 256) as u8);
                    } else {
                        let x = n - 0x10000;
                        let hi = 0xD800 + x / 1024;
                        let lo = 0xDC00 + x % 1024;
                        bytes.push((hi % 256) as u8);
                        bytes.push((hi / 256) as u8);
                        bytes.push((lo % 256) as u8);
                        bytes.push((lo / 256) as u8);
                    }
                    proof {
                        assert(bytes@ + utf16le(sv.skip(it.index() + 1)) =~= seq![0xFFu8, 0xFEu8] + utf16le(sv));
                    }
                }
                assert(sv.skip(sv.len() as int) =~= Seq::<char>::empty());
                assert(bytes@ =~= encoded(*self, content@));
                bytes
            },
        }
    }
}

/// Drops the NUL characters, which make EA's launch check reject the file.
pub fn sanitize_config_text(text: &str) -> (r: String)
    ensures
        r@ == remove_nul(text@),
{
    let mut out = String::new();
    let ghost sv = text@;
    assert(sv.take(0) =~= Seq::<char>::empty());
    for c in it: text.chars()
        invariant
            it.seq() == sv,
            sv == text@,
            out@ == remove_nul(sv.take(it.index() as int)),
    {
        proof {
            assert(sv.take(it.index() + 1).drop_last() =~= sv.take(it.index() as int));
            assert(sv.take(it.index() + 1).last() == c);
        }
        if c != '\0' {
            push_char(&mut out, c);
        }
    }
    assert(sv.take(sv.len() as int) =~= sv);
    out
}

/// What `UTF_16LE.decode` (encoding_rs) yields for these bytes.
pub uninterp spec fn utf16le_decoded(bytes: Seq<u8>) -> Seq<char>;

/// What `GBK.decode` (encoding_rs) yields for these bytes.
pub uninterp spec fn gbk_decoded(bytes: Seq<u8>) -> Seq<char>;

/// Bytes that open with none of the byte-order marks that `encoding_rs`
/// sniffs (`FF FE`, `FE FF`, `EF BB BF`).
pub open spec fn no_bom(b: Seq<u8>) -> bool {
    &&& !starts_bytes(b, seq![0xFFu8, 0xFEu8])
    &&& !starts_bytes(b, seq![0xFEu8, 0xFFu8])
    &&& !starts_bytes(b, seq![0xEFu8, 0xBBu8, 0xBFu8])
}

/// `encoding_rs::UTF_16LE.decode`: UTF-16 LE with BOM sniffing, malformed
/// sequences replaced by U+FFFD; the text is named, not spelled out. Of it
/// the contract states one thing: well-formed UTF-16 LE of a text, opening
/// with no byte-order mark, decodes to that text. What malformed input or a
/// leading mark gives is left to the name.
#[verifier::external_body]
fn decode_utf16le(bytes: &[u8]) -> (r: String)
    requires
        bytes@.len() <= usize::MAX / 4,
    ensures
        r@ == utf16le_decoded(bytes@),
        forall|s: Seq<char>| #[trigger] utf16le(s) == bytes@ && no_bom(bytes@) ==> r@ == s,
{
    encoding_rs::UTF_16LE.decode(bytes).0.into_owned()
}

/// `encoding_rs::GBK.decode`: GBK with BOM sniffing, malformed sequences
/// replaced by U+FFFD; the text is named, not spelled out.
#[verifier::external_body]
pub(crate) fn decode_gbk(bytes: &[u8]) -> (r: String)
    requires
        bytes@.len() <= usize::MAX / 4,
    ensures
        r@ == gbk_decoded(bytes@),
{
    encoding_rs::GBK.decode(bytes).0.into_owned()
}

/// The message (`Display`) of the error `std::str::from_utf8` gives for
/// these bytes; its wording is not restated here.
pub uninterp spec fn utf8_error_text(bytes: Seq<u8>) -> Seq<char>;

/// `std::str::from_utf8`: succeeds exactly on valid UTF-8, with the decoded
/// characters; on failure gives the error's message.
#[verifier::external_body]
pub(crate) fn utf8_decode(bytes: &[u8]) -> (r: Result<String, String>)
    ensures
        r is Ok <==> valid_utf8(bytes@),
        r matches Ok(s) ==> s@ == decode_utf8(bytes@),
        r matches Err(e) ==> e@ == utf8_error_text(bytes@),
{
    match std::str::from_utf8(bytes) {
        Ok(s) => Ok(s.to_string()),
        Err(e) => Err(e.to_string()),
    }
}

/// Number of zero bytes at odd positions (the high bytes of UTF-16 LE units).
pub open spec fn odd_zero_count(b: Seq<u8>) -> nat
    decreases b.len(),
{
    if b.len() < 2 {
        0
    } else {
        (if b[1] == 0 {
            1nat
        } else {
            0nat
        }) + odd_zero_count(b.skip(2))
    }
}

pub open spec fn starts_bytes(b: Seq<u8>, p: Seq<u8>) -> bool {
    p.len() <= b.len() && b.take(p.len() as int) == p
}

/// Text saved in `e` that reads back as itself (without its NULs): in
/// UTF-8, text that does not open with U+FEFF (read back, that would be
/// taken for the byte-order mark); in UTF-16 LE, text whose units open with
/// no byte-order mark the decoder sniffs.
pub open spec fn reads_back(e: ApexFileEncoding, s: Seq<char>) -> bool {
    match e {
        ApexFileEncoding::Utf8 => s.len() == 0 || s[0] != '\u{FEFF}',
        ApexFileEncoding::Utf16Le => no_bom(utf16le(s)),
    }
}

/// Why [`decode_bytes`] refused the bytes.
pub enum DecodeFailure {
    Utf16Be,
    BadUtf8AfterBom,
}

/// How [`decode_bytes`] reads a file: UTF-16 LE after `FF FE`; refused
/// after `FE FF`; UTF-8 after `EF BB BF` (refused if invalid); plain UTF-8;
/// UTF-16 LE without mark when the length is even and more than a quarter of
/// the bytes are zero high bytes; GBK otherwise. NULs are dropped.
pub open spec fn decode_spec(b: Seq<u8>) -> Result<(Seq<char>, ApexFileEncoding), DecodeFailure> {
    if starts_bytes(b, seq![0xFFu8, 0xFEu8]) {
        Ok((remove_nul(utf16le_decoded(b.skip(2))), ApexFileEncoding::Utf16Le))
    } else if starts_bytes(b, seq![0xFEu8, 0xFFu8]) {
        Err(DecodeFailure::Utf16Be)
    } else if starts_bytes(b, seq![0xEFu8, 0xBBu8, 0xBFu8]) {
        if valid_utf8(b.skip(3)) {
            Ok((remove_nul(decode_utf8(b.skip(3))), ApexFileEncoding::Utf8))
        } else {
            Err(DecodeFailure::BadUtf8AfterBom)
        }
    } else if valid_utf8(b) {
        Ok((remove_nul(decode_utf8(b)), ApexFileEncoding::Utf8))
    } else if b.len() >= 2 && b.len() % 2 == 0 && odd_zero_count(b) > b.len() / 4 {
        Ok((remove_nul(utf16le_decoded(b)), ApexFileEncoding::Utf16Le))
    } else {
        Ok((remove_nul(gbk_decoded(b)), ApexFileEncoding::Utf8))
    }
}

/// A copy of `b[start..]`.
fn tail_vec(b: &[u8], start: usize) -> (r: Vec<u8>)
    requires
        start <= b@.len(),
    ensures
        r@ == b@.skip(start as int),
{
    let mut r: Vec<u8> = Vec::new();
    let mut i = start;
    while i < b.len()
        invariant
            start <= i <= b@.len(),
            r@ == b@.subrange(start as int, i as int),
        decreases b.len() - i,
    {
        r.push(b[i]);
        i = i + 1;
        assert(r@ =~= b@.subrange(start as int, i as int));
    }
    assert(r@ =~= b@.skip(start as int));
    r
}

fn count_odd_zeros(b: &[u8]) -> (r: usize)
    ensures
        r == odd_zero_count(b@),
{
    let mut n: usize = 0;
    let mut i: usize = 0;
    assert(b@.skip(0) =~= b@);
    while b.len() - i >= 2
        invariant
            i <= b@.len(),
            n <= i,
            n + odd_zero_count(b@.skip(i as int)) == odd_zero_count(b@),
        decreases b.len() - i,
    {
        proof {
            let t = b@.skip(i as int);
            assert(t[1] == b@[i + 1]);
            assert(t.skip(2) =~= b@.skip(i + 2));
        }
        if b[i + 1] == 0 {
            n = n + 1;
        }
        i = i + 2;
    }
    n
}

/// The message `decode_bytes` gives for a UTF-16 BE file.
pub open spec fn utf16_be_message() -> Seq<char> {
    "暂不支持 UTF-16 BE 编码的 Apex 配置文件"@
}

/// Detects the encoding of a configuration file and decodes it (see
/// [`decode_spec`]); a refusal after a UTF-8 mark carries the decoder's
/// message after a fixed prefix.
pub fn decode_bytes(bytes: &[u8]) -> (r: Result<(String, ApexFileEncoding), String>)
    requires
        bytes@.len() <= usize::MAX / 4,
    ensures
        match decode_spec(bytes@) {
            Ok((s, e)) => r matches Ok((x, e2)) && x@ == s && e2 == e,
            Err(DecodeFailure::Utf16Be) => r matches Err(m) && m@ == utf16_be_message(),
            Err(DecodeFailure::BadUtf8AfterBom) => r matches Err(m) && m@ == "UTF-8 BOM 文件解码失败: "@
                + utf8_error_text(bytes@.skip(3)),
        },
        forall|e: ApexFileEncoding, s: Seq<char>| #[trigger] encoded(e, s) == bytes@ && reads_back(e, s)
            ==> (r matches Ok((x, e2)) && x@ == remove_nul(s) && e2 == e),
{
    let n = bytes.len();
    proof {
        reveal_strlit("暂不支持 UTF-16 BE 编码的 Apex 配置文件");
        reveal_strlit("UTF-8 BOM 文件解码失败: ");
        if n >= 2 {
            assert(bytes@.take(2) =~= seq![bytes@[0], bytes@[1]]);
        }
        if n >= 3 {
            assert(bytes@.take(3) =~= seq![bytes@[0], bytes@[1], bytes@[2]]);
        }
    }
    proof {
        assert forall|s: Seq<char>| #[trigger] encoded(ApexFileEncoding::Utf8, s) == bytes@
            && reads_back(ApexFileEncoding::Utf8, s) implies decode_spec(bytes@)
            == Ok::<(Seq<char>, ApexFileEncoding), DecodeFailure>((remove_nul(s), ApexFileEncoding::Utf8)) by {
            law_utf8_save_read(s);
        }
        assert forall|s: Seq<char>| #[trigger] encoded(ApexFileEncoding::Utf16Le, s) == bytes@ implies n >= 2
            && bytes@[0] == 0xFFu8 && bytes@[1] == 0xFEu8 && bytes@.skip(2) == utf16le(s) by {
            assert(bytes@.skip(2) =~= utf16le(s));
        }
    }
    if n >= 2 && bytes[0] == 0xFF && bytes[1] == 0xFE {
        let rest = tail_vec(bytes, 2);
        let text = decode_utf16le(rest.as_slice());
        proof {
            assert forall|s: Seq<char>| #[trigger] encoded(ApexFileEncoding::Utf16Le, s) == bytes@
                && reads_back(ApexFileEncoding::Utf16Le, s) implies text@ == s by {
                assert(utf16le(s) == rest@);
            }
        }
        return Ok((sanitize_config_text(text.as_str()), ApexFileEncoding::Utf16Le));
    }
    if n >= 2 && bytes[0] == 0xFE && bytes[1] == 0xFF {
        return Err("暂不支持 UTF-16 BE 编码的 Apex 配置文件".to_string());
    }
    if n >= 3 && bytes[0] == 0xEF && bytes[1] == 0xBB && bytes[2] == 0xBF {
        let rest = tail_vec(bytes, 3);
        return match utf8_decode(rest.as_slice()) {
            Ok(s) => Ok((sanitize_config_text(s.as_str()), ApexFileEncoding::Utf8)),
            Err(e) => {
                let mut m = "UTF-8 BOM 文件解码失败: ".to_string();
                crate::text::push_str(&mut m, e.as_str());
                Err(m)
            },
        };
    }
    if let Ok(s) = utf8_decode(bytes) {
        return Ok((sanitize_config_text(s.as_str()), ApexFileEncoding::Utf8));
    }
    if n >= 2 && n % 2 == 0 {
        let zeros = count_odd_zeros(bytes);
        if zeros > n / 4 {
            let text = decode_utf16le(bytes);
            return Ok((sanitize_config_text(text.as_str()), ApexFileEncoding::Utf16Le));
        }
    }
    let text = decode_gbk(bytes);
    Ok((sanitize_config_text(text.as_str()), ApexFileEncoding::Utf8))
}

proof fn lemma_lead_byte_not_ff_fe(v: u32)
    requires
        vstd::utf8::is_scalar(v),
    ensures
        vstd::utf8::encode_scalar(v)[0] != 0xFFu8,
        vstd::utf8::encode_scalar(v)[0] != 0xFEu8,
        vstd::utf8::encode_scalar(v)[0] == 0xEFu8 ==> vstd::utf8::has_width_3_encoding(v),
{
    if vstd::utf8::has_width_1_encoding(v) {
        assert((v & 0x7F) as u8 <= 0x7F) by (bit_vector);
    } else if vstd::utf8::has_width_2_encoding(v) {
        assert(0xC0u8 | ((v >> 6) & 0x1F) as u8 <= 0xDF) by (bit_vector);
        assert(0xC0u8 | ((v >> 6) & 0x1F) as u8 >= 0xC0) by (bit_vector);
    } else if vstd::utf8::has_width_3_encoding(v) {
        assert(0xE0u8 | ((v >> 12) & 0x0F) as u8 <= 0xEF) by (bit_vector);
    } else {
        assert(0xF0u8 | ((v >> 18) & 0x7) as u8 <= 0xF7) by (bit_vector);
        assert(0xF0u8 | ((v >> 18) & 0x7) as u8 >= 0xF0) by (bit_vector);
    }
}

proof fn lemma_bom_scalar(v: u32)
    requires
        vstd::utf8::has_width_3_encoding(v),
        0xE0u8 | ((v >> 12) & 0x0F) as u8 == 0xEFu8,
        0x80u8 | ((v >> 6) & 0x3F) as u8 == 0xBBu8,
        0x80u8 | (v & 0x3F) as u8 == 0xBFu8,
    ensures
        v == 0xFEFF,
{
    assert(v == 0xFEFF) by (bit_vector)
        requires
            v <= 0xFFFF,
            0xE0u8 | ((v >> 12) & 0x0F) as u8 == 0xEFu8,
            0x80u8 | ((v >> 6) & 0x3F) as u8 == 0xBBu8,
            0x80u8 | (v & 0x3F) as u8 == 0xBFu8,
    ;
}

/// Text saved as UTF-8 reads back as the same text, without its NULs
/// (text that opens with U+FEFF reads back without that mark, so it is left out).
pub proof fn law_utf8_save_read(s: Seq<char>)
    requires
        s.len() == 0 || s[0] != '\u{FEFF}',
    ensures
        decode_spec(encoded(ApexFileEncoding::Utf8, s)) == Ok::<(Seq<char>, ApexFileEncoding), DecodeFailure>(
            (remove_nul(s), ApexFileEncoding::Utf8),
        ),
{
    let b = vstd::utf8::encode_utf8(s);
    vstd::utf8::encode_utf8_valid_utf8(s);
    vstd::utf8::encode_utf8_decode_utf8(s);
    if s.len() > 0 {
        let v = s[0] as u32;
        vstd::utf8::char_is_scalar(s[0]);
        let e = vstd::utf8::encode_scalar(v);
        assert(b == e + vstd::utf8::encode_utf8(s.drop_first()));
        lemma_lead_byte_not_ff_fe(v);
        assert(b[0] == e[0]);
        assert(!starts_bytes(b, seq![0xFFu8, 0xFEu8]));
        assert(!starts_bytes(b, seq![0xFEu8, 0xFFu8]));
        if starts_bytes(b, seq![0xEFu8, 0xBBu8, 0xBFu8]) {
            assert(b.take(3)[0] == 0xEFu8);
            assert(vstd::utf8::has_width_3_encoding(v));
            assert(e.len() == 3);
            assert(b[1] == e[1] && b[2] == e[2]);
            assert(b.take(3)[1] == 0xBBu8 && b.take(3)[2] == 0xBFu8);
            lemma_bom_scalar(v);
            vstd::utf8::char_u32_cast(s[0], v);
            assert(s[0] == (0xFEFFu32 as char));
            assert(false);
        }
    } else {
        assert(!starts_bytes(b, seq![0xFFu8, 0xFEu8]));
        assert(!starts_bytes(b, seq![0xFEu8, 0xFFu8]));
        assert(!starts_bytes(b, seq![0xEFu8, 0xBBu8, 0xBFu8]));
    }
}

} // verus!

//! Decoding what child processes print.

use crate::game::apex::config::encoding::{decode_gbk, gbk_decoded, utf8_decode};
use vstd::prelude::*;
use vstd::utf8::{decode_utf8, valid_utf8};

verus! {

/// The text of a child process's output: UTF-8 when it is valid UTF-8 (what
/// PowerShell-launched processes print), else GBK (the ANSI code page of
/// Chinese Windows, what `cmd` children print).
pub fn decode_process_output(bytes: &[u8]) -> (r: String)
    requires
        bytes@.len() <= usize::MAX / 4,
    ensures
        r@ == (if valid_utf8(bytes@) {
            decode_utf8(bytes@)
        } else {
            gbk_decoded(bytes@)
        }),
{
    match utf8_decode(bytes) {
        Ok(s) => s,
        Err(_) => decode_gbk(bytes),
    }
}

} // verus!

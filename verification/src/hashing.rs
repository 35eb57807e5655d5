//! The one digest the whole ledger uses, behind a single trusted wrapper.

use vstd::prelude::*;
use crate::hexnum::is_hex_digit;
use sha2::Digest;

verus! {

/// The lowercase hexadecimal SHA-256 digest of a character sequence (the
/// digest of its UTF-8 bytes). A function of the input alone; no definition is
/// given here, so nothing about particular digest values can be concluded.
pub uninterp spec fn sha256_hex_of(s: Seq<char>) -> Seq<char>;

/// Relies on sha2::Sha256 (RustCrypto): a deterministic, keyless 256-bit
/// digest of the input bytes, and on generic-array's LowerHex rendering of the
/// 32-byte output as exactly 64 lowercase hexadecimal characters.
#[verifier::external_body]
pub fn sha256_hex(s: &str) -> (r: String)
    ensures
        r@ == sha256_hex_of(s@),
        r@.len() == 64,
        forall|i: int| 0 <= i < r@.len() ==> is_hex_digit(#[trigger] r@[i]),
{
    let mut hasher = sha2::Sha256::new();
    hasher.update(s);
    format!("{:x}", hasher.finalize())
}

} // verus!

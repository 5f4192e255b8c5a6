//! SHA-256 digests, written as lowercase hexadecimal text.
use vstd::prelude::*;
use sha2::{Digest, Sha256};

verus! {

/// The lowercase hexadecimal SHA-256 digest of the UTF-8 encoding of `text`.
pub uninterp spec fn sha256_hex_of(text: Seq<char>) -> Seq<char>;

/// `sha2::Sha256::digest` of the UTF-8 bytes of `text`, formatted with `{:x}`.
/// Trusted: the result is the named digest of the argument, and it is 64
/// lowercase hexadecimal digits (two per byte of the 32-byte output).
#[verifier::external_body]
pub(crate) fn sha256_hex(text: &str) -> (r: String)
    ensures
        r@ == sha256_hex_of(text@),
        r@.len() == 64,
        forall|i: int|
            0 <= i < 64 ==> ('0' <= #[trigger] r@[i] <= '9' || 'a' <= r@[i] <= 'f'),
{
    format!("{:x}", Sha256::digest(text.as_bytes()))
}

} // verus!

//! SHA-256 digests, written as lowercase hexadecimal text.
use vstd::prelude::*;

verus! {

/// The SHA-256 digest of the UTF-8 encoding of `input`, as the 64
/// lowercase hexadecimal characters that the `sha256` crate prints.
pub uninterp spec fn sha256_hex(input: Seq<char>) -> Seq<char>;

/// Whether `c` is one of `0-9a-f`.
pub open spec fn is_lower_hex(c: char) -> bool {
    ('0' <= c && c <= '9') || ('a' <= c && c <= 'f')
}

/// Calls `sha256::digest` on the string. The crate hashes the string's
/// bytes with `sha2::Sha256` (a 32-byte output) and writes them with
/// `hex::encode`, which uses the lowercase alphabet; so the result is
/// the named digest of the input, 64 characters long, all lowercase hex.
#[verifier::external_body]
pub(crate) fn sha256_digest(input: &str) -> (hash: String)
    ensures
        hash@ == sha256_hex(input@),
        hash@.len() == 64,
        forall|i: int| 0 <= i < 64 ==> is_lower_hex(#[trigger] hash@[i]),
{
    sha256::digest(input)
}

} // verus!

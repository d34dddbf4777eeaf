use vstd::prelude::*;

verus! {

/// The lowercase hexadecimal SHA-256 digest of the UTF-8 encoding of `text`.
pub uninterp spec fn sha256_hex(text: Seq<char>) -> Seq<char>;

/// Relies on `sha256::digest` on a `&str`: it hashes the UTF-8 bytes of the
/// text and hex-encodes the 32-byte digest, so the result depends on the text
/// alone and always has 64 characters.
#[verifier::external_body]
pub(crate) fn sha256_digest(text: &str) -> (r: String)
    ensures
        r@ == sha256_hex(text@),
        r@.len() == 64,
{
    sha256::digest(text)
}

} // verus!

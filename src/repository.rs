//! Tracked repositories and the key that tells two addresses apart.
use vstd::prelude::*;

verus! {

/// A tracked repository.
pub struct Repository {
    pub id: i32,
    pub url: String,
}

/// The SHA-256 digest of the UTF-8 bytes of `s`, in lower-case hexadecimal.
pub uninterp spec fn sha256_hex(s: Seq<char>) -> Seq<char>;

/// Relies on sha2's `Sha256::digest` of the text's bytes, written out through
/// the digest's `LowerHex` impl (two digits for each of its 32 bytes).
#[verifier::external_body]
fn sha256_hex_of(s: &str) -> (r: String)
    ensures
        r@ == sha256_hex(s@),
        r@.len() == 64,
{
    format!("{:x}", <sha2::Sha256 as sha2::Digest>::digest(s.as_bytes()))
}

/// The key under which a repository address is stored: two subscriptions to
/// the same address find the same repository.
pub fn url_hash(url: &str) -> (r: String)
    ensures
        r@ == sha256_hex(url@),
        r@.len() == 64,
{
    sha256_hex_of(url)
}

} // verus!

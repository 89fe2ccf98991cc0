use vstd::prelude::*;
use sha2::Digest;

verus! {

pub uninterp spec fn sha256_of(text: Seq<char>) -> Seq<u8>;

pub uninterp spec fn sha512_of(text: Seq<char>) -> Seq<u8>;

pub uninterp spec fn md5_of(text: Seq<char>) -> Seq<u8>;

pub uninterp spec fn blake3_of(text: Seq<char>) -> Seq<u8>;

/// Relies on sha2's `Sha256`: the digest of the text's UTF-8 bytes is a function
/// of the text alone and is 32 bytes long.
#[verifier::external_body]
pub(crate) fn sha256_digest(text: &str) -> (r: Vec<u8>)
    ensures
        r@ == sha256_of(text@),
        r@.len() == 32,
{
    sha2::Sha256::digest(text.as_bytes()).to_vec()
}

/// Relies on sha2's `Sha512`: the digest of the text's UTF-8 bytes is a function
/// of the text alone and is 64 bytes long.
#[verifier::external_body]
pub(crate) fn sha512_digest(text: &str) -> (r: Vec<u8>)
    ensures
        r@ == sha512_of(text@),
        r@.len() == 64,
{
    sha2::Sha512::digest(text.as_bytes()).to_vec()
}

/// Relies on md5's `compute`: the digest of the text's UTF-8 bytes is a function
/// of the text alone and is 16 bytes long.
#[verifier::external_body]
pub(crate) fn md5_digest(text: &str) -> (r: Vec<u8>)
    ensures
        r@ == md5_of(text@),
        r@.len() == 16,
{
    md5::compute(text.as_bytes()).0.to_vec()
}

/// Relies on blake3's `hash`: the digest of the text's UTF-8 bytes is a function
/// of the text alone and is 32 bytes long.
#[verifier::external_body]
pub(crate) fn blake3_digest(text: &str) -> (r: Vec<u8>)
    ensures
        r@ == blake3_of(text@),
        r@.len() == 32,
{
    blake3::hash(text.as_bytes()).as_bytes().to_vec()
}

} // verus!

use vstd::prelude::*;
use crate::digests;
use crate::hexstr;
use crate::text;

verus! {

/// Why a hash request was refused.
#[derive(Clone, Copy, Debug, PartialEq, Eq, Structural)]
pub enum HashError {
    UnsupportedAlgorithm,
}

/// What hashing must return: the lower-case hex digest of the text under the
/// named algorithm, read case-insensitively; anything else is refused.
pub open spec fn spec_hash_text(t: Seq<char>, algorithm: Seq<char>) -> Result<
    Seq<char>,
    HashError,
> {
    let a = text::lower(algorithm);
    if a == "md5"@ {
        Ok(hexstr::hex_of(digests::md5_of(t)))
    } else if a == "sha256"@ {
        Ok(hexstr::hex_of(digests::sha256_of(t)))
    } else if a == "sha512"@ {
        Ok(hexstr::hex_of(digests::sha512_of(t)))
    } else if a == "blake3"@ {
        Ok(hexstr::hex_of(digests::blake3_of(t)))
    } else {
        Err(HashError::UnsupportedAlgorithm)
    }
}

fn algo_is(a: &String, lit: &str) -> (r: bool)
    ensures
        r == (a@ == lit@),
{
    *a == lit.to_owned()
}

/// Hashes `t` with the named algorithm and renders the digest in hex.
pub fn hash_text(t: &str, algorithm: &str) -> (r: Result<String, HashError>)
    ensures
        match r {
            Ok(h) => spec_hash_text(t@, algorithm@) == Ok::<Seq<char>, HashError>(h@),
            Err(e) => spec_hash_text(t@, algorithm@) == Err::<Seq<char>, HashError>(e),
        },
{
    let a = text::to_ascii_lower(algorithm);
    if algo_is(&a, "md5") {
        let d = digests::md5_digest(t);
        Ok(hexstr::encode_hex(d.as_slice()))
    } else if algo_is(&a, "sha256") {
        let d = digests::sha256_digest(t);
        Ok(hexstr::encode_hex(d.as_slice()))
    } else if algo_is(&a, "sha512") {
        let d = digests::sha512_digest(t);
        Ok(hexstr::encode_hex(d.as_slice()))
    } else if algo_is(&a, "blake3") {
        let d = digests::blake3_digest(t);
        Ok(hexstr::encode_hex(d.as_slice()))
    } else {
        Err(HashError::UnsupportedAlgorithm)
    }
}

} // verus!

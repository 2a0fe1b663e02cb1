//! Base58 text and SHA-256 multihash containers, through the outside codecs.

use vstd::prelude::*;

verus! {

/// The base58 text, in the Bitcoin alphabet, of a byte string.
pub uninterp spec fn b58_encoded(bytes: Seq<u8>) -> Seq<u8>;

/// The byte string a base58 text decodes to, when the text is valid.
pub uninterp spec fn b58_decode(text: Seq<u8>) -> Option<Seq<u8>>;

/// The SHA-256 multihash container bytes of a byte string.
pub uninterp spec fn sha256_of(data: Seq<u8>) -> Seq<u8>;

/// Whether a byte string is a well-formed multihash container.
pub uninterp spec fn mh_parses(bytes: Seq<u8>) -> bool;

/// Relies on bs58::encode with the Bitcoin alphabet: the text is a function
/// of the bytes alone, and bs58::decode inverts it (the documented round
/// trip).
#[verifier::external_body]
pub fn b58_encode(b: &Vec<u8>) -> (r: Vec<u8>)
    ensures
        r@ == b58_encoded(b@),
        b58_decode(r@) == Some(b@),
{
    bs58::encode(b.as_slice()).with_alphabet(bs58::Alphabet::BITCOIN).into_vec()
}

/// Relies on bs58::decode with the Bitcoin alphabet: it returns the unique
/// byte string whose encoding is the given text, and fails exactly on text
/// that is not base58.
#[verifier::external_body]
pub fn b58_decode_bytes(s: &Vec<u8>) -> (r: Option<Vec<u8>>)
    ensures
        match r {
            Some(v) => b58_decode(s@) == Some(v@) && b58_encoded(v@) == s@,
            None => b58_decode(s@) is None,
        },
{
    match bs58::decode(s.as_slice()).with_alphabet(bs58::Alphabet::BITCOIN).into_vec() {
        Ok(v) => Some(v),
        Err(_) => None,
    }
}

/// Relies on multihash::Sha2_256::digest: the container bytes are a function
/// of the input alone, and parse back as a multihash.
#[verifier::external_body]
pub fn sha2_256_digest(data: &Vec<u8>) -> (r: Vec<u8>)
    ensures
        r@ == sha256_of(data@),
        mh_parses(r@),
{
    multihash::Sha2_256::digest(data.as_slice()).into_bytes()
}

/// Relies on multihash::Multihash::from_bytes: whether the bytes form a
/// well-formed multihash container.
#[verifier::external_body]
pub fn multihash_parses(b: &Vec<u8>) -> (r: bool)
    ensures
        r == mh_parses(b@),
{
    multihash::Multihash::from_bytes(b.clone()).is_ok()
}

} // verus!

//! Device keys and signatures, modelled over byte strings. A signature is
//! the SHA-256 multihash digest of the signing key's public bytes followed
//! by the signed payload; verification recomputes it.

use vstd::prelude::*;

use crate::bytes::{bytes_eq, copy_bytes, push_bytes};
use crate::codec::{b58_decode_bytes, b58_encode, b58_encoded, sha256_of, sha2_256_digest};

verus! {

/// A public key: its raw bytes.
#[derive(Debug)]
pub struct PublicKey {
    pub bytes: Vec<u8>,
}

impl View for PublicKey {
    type V = Seq<u8>;

    open spec fn view(&self) -> Seq<u8> {
        self.bytes@
    }
}

/// A device key pair, carried by its public bytes.
#[derive(Debug)]
pub struct Key {
    pub bytes: Vec<u8>,
}

impl View for Key {
    type V = Seq<u8>;

    open spec fn view(&self) -> Seq<u8> {
        self.bytes@
    }
}

/// A signature: its raw bytes.
#[derive(Debug)]
pub struct Signature {
    pub bytes: Vec<u8>,
}

impl View for Signature {
    type V = Seq<u8>;

    open spec fn view(&self) -> Seq<u8> {
        self.bytes@
    }
}

/// The signature of `data` under the key with public bytes `pk`.
pub open spec fn sig_model(pk: Seq<u8>, data: Seq<u8>) -> Seq<u8> {
    sha256_of(pk + data)
}

impl PublicKey {
    pub fn clone_key(&self) -> (r: Self)
        ensures
            r@ == self@,
    {
        PublicKey { bytes: copy_bytes(&self.bytes) }
    }

    /// The base58 text of the key bytes.
    pub fn to_bs58(&self) -> (r: Vec<u8>)
        ensures
            r@ == b58_encoded(self@),
            crate::codec::b58_decode(b58_encoded(self@)) == Some(self@),
    {
        b58_encode(&self.bytes)
    }

    /// The key whose base58 text is `s`, when `s` is valid base58.
    pub fn from_bs58(s: &Vec<u8>) -> (r: Option<PublicKey>)
        ensures
            match r {
                Some(k) => crate::codec::b58_decode(s@) == Some(k@) && b58_encoded(k@) == s@,
                None => crate::codec::b58_decode(s@) is None,
            },
    {
        match b58_decode_bytes(s) {
            Some(bytes) => Some(PublicKey { bytes }),
            None => None,
        }
    }
}

impl Key {
    /// The public part of the key.
    pub fn public(&self) -> (r: PublicKey)
        ensures
            r@ == self@,
    {
        PublicKey { bytes: copy_bytes(&self.bytes) }
    }

    /// Signs `data`: the digest of the public bytes followed by the payload.
    pub fn sign(&self, data: &Vec<u8>) -> (r: Signature)
        ensures
            r@ == sig_model(self@, data@),
    {
        let mut buf = copy_bytes(&self.bytes);
        push_bytes(&mut buf, data);
        Signature { bytes: sha2_256_digest(&buf) }
    }
}

impl Signature {
    pub fn clone_sig(&self) -> (r: Self)
        ensures
            r@ == self@,
    {
        Signature { bytes: copy_bytes(&self.bytes) }
    }

    /// The base58 text of the signature bytes.
    pub fn to_bs58(&self) -> (r: Vec<u8>)
        ensures
            r@ == b58_encoded(self@),
            crate::codec::b58_decode(b58_encoded(self@)) == Some(self@),
    {
        b58_encode(&self.bytes)
    }

    /// The signature whose base58 text is `s`, when `s` is valid base58.
    pub fn from_bs58(s: &Vec<u8>) -> (r: Option<Signature>)
        ensures
            match r {
                Some(k) => crate::codec::b58_decode(s@) == Some(k@) && b58_encoded(k@) == s@,
                None => crate::codec::b58_decode(s@) is None,
            },
    {
        match b58_decode_bytes(s) {
            Some(bytes) => Some(Signature { bytes }),
            None => None,
        }
    }

    /// Whether this signature is the one `key` produces over `data`.
    pub fn verify(&self, data: &Vec<u8>, key: &PublicKey) -> (r: bool)
        ensures
            r == (self@ == sig_model(key@, data@)),
    {
        let mut buf = copy_bytes(&key.bytes);
        push_bytes(&mut buf, data);
        let expect = sha2_256_digest(&buf);
        bytes_eq(&self.bytes, &expect)
    }
}

} // verus!

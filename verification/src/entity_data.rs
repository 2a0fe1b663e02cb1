//! The raw, pre-parsed form of an identity entity, and its canonical byte
//! serialization. The canonical form is deterministic, omits the `hash` and
//! `signatures` fields, and length-prefixes every variable part, so the hash
//! of an entity does not depend on its signatures. It is the library's own
//! byte format, chosen deliberately over a JSON rendering: hashing and
//! signing need only a deterministic serialization of the raw fields, and
//! JSON interchange of those fields lives outside the library.

use vstd::prelude::*;

use crate::bytes::{bviews, copy_bytes, push_bytes};
use crate::codec::sha256_of;
use crate::codec::sha2_256_digest;

verus! {

/// The little-endian bytes of a length or revision.
pub open spec fn le8(n: u64) -> Seq<u8> {
    seq![
        (n & 0xff) as u8,
        ((n >> 8) & 0xff) as u8,
        ((n >> 16) & 0xff) as u8,
        ((n >> 24) & 0xff) as u8,
        ((n >> 32) & 0xff) as u8,
        ((n >> 40) & 0xff) as u8,
        ((n >> 48) & 0xff) as u8,
        ((n >> 56) & 0xff) as u8,
    ]
}

/// A length-prefixed byte string.
pub open spec fn lp(x: Seq<u8>) -> Seq<u8> {
    le8(x.len() as u64) + x
}

/// The concatenation of the length-prefixed elements of a list.
pub open spec fn cat_lps(xs: Seq<Seq<u8>>) -> Seq<u8>
    decreases xs.len(),
{
    if xs.len() == 0 {
        Seq::empty()
    } else {
        cat_lps(xs.drop_last()) + lp(xs.last())
    }
}

/// An optional byte string: a presence byte, then the string when present.
pub open spec fn opt_lp(o: Option<Seq<u8>>) -> Seq<u8> {
    match o {
        None => seq![0u8],
        Some(b) => seq![1u8] + lp(b),
    }
}

/// The canonical bytes of an entity's hashed content: name, revision,
/// parent hash text, key texts, certifier texts and payload, in that fixed
/// order. The `hash` and `signatures` fields take no part.
pub open spec fn canonical_of(
    name: Seq<u8>,
    revision: u64,
    parent: Option<Seq<u8>>,
    keys: Seq<Seq<u8>>,
    certifiers: Seq<Seq<u8>>,
    info: Seq<u8>,
) -> Seq<u8> {
    lp(name) + le8(revision) + opt_lp(parent) + le8(keys.len() as u64) + cat_lps(keys) + le8(
        certifiers.len() as u64,
    ) + cat_lps(certifiers) + lp(info)
}

proof fn lemma_byte_mask(x: u64)
    ensures
        x & 0xff < 256,
{
    assert(x & 0xff < 256) by (bit_vector);
}

/// Appends the little-endian bytes of `n`.
fn push_le8(out: &mut Vec<u8>, n: u64)
    ensures
        final(out)@ == old(out)@ + le8(n),
{
    let ghost base = out@;
    proof {
        lemma_byte_mask(n);
        lemma_byte_mask(n >> 8);
        lemma_byte_mask(n >> 16);
        lemma_byte_mask(n >> 24);
        lemma_byte_mask(n >> 32);
        lemma_byte_mask(n >> 40);
        lemma_byte_mask(n >> 48);
        lemma_byte_mask(n >> 56);
    }
    out.push((n & 0xff) as u8);
    out.push(((n >> 8) & 0xff) as u8);
    out.push(((n >> 16) & 0xff) as u8);
    out.push(((n >> 24) & 0xff) as u8);
    out.push(((n >> 32) & 0xff) as u8);
    out.push(((n >> 40) & 0xff) as u8);
    out.push(((n >> 48) & 0xff) as u8);
    out.push(((n >> 56) & 0xff) as u8);
    proof {
        assert(out@ =~= base + le8(n));
    }
}

/// Appends a length-prefixed byte string.
fn push_lp(out: &mut Vec<u8>, x: &Vec<u8>)
    ensures
        final(out)@ == old(out)@ + lp(x@),
{
    let ghost base = out@;
    push_le8(out, x.len() as u64);
    push_bytes(out, x);
    proof {
        assert(out@ =~= base + lp(x@));
    }
}

/// Appends each element of a list, length-prefixed.
fn push_lps(out: &mut Vec<u8>, xs: &Vec<Vec<u8>>)
    ensures
        final(out)@ == old(out)@ + cat_lps(bviews(xs@)),
{
    let ghost base = out@;
    let ghost xv = bviews(xs@);
    let mut i: usize = 0;
    proof {
        assert(xv.take(0) =~= Seq::<Seq<u8>>::empty());
        assert(out@ =~= base + cat_lps(xv.take(0)));
    }
    while i < xs.len()
        invariant
            i <= xs.len(),
            xv == bviews(xs@),
            xv.len() == xs@.len(),
            forall|j: int| 0 <= j < xv.len() ==> xv[j] == xs@[j]@,
            out@ == base + cat_lps(xv.take(i as int)),
        decreases xs.len() - i,
    {
        proof {
            assert(xv.take(i + 1).drop_last() =~= xv.take(i as int));
            assert(xv.take(i + 1).last() == xv[i as int]);
        }
        push_lp(out, &xs[i]);
        proof {
            assert(out@ =~= base + cat_lps(xv.take(i + 1)));
        }
        i = i + 1;
    }
    proof {
        assert(xv.take(xv.len() as int) =~= xv);
    }
}

/// Builds the canonical bytes of an entity's hashed content.
pub fn canonical_bytes(
    name: &Vec<u8>,
    revision: u64,
    parent: &Option<Vec<u8>>,
    keys: &Vec<Vec<u8>>,
    certifiers: &Vec<Vec<u8>>,
    info: &Vec<u8>,
) -> (r: Vec<u8>)
    ensures
        r@ == canonical_of(
            name@,
            revision,
            match parent {
                Some(p) => Some(p@),
                None => None,
            },
            bviews(keys@),
            bviews(certifiers@),
            info@,
        ),
{
    let mut out: Vec<u8> = Vec::new();
    push_lp(&mut out, name);
    push_le8(&mut out, revision);
    match parent {
        None => {
            out.push(0);
        },
        Some(p) => {
            out.push(1);
            push_lp(&mut out, p);
        },
    }
    let ghost mid = out@;
    push_le8(&mut out, keys.len() as u64);
    push_lps(&mut out, keys);
    push_le8(&mut out, certifiers.len() as u64);
    push_lps(&mut out, certifiers);
    push_lp(&mut out, info);
    proof {
        let pv = match parent {
            Some(p) => Some(p@),
            None => None,
        };
        assert(mid =~= lp(name@) + le8(revision) + opt_lp(pv));
        assert(out@ =~= canonical_of(name@, revision, pv, bviews(keys@), bviews(certifiers@), info@));
    }
    out
}

/// One signature entry of the raw form: the certifying identity's URN text
/// when the key is spoken for by another identity, and the signature's
/// base58 text.
#[derive(Debug)]
pub struct EntitySignatureData {
    pub user: Option<Vec<u8>>,
    pub sig: Vec<u8>,
}

/// Mathematical model of an [`EntitySignatureData`].
#[verifier::ext_equal]
pub struct EntitySignatureDataV {
    pub user: Option<Seq<u8>>,
    pub sig: Seq<u8>,
}

impl View for EntitySignatureData {
    type V = EntitySignatureDataV;

    open spec fn view(&self) -> EntitySignatureDataV {
        EntitySignatureDataV {
            user: match &self.user {
                Some(u) => Some(u@),
                None => None,
            },
            sig: self.sig@,
        }
    }
}

/// The models of a list of raw signature entries.
pub open spec fn sdviews(s: Seq<(Vec<u8>, EntitySignatureData)>) -> Seq<
    (Seq<u8>, EntitySignatureDataV),
> {
    s.map_values(|p: (Vec<u8>, EntitySignatureData)| (p.0@, p.1@))
}

/// The raw, pre-parsed form of an identity entity. Texts are UTF-8 bytes;
/// keys, signatures and hashes are base58 texts; the payload is opaque
/// bytes.
#[derive(Debug)]
pub struct EntityData {
    pub name: Option<Vec<u8>>,
    pub revision: Option<u64>,
    pub hash: Option<Vec<u8>>,
    pub parent_hash: Option<Vec<u8>>,
    pub signatures: Option<Vec<(Vec<u8>, EntitySignatureData)>>,
    pub keys: Vec<Vec<u8>>,
    pub certifiers: Vec<Vec<u8>>,
    pub info: Vec<u8>,
}

/// Mathematical model of an [`EntityData`].
#[verifier::ext_equal]
pub struct EntityDataV {
    pub name: Option<Seq<u8>>,
    pub revision: Option<u64>,
    pub hash: Option<Seq<u8>>,
    pub parent_hash: Option<Seq<u8>>,
    pub signatures: Option<Seq<(Seq<u8>, EntitySignatureDataV)>>,
    pub keys: Seq<Seq<u8>>,
    pub certifiers: Seq<Seq<u8>>,
    pub info: Seq<u8>,
}

impl View for EntityData {
    type V = EntityDataV;

    open spec fn view(&self) -> EntityDataV {
        EntityDataV {
            name: match &self.name {
                Some(n) => Some(n@),
                None => None,
            },
            revision: self.revision,
            hash: match &self.hash {
                Some(h) => Some(h@),
                None => None,
            },
            parent_hash: match &self.parent_hash {
                Some(h) => Some(h@),
                None => None,
            },
            signatures: match &self.signatures {
                Some(s) => Some(sdviews(s@)),
                None => None,
            },
            keys: bviews(self.keys@),
            certifiers: bviews(self.certifiers@),
            info: self.info@,
        }
    }
}

impl EntityDataV {
    /// The canonical bytes of the raw form, defined when name and revision
    /// are present.
    pub open spec fn canonical(self) -> Seq<u8> {
        canonical_of(
            self.name->0,
            self.revision->0,
            self.parent_hash,
            self.keys,
            self.certifiers,
            self.info,
        )
    }
}

impl EntityData {
    /// The canonical bytes of this raw form.
    pub fn canonical_data(&self) -> (r: Vec<u8>)
        requires
            self@.name is Some,
            self@.revision is Some,
        ensures
            r@ == self@.canonical(),
    {
        let name = match &self.name {
            Some(n) => n,
            None => unreached(),
        };
        let revision = match self.revision {
            Some(r) => r,
            None => unreached(),
        };
        canonical_bytes(name, revision, &self.parent_hash, &self.keys, &self.certifiers, &self.info)
    }

    /// The SHA-256 multihash of the canonical bytes.
    pub fn compute_hash(&self) -> (r: Vec<u8>)
        requires
            self@.name is Some,
            self@.revision is Some,
        ensures
            r@ == sha256_of(self@.canonical()),
            crate::codec::mh_parses(r@),
    {
        let c = self.canonical_data();
        sha2_256_digest(&c)
    }

    /// The same raw form without its hash text.
    pub fn clear_hash(self) -> (r: Self)
        ensures
            r@ == (EntityDataV { hash: None, ..self@ }),
    {
        EntityData { hash: None, ..self }
    }

    /// The same raw form without its signatures.
    pub fn clear_signatures(self) -> (r: Self)
        ensures
            r@ == (EntityDataV { signatures: None, ..self@ }),
    {
        EntityData { signatures: None, ..self }
    }
}

} // verus!

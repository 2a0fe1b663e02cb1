//! Content-addressed, multi-signed identity entities. An entity is built
//! from its raw form, its hash is pinned to the canonical bytes of its
//! content, and updates between revisions are quorum-gated.

use vstd::prelude::*;

use crate::bytes::{bviews, bytes_eq, bytes_list_contains, copy_bytes};
use crate::codec::{b58_decode, b58_encoded, mh_parses, multihash_parses, sha256_of};
use crate::entity_data::{
    canonical_bytes, canonical_of, EntityData, EntityDataV, EntitySignatureData,
    EntitySignatureDataV, sdviews,
};
use crate::keys::{PublicKey, Signature};
use crate::uri::{uri_parse, uri_string_of, RadicleUri};

verus! {

/// What can go wrong building, signing or verifying an entity. Payload
/// bytes name the offending text, key or identity.
#[derive(Debug)]
pub enum Error {
    /// A field is missing or a text in the raw form cannot be decoded.
    InvalidData(Vec<u8>),
    /// A hash text is not base58.
    InvalidBufferEncoding(Vec<u8>),
    /// A hash does not parse as a multihash or does not match the content.
    InvalidHash(Vec<u8>),
    /// A certifying identity's URN cannot be parsed.
    InvalidUri(Vec<u8>),
    /// The key has already signed this entity.
    SignatureAlreadyPresent(PublicKey),
    /// The key is not one of the entity's own keys.
    KeyNotPresent(PublicKey),
    /// The key is not a key of the certifying identity.
    UserKeyNotPresent(RadicleUri, PublicKey),
    /// A required key or certifier has not signed.
    SignatureMissing,
    /// A signature does not verify under its key.
    SignatureVerificationFailed,
    /// A certifying identity could not be resolved.
    ResolutionFailed(Vec<u8>),
}

/// Mathematical model of an [`Error`].
pub enum ErrorV {
    InvalidData(Seq<u8>),
    InvalidBufferEncoding(Seq<u8>),
    InvalidHash(Seq<u8>),
    InvalidUri(Seq<u8>),
    SignatureAlreadyPresent(Seq<u8>),
    KeyNotPresent(Seq<u8>),
    UserKeyNotPresent(Seq<u8>, Seq<u8>),
    SignatureMissing,
    SignatureVerificationFailed,
    ResolutionFailed(Seq<u8>),
}

impl View for Error {
    type V = ErrorV;

    open spec fn view(&self) -> ErrorV {
        match self {
            Error::InvalidData(b) => ErrorV::InvalidData(b@),
            Error::InvalidBufferEncoding(b) => ErrorV::InvalidBufferEncoding(b@),
            Error::InvalidHash(b) => ErrorV::InvalidHash(b@),
            Error::InvalidUri(b) => ErrorV::InvalidUri(b@),
            Error::SignatureAlreadyPresent(k) => ErrorV::SignatureAlreadyPresent(k@),
            Error::KeyNotPresent(k) => ErrorV::KeyNotPresent(k@),
            Error::UserKeyNotPresent(u, k) => ErrorV::UserKeyNotPresent(u@, k@),
            Error::SignatureMissing => ErrorV::SignatureMissing,
            Error::SignatureVerificationFailed => ErrorV::SignatureVerificationFailed,
            Error::ResolutionFailed(b) => ErrorV::ResolutionFailed(b@),
        }
    }
}

/// Who a signature speaks for: one of the entity's own keys, or a
/// certifying identity.
#[derive(Debug)]
pub enum Signatory {
    /// A certifying identity, by its URN.
    User(RadicleUri),
    /// One of the entity's own keys.
    OwnedKey,
}

/// Mathematical model of a [`Signatory`].
pub enum SignatoryV {
    User(Seq<u8>),
    OwnedKey,
}

impl View for Signatory {
    type V = SignatoryV;

    open spec fn view(&self) -> SignatoryV {
        match self {
            Signatory::User(u) => SignatoryV::User(u@),
            Signatory::OwnedKey => SignatoryV::OwnedKey,
        }
    }
}

impl Signatory {
    pub fn clone_signatory(&self) -> (r: Self)
        ensures
            r@ == self@,
    {
        match self {
            Signatory::User(u) => Signatory::User(u.clone_uri()),
            Signatory::OwnedKey => Signatory::OwnedKey,
        }
    }
}

/// A signature over an entity's canonical bytes, with who it speaks for.
#[derive(Debug)]
pub struct EntitySignature {
    pub by: Signatory,
    pub sig: Signature,
}

/// Mathematical model of an [`EntitySignature`].
#[verifier::ext_equal]
pub struct EntitySignatureV {
    pub by: SignatoryV,
    pub sig: Seq<u8>,
}

impl View for EntitySignature {
    type V = EntitySignatureV;

    open spec fn view(&self) -> EntitySignatureV {
        EntitySignatureV { by: self.by@, sig: self.sig@ }
    }
}

/// The models of a list of keys.
pub open spec fn keyviews(s: Seq<PublicKey>) -> Seq<Seq<u8>> {
    s.map_values(|k: PublicKey| k@)
}

/// The models of a list of certifier URNs.
pub open spec fn uviews(s: Seq<RadicleUri>) -> Seq<Seq<u8>> {
    s.map_values(|u: RadicleUri| u@)
}

/// The models of a list of signature entries.
pub open spec fn sgviews(s: Seq<(PublicKey, EntitySignature)>) -> Seq<(Seq<u8>, EntitySignatureV)> {
    s.map_values(|p: (PublicKey, EntitySignature)| (p.0@, p.1@))
}

/// No two byte strings of the list are equal.
pub open spec fn distinct_seqs(s: Seq<Seq<u8>>) -> bool {
    forall|i: int, j: int| 0 <= i < j < s.len() ==> s[i] != s[j]
}

/// No two entries of the list share a key.
pub open spec fn distinct_firsts(s: Seq<(Seq<u8>, EntitySignatureV)>) -> bool {
    forall|i: int, j: int| 0 <= i < j < s.len() ==> s[i].0 != s[j].0
}

/// Whether some entry of the list has the key `k`.
pub open spec fn has_sig_key(s: Seq<(Seq<u8>, EntitySignatureV)>, k: Seq<u8>) -> bool {
    exists|i: int| 0 <= i < s.len() && s[i].0 == k
}

/// A content-addressed, multi-signed identity entity.
#[derive(Debug)]
pub struct Entity {
    name: Vec<u8>,
    revision: u64,
    hash: Vec<u8>,
    parent_hash: Option<Vec<u8>>,
    signatures: Vec<(PublicKey, EntitySignature)>,
    keys: Vec<PublicKey>,
    certifiers: Vec<RadicleUri>,
    info: Vec<u8>,
}

/// Mathematical model of an [`Entity`]. Keys, hashes and certifiers are
/// carried as their raw bytes.
#[verifier::ext_equal]
pub struct EntityV {
    pub name: Seq<u8>,
    pub revision: u64,
    pub hash: Seq<u8>,
    pub parent_hash: Option<Seq<u8>>,
    pub signatures: Seq<(Seq<u8>, EntitySignatureV)>,
    pub keys: Seq<Seq<u8>>,
    pub certifiers: Seq<Seq<u8>>,
    pub info: Seq<u8>,
}

impl View for Entity {
    type V = EntityV;

    closed spec fn view(&self) -> EntityV {
        EntityV {
            name: self.name@,
            revision: self.revision,
            hash: self.hash@,
            parent_hash: match &self.parent_hash {
                Some(p) => Some(p@),
                None => None,
            },
            signatures: sgviews(self.signatures@),
            keys: keyviews(self.keys@),
            certifiers: uviews(self.certifiers@),
            info: self.info@,
        }
    }
}

/// The base58 texts of a list of byte strings.
pub open spec fn enc_all(ks: Seq<Seq<u8>>) -> Seq<Seq<u8>> {
    ks.map_values(|k: Seq<u8>| b58_encoded(k))
}

/// The URN texts of a list of multihashes.
pub open spec fn uri_all(cs: Seq<Seq<u8>>) -> Seq<Seq<u8>> {
    cs.map_values(|c: Seq<u8>| uri_string_of(c))
}

/// The base58 text of an optional hash.
pub open spec fn opt_enc(p: Option<Seq<u8>>) -> Option<Seq<u8>> {
    match p {
        None => None,
        Some(h) => Some(b58_encoded(h)),
    }
}

impl EntityV {
    /// The canonical bytes of the entity's content: its raw form without
    /// hash and signatures.
    pub open spec fn canonical(self) -> Seq<u8> {
        canonical_of(
            self.name,
            self.revision,
            opt_enc(self.parent_hash),
            enc_all(self.keys),
            uri_all(self.certifiers),
            self.info,
        )
    }

    /// Well-formedness: the hash is the SHA-256 multihash of the canonical
    /// content, every hash in the entity is a well-formed multihash, and
    /// keys, certifiers and signatures are free of duplicates.
    pub open spec fn wf(self) -> bool {
        &&& self.hash == sha256_of(self.canonical())
        &&& mh_parses(self.hash)
        &&& (self.parent_hash matches Some(p) ==> mh_parses(p))
        &&& forall|i: int| 0 <= i < self.certifiers.len() ==> mh_parses(#[trigger] self.certifiers[i])
        &&& forall|i: int|
            0 <= i < self.signatures.len() ==> ((#[trigger] self.signatures[i]).1.by matches
            SignatoryV::User(h) ==> mh_parses(h))
        &&& distinct_seqs(self.keys)
        &&& distinct_seqs(self.certifiers)
        &&& distinct_firsts(self.signatures)
        &&& self.keys.len() > 0
    }
}

/// The signature entries of a raw form; an absent field means none.
pub open spec fn sig_entries(s: Option<Seq<(Seq<u8>, EntitySignatureDataV)>>) -> Seq<
    (Seq<u8>, EntitySignatureDataV),
> {
    match s {
        Some(v) => v,
        None => Seq::empty(),
    }
}

/// The field label an `InvalidData` error carries when the name is missing.
pub open spec fn label_name() -> Seq<u8> {
    seq![110u8, 97u8, 109u8, 101u8]
}

/// The field label when the revision is missing.
pub open spec fn label_revision() -> Seq<u8> {
    seq![114u8, 101u8, 118u8]
}

/// The field label when the key set is empty.
pub open spec fn label_keys() -> Seq<u8> {
    seq![107u8, 101u8, 121u8, 115u8]
}

/// Decoding of the key texts from `i` on, with the keys decoded so far:
/// the first text that is not base58, or decodes to a duplicate, fails.
pub open spec fn decode_keys_from(keys: Seq<Seq<u8>>, i: int, acc: Seq<Seq<u8>>) -> Result<
    Seq<Seq<u8>>,
    ErrorV,
>
    decreases keys.len() - i,
{
    if i < 0 || i >= keys.len() {
        Ok(acc)
    } else {
        match b58_decode(keys[i]) {
            None => Err(ErrorV::InvalidData(keys[i])),
            Some(k) => if acc.contains(k) {
                Err(ErrorV::InvalidData(keys[i]))
            } else {
                decode_keys_from(keys, i + 1, acc.push(k))
            },
        }
    }
}

/// Decoding of the certifier URN texts from `i` on.
pub open spec fn decode_certs_from(certs: Seq<Seq<u8>>, i: int, acc: Seq<Seq<u8>>) -> Result<
    Seq<Seq<u8>>,
    ErrorV,
>
    decreases certs.len() - i,
{
    if i < 0 || i >= certs.len() {
        Ok(acc)
    } else {
        match uri_parse(certs[i]) {
            None => Err(ErrorV::InvalidData(certs[i])),
            Some(h) => if acc.contains(h) {
                Err(ErrorV::InvalidData(certs[i]))
            } else {
                decode_certs_from(certs, i + 1, acc.push(h))
            },
        }
    }
}

/// Decoding of the signature entries from `i` on: the key text, the
/// optional certifier URN and the signature text must all decode, and no
/// key may sign twice.
pub open spec fn decode_sigs_from(
    sigs: Seq<(Seq<u8>, EntitySignatureDataV)>,
    i: int,
    acc: Seq<(Seq<u8>, EntitySignatureV)>,
) -> Result<Seq<(Seq<u8>, EntitySignatureV)>, ErrorV>
    decreases sigs.len() - i,
{
    if i < 0 || i >= sigs.len() {
        Ok(acc)
    } else {
        match b58_decode(sigs[i].0) {
            None => Err(ErrorV::InvalidData(sigs[i].0)),
            Some(k) => if has_sig_key(acc, k) {
                Err(ErrorV::InvalidData(sigs[i].0))
            } else {
                let byr = match sigs[i].1.user {
                    Some(ustr) => match uri_parse(ustr) {
                        None => Err(ErrorV::InvalidUri(ustr)),
                        Some(h) => Ok(SignatoryV::User(h)),
                    },
                    None => Ok(SignatoryV::OwnedKey),
                };
                match byr {
                    Err(e) => Err(e),
                    Ok(by) => match b58_decode(sigs[i].1.sig) {
                        None => Err(ErrorV::InvalidData(sigs[i].1.sig)),
                        Some(sg) => decode_sigs_from(
                            sigs,
                            i + 1,
                            acc.push((k, EntitySignatureV { by, sig: sg })),
                        ),
                    },
                }
            },
        }
    }
}

/// The check of a claimed hash text against the computed hash: absent is
/// fine, bad base58 fails as a buffer error, a malformed multihash or a
/// mismatch fails as a hash error.
pub open spec fn check_hash_spec(h: Option<Seq<u8>>, actual: Seq<u8>) -> Option<ErrorV> {
    match h {
        None => None,
        Some(s) => match b58_decode(s) {
            None => Some(ErrorV::InvalidBufferEncoding(s)),
            Some(b) => if !mh_parses(b) {
                Some(ErrorV::InvalidHash(s))
            } else if b != actual {
                Some(ErrorV::InvalidHash(s))
            } else {
                None
            },
        },
    }
}

/// The decoding of a claimed parent hash text.
pub open spec fn decode_parent_spec(p: Option<Seq<u8>>) -> Result<Option<Seq<u8>>, ErrorV> {
    match p {
        None => Ok(None),
        Some(s) => match b58_decode(s) {
            None => Err(ErrorV::InvalidBufferEncoding(s)),
            Some(b) => if !mh_parses(b) {
                Err(ErrorV::InvalidHash(s))
            } else {
                Ok(Some(b))
            },
        },
    }
}

/// What building an entity from its raw form returns, for every raw form:
/// the checks run in a fixed order, and on success every field of the
/// entity is pinned.
pub open spec fn from_data_spec(d: EntityDataV) -> Result<EntityV, ErrorV> {
    if d.name is None {
        Err(ErrorV::InvalidData(label_name()))
    } else if d.revision is None {
        Err(ErrorV::InvalidData(label_revision()))
    } else if d.keys.len() == 0 {
        Err(ErrorV::InvalidData(label_keys()))
    } else {
        match decode_keys_from(d.keys, 0, Seq::empty()) {
            Err(e) => Err(e),
            Ok(keys) => match decode_certs_from(d.certifiers, 0, Seq::empty()) {
                Err(e) => Err(e),
                Ok(certs) => match decode_sigs_from(sig_entries(d.signatures), 0, Seq::empty()) {
                    Err(e) => Err(e),
                    Ok(sigs) => {
                        let actual = sha256_of(d.canonical());
                        match check_hash_spec(d.hash, actual) {
                            Some(e) => Err(e),
                            None => match decode_parent_spec(d.parent_hash) {
                                Err(e) => Err(e),
                                Ok(ph) => Ok(
                                    EntityV {
                                        name: d.name->0,
                                        revision: d.revision->0,
                                        hash: actual,
                                        parent_hash: ph,
                                        signatures: sigs,
                                        keys,
                                        certifiers: certs,
                                        info: d.info,
                                    },
                                ),
                            },
                        }
                    },
                },
            },
        }
    }
}

/// The model of an entity-building result.
pub open spec fn eres_view(r: Result<Entity, Error>) -> Result<EntityV, ErrorV> {
    match r {
        Ok(e) => Ok(e@),
        Err(e) => Err(e@),
    }
}

fn mk_label_name() -> (r: Vec<u8>)
    ensures
        r@ == label_name(),
{
    let mut v: Vec<u8> = Vec::new();
    v.push(110);
    v.push(97);
    v.push(109);
    v.push(101);
    proof {
        assert(v@ =~= label_name());
    }
    v
}

fn mk_label_revision() -> (r: Vec<u8>)
    ensures
        r@ == label_revision(),
{
    let mut v: Vec<u8> = Vec::new();
    v.push(114);
    v.push(101);
    v.push(118);
    proof {
        assert(v@ =~= label_revision());
    }
    v
}

fn mk_label_keys() -> (r: Vec<u8>)
    ensures
        r@ == label_keys(),
{
    let mut v: Vec<u8> = Vec::new();
    v.push(107);
    v.push(101);
    v.push(121);
    v.push(115);
    proof {
        assert(v@ =~= label_keys());
    }
    v
}

/// Whether a list of keys holds one with bytes `x`.
fn key_list_contains(v: &Vec<PublicKey>, x: &Vec<u8>) -> (r: bool)
    ensures
        r == keyviews(v@).contains(x@),
{
    let mut i: usize = 0;
    while i < v.len()
        invariant
            i <= v.len(),
            forall|j: int| 0 <= j < i ==> keyviews(v@)[j] != x@,
        decreases v.len() - i,
    {
        if bytes_eq(&v[i].bytes, x) {
            assert(keyviews(v@)[i as int] == x@);
            return true;
        }
        i = i + 1;
    }
    proof {
        if keyviews(v@).contains(x@) {
            let j = choose|j: int| 0 <= j < keyviews(v@).len() && keyviews(v@)[j] == x@;
        }
    }
    false
}

/// Whether a list of certifier URNs holds one with hash `x`.
fn uri_list_contains(v: &Vec<RadicleUri>, x: &Vec<u8>) -> (r: bool)
    ensures
        r == uviews(v@).contains(x@),
{
    let mut i: usize = 0;
    while i < v.len()
        invariant
            i <= v.len(),
            forall|j: int| 0 <= j < i ==> uviews(v@)[j] != x@,
        decreases v.len() - i,
    {
        if bytes_eq(&v[i].hash, x) {
            assert(uviews(v@)[i as int] == x@);
            return true;
        }
        i = i + 1;
    }
    proof {
        if uviews(v@).contains(x@) {
            let j = choose|j: int| 0 <= j < uviews(v@).len() && uviews(v@)[j] == x@;
        }
    }
    false
}

impl Entity {
    /// Builds an entity from its raw form, pinning its hash to the content.
    /// Every check and every error is fixed by the raw form alone; on
    /// success the entity is well formed.
    #[verifier::loop_isolation(false)]
    pub fn from_data(data: EntityData) -> (r: Result<Entity, Error>)
        ensures
            eres_view(r) == from_data_spec(data@),
            r matches Ok(e) ==> e@.wf(),
    {
        let ghost dv = data@;
        let EntityData { name, revision, hash, parent_hash, signatures, keys, certifiers, info } =
            data;
        let name: Vec<u8> = match name {
            Some(n) => n,
            None => {
                return Err(Error::InvalidData(mk_label_name()));
            },
        };
        let revision: u64 = match revision {
            Some(r) => r,
            None => {
                return Err(Error::InvalidData(mk_label_revision()));
            },
        };
        if keys.len() == 0 {
            return Err(Error::InvalidData(mk_label_keys()));
        }
        // decode the keys
        let mut dkeys: Vec<PublicKey> = Vec::new();
        let mut i: usize = 0;
        proof {
            assert(keyviews(dkeys@) =~= Seq::<Seq<u8>>::empty());
        }
        while i < keys.len()
            invariant
                i <= keys.len(),
                dv.keys == bviews(keys@),
                dv.keys.len() == keys@.len(),
                forall|j: int| 0 <= j < keys@.len() ==> dv.keys[j] == keys@[j]@,
                keyviews(dkeys@).len() == i,
                decode_keys_from(dv.keys, 0, Seq::empty()) == decode_keys_from(
                    dv.keys,
                    i as int,
                    keyviews(dkeys@),
                ),
                forall|j: int|
                    0 <= j < i ==> b58_encoded(#[trigger] keyviews(dkeys@)[j]) == dv.keys[j],
                distinct_seqs(keyviews(dkeys@)),
            decreases keys.len() - i,
        {
            let ghost acc = keyviews(dkeys@);
            match PublicKey::from_bs58(&keys[i]) {
                None => {
                    proof {
                        assert(decode_keys_from(dv.keys, i as int, acc)
                            == Err::<Seq<Seq<u8>>, ErrorV>(ErrorV::InvalidData(dv.keys[i as int])));
                        assert(from_data_spec(dv) == Err::<EntityV, ErrorV>(
                            ErrorV::InvalidData(dv.keys[i as int]),
                        ));
                    }
                    return Err(Error::InvalidData(copy_bytes(&keys[i])));
                },
                Some(k) => {
                    if key_list_contains(&dkeys, &k.bytes) {
                        proof {
                            assert(decode_keys_from(dv.keys, i as int, acc)
                                == Err::<Seq<Seq<u8>>, ErrorV>(ErrorV::InvalidData(dv.keys[i as int])));
                            assert(from_data_spec(dv) == Err::<EntityV, ErrorV>(
                                ErrorV::InvalidData(dv.keys[i as int]),
                            ));
                        }
                        return Err(Error::InvalidData(copy_bytes(&keys[i])));
                    }
                    let ghost kv = k@;
                    dkeys.push(k);
                    proof {
                        assert(keyviews(dkeys@) =~= acc.push(kv));
                        assert(distinct_seqs(keyviews(dkeys@))) by {
                            assert forall|a: int, b: int|
                                0 <= a < b < keyviews(dkeys@).len() implies keyviews(dkeys@)[a]
                                != keyviews(dkeys@)[b] by {
                                if b == keyviews(dkeys@).len() - 1 {
                                    assert(acc.contains(acc[a]));
                                }
                            }
                        }
                    }
                },
            }
            i = i + 1;
        }
        let ghost speckeys = keyviews(dkeys@);
        // decode the certifiers
        let mut dcerts: Vec<RadicleUri> = Vec::new();
        let mut i: usize = 0;
        proof {
            assert(uviews(dcerts@) =~= Seq::<Seq<u8>>::empty());
        }
        while i < certifiers.len()
            invariant
                i <= certifiers.len(),
                dv.certifiers == bviews(certifiers@),
                dv.certifiers.len() == certifiers@.len(),
                forall|j: int| 0 <= j < certifiers@.len() ==> dv.certifiers[j] == certifiers@[j]@,
                uviews(dcerts@).len() == i,
                decode_certs_from(dv.certifiers, 0, Seq::empty()) == decode_certs_from(
                    dv.certifiers,
                    i as int,
                    uviews(dcerts@),
                ),
                forall|j: int|
                    0 <= j < i ==> uri_string_of(#[trigger] uviews(dcerts@)[j])
                        == dv.certifiers[j],
                forall|j: int| 0 <= j < i ==> mh_parses(#[trigger] uviews(dcerts@)[j]),
                distinct_seqs(uviews(dcerts@)),
            decreases certifiers.len() - i,
        {
            let ghost acc = uviews(dcerts@);
            match RadicleUri::from_str_bytes(&certifiers[i]) {
                None => {
                    proof {
                        assert(decode_certs_from(dv.certifiers, i as int, acc)
                            == Err::<Seq<Seq<u8>>, ErrorV>(
                            ErrorV::InvalidData(dv.certifiers[i as int]),
                        ));
                        assert(from_data_spec(dv) == Err::<EntityV, ErrorV>(
                            ErrorV::InvalidData(dv.certifiers[i as int]),
                        ));
                    }
                    return Err(Error::InvalidData(copy_bytes(&certifiers[i])));
                },
                Some(u) => {
                    if uri_list_contains(&dcerts, &u.hash) {
                        proof {
                            assert(decode_certs_from(dv.certifiers, i as int, acc)
                                == Err::<Seq<Seq<u8>>, ErrorV>(
                                ErrorV::InvalidData(dv.certifiers[i as int]),
                            ));
                            assert(from_data_spec(dv) == Err::<EntityV, ErrorV>(
                                ErrorV::InvalidData(dv.certifiers[i as int]),
                            ));
                        }
                        return Err(Error::InvalidData(copy_bytes(&certifiers[i])));
                    }
                    let ghost uv = u@;
                    dcerts.push(u);
                    proof {
                        assert(uviews(dcerts@) =~= acc.push(uv));
                        assert(distinct_seqs(uviews(dcerts@))) by {
                            assert forall|a: int, b: int|
                                0 <= a < b < uviews(dcerts@).len() implies uviews(dcerts@)[a]
                                != uviews(dcerts@)[b] by {
                                if b == uviews(dcerts@).len() - 1 {
                                    assert(acc.contains(acc[a]));
                                }
                            }
                        }
                    }
                },
            }
            i = i + 1;
        }
        let ghost speccerts = uviews(dcerts@);
        // decode the signatures
        let sigs_vec: Vec<(Vec<u8>, EntitySignatureData)> = match signatures {
            Some(s) => s,
            None => Vec::new(),
        };
        let ghost sde = sig_entries(dv.signatures);
        proof {
            if dv.signatures is None {
                assert(sdviews(sigs_vec@) =~= sde);
            }
        }
        let mut dsigs: Vec<(PublicKey, EntitySignature)> = Vec::new();
        let mut i: usize = 0;
        proof {
            assert(sgviews(dsigs@) =~= Seq::<(Seq<u8>, EntitySignatureV)>::empty());
        }
        while i < sigs_vec.len()
            invariant
                i <= sigs_vec.len(),
                sde == sdviews(sigs_vec@),
                sde.len() == sigs_vec@.len(),
                forall|j: int|
                    0 <= j < sigs_vec@.len() ==> #[trigger] sde[j] == (
                    sigs_vec@[j].0@,
                    sigs_vec@[j].1@,
                ),
                sgviews(dsigs@).len() == i,
                decode_sigs_from(sde, 0, Seq::empty()) == decode_sigs_from(
                    sde,
                    i as int,
                    sgviews(dsigs@),
                ),
                forall|j: int|
                    0 <= j < i ==> ((#[trigger] sgviews(dsigs@)[j]).1.by matches SignatoryV::User(
                        h,
                    ) ==> mh_parses(h)),
                distinct_firsts(sgviews(dsigs@)),
            decreases sigs_vec.len() - i,
        {
            let ghost acc = sgviews(dsigs@);
            let k = match PublicKey::from_bs58(&sigs_vec[i].0) {
                None => {
                    proof {
                        assert(decode_sigs_from(sde, i as int, acc)
                            == Err::<Seq<(Seq<u8>, EntitySignatureV)>, ErrorV>(
                            ErrorV::InvalidData(sde[i as int].0),
                        ));
                        assert(from_data_spec(dv) == Err::<EntityV, ErrorV>(
                            ErrorV::InvalidData(sde[i as int].0),
                        ));
                    }
                    return Err(Error::InvalidData(copy_bytes(&sigs_vec[i].0)));
                },
                Some(k) => k,
            };
            if sig_list_has_key(&dsigs, &k.bytes) {
                proof {
                    assert(decode_sigs_from(sde, i as int, acc)
                        == Err::<Seq<(Seq<u8>, EntitySignatureV)>, ErrorV>(
                        ErrorV::InvalidData(sde[i as int].0),
                    ));
                    assert(from_data_spec(dv) == Err::<EntityV, ErrorV>(
                        ErrorV::InvalidData(sde[i as int].0),
                    ));
                }
                return Err(Error::InvalidData(copy_bytes(&sigs_vec[i].0)));
            }
            let by = match &sigs_vec[i].1.user {
                Some(ustr) => match RadicleUri::from_str_bytes(ustr) {
                    None => {
                        proof {
                            assert(sde[i as int].1.user == Some(ustr@));
                            assert(decode_sigs_from(sde, i as int, acc)
                                == Err::<Seq<(Seq<u8>, EntitySignatureV)>, ErrorV>(
                                ErrorV::InvalidUri(ustr@),
                            ));
                            assert(from_data_spec(dv) == Err::<EntityV, ErrorV>(
                                ErrorV::InvalidUri(ustr@),
                            ));
                        }
                        return Err(Error::InvalidUri(copy_bytes(ustr)));
                    },
                    Some(u) => Signatory::User(u),
                },
                None => Signatory::OwnedKey,
            };
            let sg = match Signature::from_bs58(&sigs_vec[i].1.sig) {
                None => {
                    proof {
                        assert(sde[i as int].1.sig == sigs_vec@[i as int].1.sig@);
                        assert(decode_sigs_from(sde, i as int, acc)
                            == Err::<Seq<(Seq<u8>, EntitySignatureV)>, ErrorV>(
                            ErrorV::InvalidData(sde[i as int].1.sig),
                        ));
                        assert(from_data_spec(dv) == Err::<EntityV, ErrorV>(
                            ErrorV::InvalidData(sde[i as int].1.sig),
                        ));
                    }
                    return Err(Error::InvalidData(copy_bytes(&sigs_vec[i].1.sig)));
                },
                Some(s) => s,
            };
            let ghost kv = k@;
            let ghost entry = (kv, EntitySignatureV { by: by@, sig: sg@ });
            dsigs.push((k, EntitySignature { by, sig: sg }));
            proof {
                assert(sgviews(dsigs@) =~= acc.push(entry));
                assert(distinct_firsts(sgviews(dsigs@))) by {
                    assert forall|a: int, b: int|
                        0 <= a < b < sgviews(dsigs@).len() implies sgviews(dsigs@)[a].0 != sgviews(
                        dsigs@,
                    )[b].0 by {
                        if b == sgviews(dsigs@).len() - 1 {
                            if acc[a].0 == kv {
                                assert(has_sig_key(acc, kv));
                            }
                        }
                    }
                }
            }
            i = i + 1;
        }
        let ghost specsigs = sgviews(dsigs@);
        // pin the hash to the canonical content
        let canon = canonical_bytes(&name, revision, &parent_hash, &keys, &certifiers, &info);
        let actual = crate::codec::sha2_256_digest(&canon);
        proof {
            assert(canon@ == dv.canonical());
        }
        match &hash {
            None => {},
            Some(s) => {
                match crate::codec::b58_decode_bytes(s) {
                    None => {
                        proof {
                            assert(from_data_spec(dv) == Err::<EntityV, ErrorV>(
                                ErrorV::InvalidBufferEncoding(s@),
                            ));
                        }
                        return Err(Error::InvalidBufferEncoding(copy_bytes(s)));
                    },
                    Some(b) => {
                        if !multihash_parses(&b) {
                            proof {
                                assert(from_data_spec(dv) == Err::<EntityV, ErrorV>(
                                    ErrorV::InvalidHash(s@),
                                ));
                            }
                            return Err(Error::InvalidHash(copy_bytes(s)));
                        }
                        if !bytes_eq(&b, &actual) {
                            proof {
                                assert(from_data_spec(dv) == Err::<EntityV, ErrorV>(
                                    ErrorV::InvalidHash(s@),
                                ));
                            }
                            return Err(Error::InvalidHash(copy_bytes(s)));
                        }
                    },
                }
            },
        }
        let ph: Option<Vec<u8>> = match &parent_hash {
            None => None,
            Some(s) => {
                match crate::codec::b58_decode_bytes(s) {
                    None => {
                        proof {
                            assert(from_data_spec(dv) == Err::<EntityV, ErrorV>(
                                ErrorV::InvalidBufferEncoding(s@),
                            ));
                        }
                        return Err(Error::InvalidBufferEncoding(copy_bytes(s)));
                    },
                    Some(b) => {
                        if !multihash_parses(&b) {
                            proof {
                                assert(from_data_spec(dv) == Err::<EntityV, ErrorV>(
                                    ErrorV::InvalidHash(s@),
                                ));
                            }
                            return Err(Error::InvalidHash(copy_bytes(s)));
                        }
                        Some(b)
                    },
                }
            },
        };
        let e = Entity {
            name,
            revision,
            hash: actual,
            parent_hash: ph,
            signatures: dsigs,
            keys: dkeys,
            certifiers: dcerts,
            info,
        };
        proof {
            assert(e@ =~= from_data_spec(dv)->Ok_0);
            assert(eres_view(Ok(e)) == from_data_spec(dv));
            // well-formedness: the canonical bytes of the entity equal those
            // of the raw form, since every stored value re-encodes to its text
            assert(enc_all(e@.keys) =~= dv.keys);
            assert(uri_all(e@.certifiers) =~= dv.certifiers);
            assert(opt_enc(e@.parent_hash) == dv.parent_hash);
            assert(e@.canonical() == dv.canonical());
        }
        Ok(e)
    }
}

/// The raw signature entry an entity's signature serializes to.
pub open spec fn sig_data_of(sv: (Seq<u8>, EntitySignatureV)) -> (Seq<u8>, EntitySignatureDataV) {
    (
        b58_encoded(sv.0),
        EntitySignatureDataV {
            user: match sv.1.by {
                SignatoryV::User(h) => Some(uri_string_of(h)),
                SignatoryV::OwnedKey => None,
            },
            sig: b58_encoded(sv.1.sig),
        },
    )
}

/// How an entity's raw form relates to the entity: every field is the
/// encoding of the entity's, and every encoded text decodes back to the
/// value it came from.
pub open spec fn data_of_entity(e: EntityV, d: EntityDataV) -> bool {
    &&& d.name == Some(e.name)
    &&& d.revision == Some(e.revision)
    &&& d.hash == Some(b58_encoded(e.hash))
    &&& b58_decode(b58_encoded(e.hash)) == Some(e.hash)
    &&& d.parent_hash == opt_enc(e.parent_hash)
    &&& (e.parent_hash matches Some(p) ==> b58_decode(b58_encoded(p)) == Some(p))
    &&& d.keys == enc_all(e.keys)
    &&& (forall|i: int|
        0 <= i < e.keys.len() ==> b58_decode(b58_encoded(#[trigger] e.keys[i])) == Some(e.keys[i]))
    &&& d.certifiers == uri_all(e.certifiers)
    &&& (forall|i: int|
        0 <= i < e.certifiers.len() ==> b58_decode(b58_encoded(#[trigger] e.certifiers[i]))
            == Some(e.certifiers[i]))
    &&& d.signatures == Some(e.signatures.map_values(|sv: (Seq<u8>, EntitySignatureV)| sig_data_of(sv)))
    &&& (forall|i: int|
        0 <= i < e.signatures.len() ==> b58_decode(
            b58_encoded((#[trigger] e.signatures[i]).0),
        ) == Some(e.signatures[i].0))
    &&& (forall|i: int|
        0 <= i < e.signatures.len() ==> b58_decode(
            b58_encoded((#[trigger] e.signatures[i]).1.sig),
        ) == Some(e.signatures[i].1.sig))
    &&& (forall|i: int|
        0 <= i < e.signatures.len() ==> ((#[trigger] e.signatures[i]).1.by matches
        SignatoryV::User(h) ==> b58_decode(b58_encoded(h)) == Some(h)))
    &&& d.info == e.info
}

impl Entity {
    /// Serializes the entity back to its raw form: every value becomes its
    /// base58 or URN text.
    #[verifier::loop_isolation(false)]
    pub fn to_data(&self) -> (d: EntityData)
        ensures
            data_of_entity(self@, d@),
    {
        let ghost ev = self@;
        // keys
        let mut keys: Vec<Vec<u8>> = Vec::new();
        let mut i: usize = 0;
        proof {
            assert(bviews(keys@) =~= Seq::<Seq<u8>>::empty());
        }
        while i < self.keys.len()
            invariant
                i <= self.keys.len(),
                bviews(keys@).len() == i,
                forall|j: int|
                    0 <= j < i ==> #[trigger] bviews(keys@)[j] == b58_encoded(ev.keys[j]),
                forall|j: int|
                    0 <= j < i ==> b58_decode(b58_encoded(#[trigger] ev.keys[j])) == Some(
                        ev.keys[j],
                    ),
            decreases self.keys.len() - i,
        {
            let ghost kb = bviews(keys@);
            keys.push(self.keys[i].to_bs58());
            proof {
                assert(bviews(keys@) =~= kb.push(b58_encoded(ev.keys[i as int])));
            }
            i = i + 1;
        }
        // certifiers
        let mut certifiers: Vec<Vec<u8>> = Vec::new();
        let mut i: usize = 0;
        proof {
            assert(bviews(certifiers@) =~= Seq::<Seq<u8>>::empty());
        }
        while i < self.certifiers.len()
            invariant
                i <= self.certifiers.len(),
                bviews(certifiers@).len() == i,
                forall|j: int|
                    0 <= j < i ==> #[trigger] bviews(certifiers@)[j] == uri_string_of(
                        ev.certifiers[j],
                    ),
                forall|j: int|
                    0 <= j < i ==> b58_decode(b58_encoded(#[trigger] ev.certifiers[j])) == Some(
                        ev.certifiers[j],
                    ),
            decreases self.certifiers.len() - i,
        {
            let ghost cb = bviews(certifiers@);
            certifiers.push(self.certifiers[i].to_string_bytes());
            proof {
                assert(bviews(certifiers@) =~= cb.push(uri_string_of(ev.certifiers[i as int])));
            }
            i = i + 1;
        }
        // signatures
        let mut sigs: Vec<(Vec<u8>, EntitySignatureData)> = Vec::new();
        let mut i: usize = 0;
        let ghost target = ev.signatures.map_values(
            |sv: (Seq<u8>, EntitySignatureV)| sig_data_of(sv),
        );
        proof {
            assert(sdviews(sigs@) =~= target.take(0));
        }
        while i < self.signatures.len()
            invariant
                i <= self.signatures.len(),
                sdviews(sigs@) == target.take(i as int),
                forall|j: int|
                    0 <= j < i ==> b58_decode(b58_encoded((#[trigger] ev.signatures[j]).0))
                        == Some(ev.signatures[j].0),
                forall|j: int|
                    0 <= j < i ==> b58_decode(b58_encoded((#[trigger] ev.signatures[j]).1.sig))
                        == Some(ev.signatures[j].1.sig),
                forall|j: int|
                    0 <= j < i ==> ((#[trigger] ev.signatures[j]).1.by matches SignatoryV::User(h)
                        ==> b58_decode(b58_encoded(h)) == Some(h)),
            decreases self.signatures.len() - i,
        {
            let ghost sb = sdviews(sigs@);
            let kstr = self.signatures[i].0.to_bs58();
            let user: Option<Vec<u8>> = match &self.signatures[i].1.by {
                Signatory::User(u) => Some(u.to_string_bytes()),
                Signatory::OwnedKey => None,
            };
            let sigstr = self.signatures[i].1.sig.to_bs58();
            sigs.push((kstr, EntitySignatureData { user, sig: sigstr }));
            proof {
                assert(sdviews(sigs@) =~= sb.push(sig_data_of(ev.signatures[i as int])));
                assert(target.take(i + 1) =~= target.take(i as int).push(target[i as int]));
            }
            i = i + 1;
        }
        proof {
            assert(target.take(target.len() as int) =~= target);
        }
        let hash_text = crate::codec::b58_encode(&self.hash);
        let parent_text: Option<Vec<u8>> = match &self.parent_hash {
            Some(p) => Some(crate::codec::b58_encode(p)),
            None => None,
        };
        let d = EntityData {
            name: Some(copy_bytes(&self.name)),
            revision: Some(self.revision),
            hash: Some(hash_text),
            parent_hash: parent_text,
            signatures: Some(sigs),
            keys,
            certifiers,
            info: copy_bytes(&self.info),
        };
        proof {
            assert(bviews(d.keys@) =~= enc_all(ev.keys));
            assert(bviews(d.certifiers@) =~= uri_all(ev.certifiers));
        }
        d
    }

    /// The raw form ready for a successor revision: without hash and
    /// signatures.
    pub fn to_builder(&self) -> (d: EntityData)
        ensures
            d@.name == Some(self@.name),
            d@.revision == Some(self@.revision),
            d@.hash is None,
            d@.signatures is None,
            d@.keys == enc_all(self@.keys),
            d@.certifiers == uri_all(self@.certifiers),
            d@.parent_hash == opt_enc(self@.parent_hash),
            d@.info == self@.info,
    {
        self.to_data().clear_hash().clear_signatures()
    }
}

/// Building an entity back from its serialized raw form gives the entity
/// itself: the decode of each phase undoes the encode, and the recomputed
/// hash is the stored one.
pub proof fn lemma_entity_round_trip(e: EntityV, d: EntityDataV)
    requires
        e.wf(),
        data_of_entity(e, d),
    ensures
        from_data_spec(d) == Ok::<EntityV, ErrorV>(e),
{
    assert(d.keys.len() == e.keys.len());
    assert(e.keys.take(0) =~= Seq::<Seq<u8>>::empty());
    assert(e.certifiers.take(0) =~= Seq::<Seq<u8>>::empty());
    assert(e.signatures.take(0) =~= Seq::<(Seq<u8>, EntitySignatureV)>::empty());
    lemma_decode_keys_rt(d.keys, e.keys, 0);
    lemma_decode_certs_rt(d.certifiers, e.certifiers, 0);
    let sd = sig_entries(d.signatures);
    assert(sd == e.signatures.map_values(|sv: (Seq<u8>, EntitySignatureV)| sig_data_of(sv)));
    lemma_decode_sigs_rt(sd, e.signatures, 0);
    assert(d.canonical() == e.canonical());
    let actual = sha256_of(d.canonical());
    assert(actual == e.hash);
    assert(check_hash_spec(d.hash, actual) is None);
    match e.parent_hash {
        None => {
            assert(decode_parent_spec(d.parent_hash) == Ok::<Option<Seq<u8>>, ErrorV>(None));
        },
        Some(p) => {
            assert(decode_parent_spec(d.parent_hash) == Ok::<Option<Seq<u8>>, ErrorV>(Some(p)));
        },
    }
    assert(from_data_spec(d)->Ok_0 =~= e);
}

proof fn lemma_decode_keys_rt(strs: Seq<Seq<u8>>, vals: Seq<Seq<u8>>, i: int)
    requires
        strs.len() == vals.len(),
        strs == enc_all(vals),
        forall|j: int| 0 <= j < vals.len() ==> b58_decode(b58_encoded(#[trigger] vals[j])) == Some(vals[j]),
        distinct_seqs(vals),
        0 <= i <= vals.len(),
    ensures
        decode_keys_from(strs, i, vals.take(i)) == Ok::<Seq<Seq<u8>>, ErrorV>(vals),
    decreases vals.len() - i,
{
    if i == vals.len() {
        assert(vals.take(i) =~= vals);
    } else {
        assert(strs[i] == b58_encoded(vals[i]));
        assert(b58_decode(strs[i]) == Some(vals[i]));
        assert(!vals.take(i).contains(vals[i])) by {
            if vals.take(i).contains(vals[i]) {
                let j = choose|j: int| 0 <= j < i && vals.take(i)[j] == vals[i];
                assert(vals[j] == vals[i]);
            }
        }
        assert(vals.take(i).push(vals[i]) =~= vals.take(i + 1));
        lemma_decode_keys_rt(strs, vals, i + 1);
    }
}

proof fn lemma_decode_certs_rt(strs: Seq<Seq<u8>>, vals: Seq<Seq<u8>>, i: int)
    requires
        strs.len() == vals.len(),
        strs == uri_all(vals),
        forall|j: int| 0 <= j < vals.len() ==> b58_decode(b58_encoded(#[trigger] vals[j])) == Some(vals[j]),
        forall|j: int| 0 <= j < vals.len() ==> mh_parses(#[trigger] vals[j]),
        distinct_seqs(vals),
        0 <= i <= vals.len(),
    ensures
        decode_certs_from(strs, i, vals.take(i)) == Ok::<Seq<Seq<u8>>, ErrorV>(vals),
    decreases vals.len() - i,
{
    if i == vals.len() {
        assert(vals.take(i) =~= vals);
    } else {
        assert(strs[i] == uri_string_of(vals[i]));
        lemma_uri_parse_of_string(vals[i]);
        assert(!vals.take(i).contains(vals[i])) by {
            if vals.take(i).contains(vals[i]) {
                let j = choose|j: int| 0 <= j < i && vals.take(i)[j] == vals[i];
                assert(vals[j] == vals[i]);
            }
        }
        assert(vals.take(i).push(vals[i]) =~= vals.take(i + 1));
        lemma_decode_certs_rt(strs, vals, i + 1);
    }
}

/// A URN text built from a hash parses back to the hash, given the decode
/// of its base58 part undoes the encode.
pub proof fn lemma_uri_parse_of_string(h: Seq<u8>)
    requires
        b58_decode(b58_encoded(h)) == Some(h),
        mh_parses(h),
    ensures
        uri_parse(uri_string_of(h)) == Some(h),
{
    let s = uri_string_of(h);
    assert(s.len() >= 4);
    assert(s.take(4) =~= crate::uri::uri_prefix());
    assert(s.skip(4) =~= b58_encoded(h));
}

proof fn lemma_decode_sigs_rt(
    strs: Seq<(Seq<u8>, EntitySignatureDataV)>,
    vals: Seq<(Seq<u8>, EntitySignatureV)>,
    i: int,
)
    requires
        strs == vals.map_values(|sv: (Seq<u8>, EntitySignatureV)| sig_data_of(sv)),
        forall|j: int|
            0 <= j < vals.len() ==> b58_decode(b58_encoded((#[trigger] vals[j]).0)) == Some(
                vals[j].0,
            ),
        forall|j: int|
            0 <= j < vals.len() ==> b58_decode(b58_encoded((#[trigger] vals[j]).1.sig)) == Some(
                vals[j].1.sig,
            ),
        forall|j: int|
            0 <= j < vals.len() ==> ((#[trigger] vals[j]).1.by matches SignatoryV::User(h)
                ==> b58_decode(b58_encoded(h)) == Some(h) && mh_parses(h)),
        distinct_firsts(vals),
        0 <= i <= vals.len(),
    ensures
        decode_sigs_from(strs, i, vals.take(i)) == Ok::<Seq<(Seq<u8>, EntitySignatureV)>, ErrorV>(
            vals,
        ),
    decreases vals.len() - i,
{
    if i == vals.len() {
        assert(vals.take(i) =~= vals);
    } else {
        assert(strs[i] == sig_data_of(vals[i]));
        assert(b58_decode(strs[i].0) == Some(vals[i].0));
        assert(!has_sig_key(vals.take(i), vals[i].0)) by {
            if has_sig_key(vals.take(i), vals[i].0) {
                let j = choose|j: int| 0 <= j < i && vals.take(i)[j].0 == vals[i].0;
                assert(vals[j].0 == vals[i].0);
            }
        }
        match vals[i].1.by {
            SignatoryV::User(h) => {
                lemma_uri_parse_of_string(h);
            },
            SignatoryV::OwnedKey => {},
        }
        assert(vals.take(i).push((vals[i].0, EntitySignatureV { by: vals[i].1.by, sig: vals[i].1.sig }))
            =~= vals.take(i + 1));
        lemma_decode_sigs_rt(strs, vals, i + 1);
    }
}

/// What can make one revision an invalid successor of another.
#[derive(Clone, Copy, Debug, PartialEq, Eq, Structural)]
pub enum UpdateVerificationError {
    /// The revision number does not grow.
    NonMonotonicRevision,
    /// The parent hash is absent or is not the previous revision's hash.
    WrongParentHash,
    /// More than half of the previous keys or certifiers were removed.
    NoPreviousQuorum,
    /// More than half of the next keys or certifiers are new.
    NoCurrentQuorum,
}

/// How many entries of `cur` also stand in `prev`.
pub open spec fn retained_count(cur: Seq<Seq<u8>>, prev: Seq<Seq<u8>>) -> int
    decreases cur.len(),
{
    if cur.len() == 0 {
        0
    } else {
        retained_count(cur.drop_last(), prev) + if prev.contains(cur.last()) {
            1int
        } else {
            0int
        }
    }
}

/// What checking a successor revision returns: the revision must grow, the
/// parent hash must be the previous hash, and on both the keys and the
/// certifiers no more than half of the next set may be new and no more than
/// half of the previous set may be gone.
pub open spec fn check_update_spec(cur: EntityV, prev: EntityV) -> Result<
    (),
    UpdateVerificationError,
> {
    if cur.revision <= prev.revision {
        Err(UpdateVerificationError::NonMonotonicRevision)
    } else if cur.parent_hash != Some(prev.hash) {
        Err(UpdateVerificationError::WrongParentHash)
    } else {
        let rk = retained_count(cur.keys, prev.keys);
        let added_k = cur.keys.len() - rk;
        let removed_k = prev.keys.len() - rk;
        let qk = cur.keys.len() as int / 2;
        if added_k > qk {
            Err(UpdateVerificationError::NoCurrentQuorum)
        } else if removed_k > qk {
            Err(UpdateVerificationError::NoPreviousQuorum)
        } else {
            let rc = retained_count(cur.certifiers, prev.certifiers);
            let added_c = cur.certifiers.len() - rc;
            let removed_c = prev.certifiers.len() - rc;
            let qc = cur.certifiers.len() as int / 2;
            if added_c > qc {
                Err(UpdateVerificationError::NoCurrentQuorum)
            } else if removed_c > qc {
                Err(UpdateVerificationError::NoPreviousQuorum)
            } else {
                Ok(())
            }
        }
    }
}

/// The quorum law, on the added side: when, the revision and parent checks
/// passing, more than half of the next key set is new, the update fails
/// for want of a current quorum.
pub proof fn lemma_quorum_added(cur: EntityV, prev: EntityV)
    requires
        cur.revision > prev.revision,
        cur.parent_hash == Some(prev.hash),
        cur.keys.len() - retained_count(cur.keys, prev.keys) > cur.keys.len() as int / 2,
    ensures
        check_update_spec(cur, prev) == Err::<(), UpdateVerificationError>(
            UpdateVerificationError::NoCurrentQuorum,
        ),
{
}

/// The quorum law, on the removed side: when more than half of the previous
/// key set is gone (and no current-quorum failure precedes it), the update
/// fails for want of a previous quorum.
pub proof fn lemma_quorum_removed(cur: EntityV, prev: EntityV)
    requires
        cur.revision > prev.revision,
        cur.parent_hash == Some(prev.hash),
        cur.keys.len() - retained_count(cur.keys, prev.keys) <= cur.keys.len() as int / 2,
        prev.keys.len() - retained_count(cur.keys, prev.keys) > cur.keys.len() as int / 2,
    ensures
        check_update_spec(cur, prev) == Err::<(), UpdateVerificationError>(
            UpdateVerificationError::NoPreviousQuorum,
        ),
{
}

/// The quorum law on the certifiers, added side: with the revision, parent
/// and key checks passing, more than half new certifiers fail the update
/// for want of a current quorum.
pub proof fn lemma_quorum_added_certifiers(cur: EntityV, prev: EntityV)
    requires
        cur.revision > prev.revision,
        cur.parent_hash == Some(prev.hash),
        cur.keys.len() - retained_count(cur.keys, prev.keys) <= cur.keys.len() as int / 2,
        prev.keys.len() - retained_count(cur.keys, prev.keys) <= cur.keys.len() as int / 2,
        cur.certifiers.len() - retained_count(cur.certifiers, prev.certifiers)
            > cur.certifiers.len() as int / 2,
    ensures
        check_update_spec(cur, prev) == Err::<(), UpdateVerificationError>(
            UpdateVerificationError::NoCurrentQuorum,
        ),
{
}

/// The quorum law on the certifiers, removed side.
pub proof fn lemma_quorum_removed_certifiers(cur: EntityV, prev: EntityV)
    requires
        cur.revision > prev.revision,
        cur.parent_hash == Some(prev.hash),
        cur.keys.len() - retained_count(cur.keys, prev.keys) <= cur.keys.len() as int / 2,
        prev.keys.len() - retained_count(cur.keys, prev.keys) <= cur.keys.len() as int / 2,
        cur.certifiers.len() - retained_count(cur.certifiers, prev.certifiers)
            <= cur.certifiers.len() as int / 2,
        prev.certifiers.len() - retained_count(cur.certifiers, prev.certifiers)
            > cur.certifiers.len() as int / 2,
    ensures
        check_update_spec(cur, prev) == Err::<(), UpdateVerificationError>(
            UpdateVerificationError::NoPreviousQuorum,
        ),
{
}

/// The monotonicity law: a successful update strictly grows the revision.
pub proof fn lemma_update_monotonic(cur: EntityV, prev: EntityV)
    requires
        check_update_spec(cur, prev) is Ok,
    ensures
        cur.revision > prev.revision,
{
}

/// Counts the entries of `cur` (here: key or certifier byte strings) that
/// also stand in `prev`.
fn count_retained(cur: &Vec<Vec<u8>>, prev: &Vec<Vec<u8>>) -> (r: usize)
    ensures
        r == retained_count(bviews(cur@), bviews(prev@)),
        r <= cur@.len(),
    decreases cur.len(),
{
    let ghost cv = bviews(cur@);
    let ghost pv = bviews(prev@);
    let mut count: usize = 0;
    let mut i: usize = 0;
    proof {
        assert(cv.take(0) =~= Seq::<Seq<u8>>::empty());
    }
    while i < cur.len()
        invariant
            i <= cur.len(),
            cv == bviews(cur@),
            pv == bviews(prev@),
            cv.len() == cur@.len(),
            forall|j: int| 0 <= j < cv.len() ==> cv[j] == cur@[j]@,
            count <= i,
            count == retained_count(cv.take(i as int), pv),
        decreases cur.len() - i,
    {
        proof {
            assert(cv.take(i + 1).drop_last() =~= cv.take(i as int));
            assert(cv.take(i + 1).last() == cv[i as int]);
        }
        if bytes_list_contains(prev, &cur[i]) {
            count = count + 1;
        }
        i = i + 1;
    }
    proof {
        assert(cv.take(cv.len() as int) =~= cv);
    }
    count
}

/// A table of resolved certifying identities, keyed by the hash their URN
/// carries. It stands for the asynchronous lookup the surrounding program
/// performs: the caller fills it before verification.
pub struct Resolver {
    entries: Vec<(RadicleUri, Entity)>,
}

/// The first identity a table holds for the hash `h`.
pub open spec fn resolve_spec(t: Seq<(Seq<u8>, EntityV)>, h: Seq<u8>) -> Option<EntityV>
    decreases t.len(),
{
    if t.len() == 0 {
        None
    } else if t[0].0 == h {
        Some(t[0].1)
    } else {
        resolve_spec(t.drop_first(), h)
    }
}

impl View for Resolver {
    type V = Seq<(Seq<u8>, EntityV)>;

    closed spec fn view(&self) -> Seq<(Seq<u8>, EntityV)> {
        self.entries@.map_values(|p: (RadicleUri, Entity)| (p.0@, p.1@))
    }
}

impl Resolver {
    /// An empty table.
    pub fn new() -> (r: Resolver)
        ensures
            r@ == Seq::<(Seq<u8>, EntityV)>::empty(),
    {
        let r = Resolver { entries: Vec::new() };
        proof {
            assert(r@ =~= Seq::<(Seq<u8>, EntityV)>::empty());
        }
        r
    }

    /// Records an identity under its URN.
    pub fn add(&mut self, uri: RadicleUri, user: Entity)
        ensures
            final(self)@ == old(self)@.push((uri@, user@)),
    {
        let ghost pre = self@;
        let ghost entry = (uri@, user@);
        self.entries.push((uri, user));
        proof {
            assert(self@ =~= pre.push(entry));
        }
    }

    /// Looks an identity up; fails exactly when the table holds none.
    #[verifier::loop_isolation(false)]
    pub fn resolve(&self, uri: &RadicleUri) -> (r: Result<&Entity, Error>)
        ensures
            match r {
                Ok(u) => resolve_spec(self@, uri@) == Some(u@),
                Err(e) => resolve_spec(self@, uri@) is None && e@ == ErrorV::ResolutionFailed(
                    uri_string_of(uri@),
                ),
            },
    {
        let ghost tv = self@;
        let mut i: usize = 0;
        proof {
            assert(tv.skip(0) =~= tv);
        }
        while i < self.entries.len()
            invariant
                i <= self.entries.len(),
                resolve_spec(tv, uri@) == resolve_spec(tv.skip(i as int), uri@),
            decreases self.entries.len() - i,
        {
            proof {
                assert(tv.skip(i as int).len() > 0);
                assert(tv.skip(i as int)[0] == tv[i as int]);
                assert(tv.skip(i as int).drop_first() =~= tv.skip(i as int + 1));
            }
            if bytes_eq(&self.entries[i].0.hash, &uri.hash) {
                return Ok(&self.entries[i].1);
            }
            i = i + 1;
        }
        proof {
            assert(tv.skip(tv.len() as int) =~= Seq::<(Seq<u8>, EntityV)>::empty());
        }
        Err(Error::ResolutionFailed(uri.to_string_bytes()))
    }
}

/// What checking that `key` may sign as `by` returns: an owned key must be
/// one of the entity's keys; a certifier's key must be a key of the
/// resolved identity.
pub open spec fn check_key_spec(e: EntityV, key: Seq<u8>, by: SignatoryV, t: Seq<(Seq<u8>, EntityV)>) -> Result<(), ErrorV> {
    match by {
        SignatoryV::OwnedKey => if e.keys.contains(key) {
            Ok(())
        } else {
            Err(ErrorV::KeyNotPresent(key))
        },
        SignatoryV::User(h) => match resolve_spec(t, h) {
            None => Err(ErrorV::ResolutionFailed(uri_string_of(h))),
            Some(u) => if u.keys.contains(key) {
                Ok(())
            } else {
                Err(ErrorV::UserKeyNotPresent(h, key))
            },
        },
    }
}

/// What checking one signature returns: the key must be entitled to sign,
/// and the signature must verify over the canonical bytes.
pub open spec fn check_signature_spec(
    e: EntityV,
    key: Seq<u8>,
    by: SignatoryV,
    sig: Seq<u8>,
    t: Seq<(Seq<u8>, EntityV)>,
) -> Result<(), ErrorV> {
    match check_key_spec(e, key, by, t) {
        Err(er) => Err(er),
        Ok(()) => if sig == crate::keys::sig_model(key, e.canonical()) {
            Ok(())
        } else {
            Err(ErrorV::SignatureVerificationFailed)
        },
    }
}

/// The first failure among the signatures from `i` on, if any.
pub open spec fn sig_errors_from(e: EntityV, t: Seq<(Seq<u8>, EntityV)>, i: int) -> Option<ErrorV>
    decreases e.signatures.len() - i,
{
    if i < 0 || i >= e.signatures.len() {
        None
    } else {
        match check_signature_spec(e, e.signatures[i].0, e.signatures[i].1.by, e.signatures[i].1.sig, t) {
            Err(er) => Some(er),
            Ok(()) => sig_errors_from(e, t, i + 1),
        }
    }
}

/// Whether some signature carries the key `k` and speaks for it as owned.
pub open spec fn has_owned_sig(e: EntityV, k: Seq<u8>) -> bool {
    exists|j: int|
        0 <= j < e.signatures.len() && (#[trigger] e.signatures[j]).0 == k
            && e.signatures[j].1.by is OwnedKey
}

/// Whether some signature speaks for the certifier `c`.
pub open spec fn has_user_sig(e: EntityV, c: Seq<u8>) -> bool {
    exists|j: int|
        0 <= j < e.signatures.len() && (#[trigger] e.signatures[j]).1.by == SignatoryV::User(c)
}

/// Full cover: every key of the entity signed as an owned key, and every
/// certifier signed as itself.
pub open spec fn full_cover(e: EntityV) -> bool {
    &&& forall|i: int| 0 <= i < e.keys.len() ==> has_owned_sig(e, #[trigger] e.keys[i])
    &&& forall|i: int| 0 <= i < e.certifiers.len() ==> has_user_sig(e, #[trigger] e.certifiers[i])
}

/// What checking an entity's validity returns: every signature must verify,
/// and the signatures must cover every key and every certifier.
pub open spec fn check_validity_spec(e: EntityV, t: Seq<(Seq<u8>, EntityV)>) -> Result<(), ErrorV> {
    match sig_errors_from(e, t, 0) {
        Some(er) => Err(er),
        None => if full_cover(e) {
            Ok(())
        } else {
            Err(ErrorV::SignatureMissing)
        },
    }
}

/// The model of a unit-or-error result.
pub open spec fn cres_view(r: Result<(), Error>) -> Result<(), ErrorV> {
    match r {
        Ok(()) => Ok(()),
        Err(e) => Err(e@),
    }
}

impl Entity {
    /// The entity's name.
    pub fn name(&self) -> (r: &Vec<u8>)
        ensures
            r@ == self@.name,
    {
        &self.name
    }

    /// The entity's revision number.
    pub fn revision(&self) -> (r: u64)
        ensures
            r == self@.revision,
    {
        self.revision
    }

    /// The multihash of the entity's canonical content.
    pub fn hash(&self) -> (r: &Vec<u8>)
        ensures
            r@ == self@.hash,
    {
        &self.hash
    }

    /// The hash of the predecessor revision, if any.
    pub fn parent_hash(&self) -> (r: &Option<Vec<u8>>)
        ensures
            match r {
                Some(p) => self@.parent_hash == Some(p@),
                None => self@.parent_hash is None,
            },
    {
        &self.parent_hash
    }

    /// The signatures collected so far.
    pub fn signatures(&self) -> (r: &Vec<(PublicKey, EntitySignature)>)
        ensures
            sgviews(r@) == self@.signatures,
    {
        &self.signatures
    }

    /// The keys authorized to sign as this entity.
    pub fn keys(&self) -> (r: &Vec<PublicKey>)
        ensures
            keyviews(r@) == self@.keys,
    {
        &self.keys
    }

    /// The identities whose signature this entity requires.
    pub fn certifiers(&self) -> (r: &Vec<RadicleUri>)
        ensures
            uviews(r@) == self@.certifiers,
    {
        &self.certifiers
    }

    /// The opaque payload bytes.
    pub fn info(&self) -> (r: &Vec<u8>)
        ensures
            r@ == self@.info,
    {
        &self.info
    }

    /// The entity's URN: its hash behind the scheme prefix.
    pub fn uri(&self) -> (r: RadicleUri)
        ensures
            r@ == self@.hash,
    {
        RadicleUri::new(copy_bytes(&self.hash))
    }

    /// The canonical bytes of the entity's content.
    pub fn canonical_data(&self) -> (r: Vec<u8>)
        ensures
            r@ == self@.canonical(),
    {
        let d = self.to_data();
        let c = d.canonical_data();
        proof {
            assert(d@.canonical() == self@.canonical());
        }
        c
    }

    /// The SHA-256 multihash of the canonical content; on a well-formed
    /// entity this is the stored hash.
    pub fn compute_hash(&self) -> (r: Vec<u8>)
        ensures
            r@ == sha256_of(self@.canonical()),
            self@.wf() ==> r@ == self@.hash,
    {
        let c = self.canonical_data();
        crate::codec::sha2_256_digest(&c)
    }

    /// Checks that this revision is a valid successor of `previous`.
    pub fn check_update(&self, previous: &Entity) -> (r: Result<(), UpdateVerificationError>)
        ensures
            r == check_update_spec(self@, previous@),
    {
        if self.revision <= previous.revision {
            return Err(UpdateVerificationError::NonMonotonicRevision);
        }
        match &self.parent_hash {
            None => {
                return Err(UpdateVerificationError::WrongParentHash);
            },
            Some(p) => {
                if !bytes_eq(p, &previous.hash) {
                    return Err(UpdateVerificationError::WrongParentHash);
                }
            },
        }
        let mut cur_keys: Vec<Vec<u8>> = Vec::new();
        let mut i: usize = 0;
        proof {
            assert(bviews(cur_keys@) =~= self@.keys.take(0));
        }
        while i < self.keys.len()
            invariant
                i <= self.keys.len(),
                bviews(cur_keys@) == self@.keys.take(i as int),
            decreases self.keys.len() - i,
        {
            let ghost kb = bviews(cur_keys@);
            cur_keys.push(copy_bytes(&self.keys[i].bytes));
            proof {
                assert(bviews(cur_keys@) =~= kb.push(self@.keys[i as int]));
                assert(self@.keys.take(i + 1) =~= self@.keys.take(i as int).push(
                    self@.keys[i as int],
                ));
            }
            i = i + 1;
        }
        proof {
            assert(self@.keys.take(self@.keys.len() as int) =~= self@.keys);
        }
        let mut prev_keys: Vec<Vec<u8>> = Vec::new();
        let mut i: usize = 0;
        proof {
            assert(bviews(prev_keys@) =~= previous@.keys.take(0));
        }
        while i < previous.keys.len()
            invariant
                i <= previous.keys.len(),
                bviews(prev_keys@) == previous@.keys.take(i as int),
            decreases previous.keys.len() - i,
        {
            let ghost kb = bviews(prev_keys@);
            prev_keys.push(copy_bytes(&previous.keys[i].bytes));
            proof {
                assert(bviews(prev_keys@) =~= kb.push(previous@.keys[i as int]));
                assert(previous@.keys.take(i + 1) =~= previous@.keys.take(i as int).push(
                    previous@.keys[i as int],
                ));
            }
            i = i + 1;
        }
        proof {
            assert(previous@.keys.take(previous@.keys.len() as int) =~= previous@.keys);
        }
        let retained_keys = count_retained(&cur_keys, &prev_keys);
        let total_keys = cur_keys.len();
        let added_keys = total_keys - retained_keys;
        let quorum_keys = total_keys / 2;
        if added_keys > quorum_keys {
            return Err(UpdateVerificationError::NoCurrentQuorum);
        }
        if (prev_keys.len() as u128) > (retained_keys as u128) + (quorum_keys as u128) {
            proof {
                assert(previous@.keys.len() - retained_count(self@.keys, previous@.keys)
                    > self@.keys.len() as int / 2);
            }
            return Err(UpdateVerificationError::NoPreviousQuorum);
        }
        let mut cur_certs: Vec<Vec<u8>> = Vec::new();
        let mut i: usize = 0;
        proof {
            assert(bviews(cur_certs@) =~= self@.certifiers.take(0));
        }
        while i < self.certifiers.len()
            invariant
                i <= self.certifiers.len(),
                bviews(cur_certs@) == self@.certifiers.take(i as int),
            decreases self.certifiers.len() - i,
        {
            let ghost kb = bviews(cur_certs@);
            cur_certs.push(copy_bytes(&self.certifiers[i].hash));
            proof {
                assert(bviews(cur_certs@) =~= kb.push(self@.certifiers[i as int]));
                assert(self@.certifiers.take(i + 1) =~= self@.certifiers.take(i as int).push(
                    self@.certifiers[i as int],
                ));
            }
            i = i + 1;
        }
        proof {
            assert(self@.certifiers.take(self@.certifiers.len() as int) =~= self@.certifiers);
        }
        let mut prev_certs: Vec<Vec<u8>> = Vec::new();
        let mut i: usize = 0;
        proof {
            assert(bviews(prev_certs@) =~= previous@.certifiers.take(0));
        }
        while i < previous.certifiers.len()
            invariant
                i <= previous.certifiers.len(),
                bviews(prev_certs@) == previous@.certifiers.take(i as int),
            decreases previous.certifiers.len() - i,
        {
            let ghost kb = bviews(prev_certs@);
            prev_certs.push(copy_bytes(&previous.certifiers[i].hash));
            proof {
                assert(bviews(prev_certs@) =~= kb.push(previous@.certifiers[i as int]));
                assert(previous@.certifiers.take(i + 1) =~= previous@.certifiers.take(
                    i as int,
                ).push(previous@.certifiers[i as int]));
            }
            i = i + 1;
        }
        proof {
            assert(previous@.certifiers.take(previous@.certifiers.len() as int)
                =~= previous@.certifiers);
        }
        let retained_certs = count_retained(&cur_certs, &prev_certs);
        let total_certs = cur_certs.len();
        let added_certs = total_certs - retained_certs;
        let quorum_certs = total_certs / 2;
        if added_certs > quorum_certs {
            return Err(UpdateVerificationError::NoCurrentQuorum);
        }
        if (prev_certs.len() as u128) > (retained_certs as u128) + (quorum_certs as u128) {
            proof {
                assert(previous@.certifiers.len() - retained_count(
                    self@.certifiers,
                    previous@.certifiers,
                ) > self@.certifiers.len() as int / 2);
            }
            return Err(UpdateVerificationError::NoPreviousQuorum);
        }
        Ok(())
    }

    /// Checks that `key` may sign as `by`.
    pub fn check_key(&self, key: &PublicKey, by: &Signatory, resolver: &Resolver) -> (r: Result<
        (),
        Error,
    >)
        ensures
            cres_view(r) == check_key_spec(self@, key@, by@, resolver@),
    {
        match by {
            Signatory::OwnedKey => {
                if key_list_contains(&self.keys, &key.bytes) {
                    Ok(())
                } else {
                    Err(Error::KeyNotPresent(key.clone_key()))
                }
            },
            Signatory::User(uri) => {
                match resolver.resolve(uri) {
                    Err(e) => Err(e),
                    Ok(user) => {
                        if key_list_contains(&user.keys, &key.bytes) {
                            Ok(())
                        } else {
                            Err(Error::UserKeyNotPresent(uri.clone_uri(), key.clone_key()))
                        }
                    },
                }
            },
        }
    }

    /// Checks one signature: the key must be entitled to sign as `by`, and
    /// the signature must verify over the canonical content.
    pub fn check_signature(
        &self,
        key: &PublicKey,
        by: &Signatory,
        signature: &Signature,
        resolver: &Resolver,
    ) -> (r: Result<(), Error>)
        ensures
            cres_view(r) == check_signature_spec(self@, key@, by@, signature@, resolver@),
    {
        match self.check_key(key, by, resolver) {
            Err(e) => Err(e),
            Ok(()) => {
                let canon = self.canonical_data();
                if signature.verify(&canon, key) {
                    Ok(())
                } else {
                    Err(Error::SignatureVerificationFailed)
                }
            },
        }
    }

    /// Checks the entity's validity: every signature verifies, and the
    /// signatures cover every key and every certifier.
    #[verifier::loop_isolation(false)]
    pub fn check_validity(&self, resolver: &Resolver) -> (r: Result<(), Error>)
        ensures
            cres_view(r) == check_validity_spec(self@, resolver@),
    {
        let ghost ev = self@;
        let ghost tv = resolver@;
        let mut i: usize = 0;
        while i < self.signatures.len()
            invariant
                i <= self.signatures.len(),
                sig_errors_from(ev, tv, 0) == sig_errors_from(ev, tv, i as int),
            decreases self.signatures.len() - i,
        {
            match self.check_signature(
                &self.signatures[i].0,
                &self.signatures[i].1.by,
                &self.signatures[i].1.sig,
                resolver,
            ) {
                Err(e) => {
                    proof {
                        assert(sig_errors_from(ev, tv, i as int) == Some(e@));
                    }
                    return Err(e);
                },
                Ok(()) => {},
            }
            i = i + 1;
        }
        proof {
            assert(sig_errors_from(ev, tv, ev.signatures.len() as int) is None);
        }
        // full cover of the keys
        let mut i: usize = 0;
        while i < self.keys.len()
            invariant
                i <= self.keys.len(),
                forall|j: int| 0 <= j < i ==> has_owned_sig(ev, #[trigger] ev.keys[j]),
            decreases self.keys.len() - i,
        {
            let mut found = false;
            let mut j: usize = 0;
            while j < self.signatures.len()
                invariant
                    j <= self.signatures.len(),
                    i < self.keys.len(),
                    found ==> has_owned_sig(ev, ev.keys[i as int]),
                    !found ==> forall|w: int|
                        0 <= w < j ==> !((#[trigger] ev.signatures[w]).0 == ev.keys[i as int]
                            && ev.signatures[w].1.by is OwnedKey),
                decreases self.signatures.len() - j,
            {
                if !found {
                    let owned = match &self.signatures[j].1.by {
                        Signatory::OwnedKey => true,
                        Signatory::User(_) => false,
                    };
                    if owned && bytes_eq(&self.signatures[j].0.bytes, &self.keys[i].bytes) {
                        proof {
                            assert(ev.signatures[j as int].0 == ev.keys[i as int]);
                        }
                        found = true;
                    }
                }
                j = j + 1;
            }
            if !found {
                proof {
                    assert(!has_owned_sig(ev, ev.keys[i as int]));
                    assert(!full_cover(ev));
                }
                return Err(Error::SignatureMissing);
            }
            i = i + 1;
        }
        // full cover of the certifiers
        let mut i: usize = 0;
        while i < self.certifiers.len()
            invariant
                i <= self.certifiers.len(),
                forall|j: int| 0 <= j < i ==> has_user_sig(ev, #[trigger] ev.certifiers[j]),
            decreases self.certifiers.len() - i,
        {
            let mut found = false;
            let mut j: usize = 0;
            while j < self.signatures.len()
                invariant
                    j <= self.signatures.len(),
                    i < self.certifiers.len(),
                    found ==> has_user_sig(ev, ev.certifiers[i as int]),
                    !found ==> forall|w: int|
                        0 <= w < j ==> (#[trigger] ev.signatures[w]).1.by != SignatoryV::User(
                            ev.certifiers[i as int],
                        ),
                decreases self.signatures.len() - j,
            {
                if !found {
                    match &self.signatures[j].1.by {
                        Signatory::User(u) => {
                            if bytes_eq(&u.hash, &self.certifiers[i].hash) {
                                proof {
                                    assert(ev.signatures[j as int].1.by == SignatoryV::User(
                                        ev.certifiers[i as int],
                                    ));
                                }
                                found = true;
                            }
                        },
                        Signatory::OwnedKey => {},
                    }
                }
                j = j + 1;
            }
            if !found {
                proof {
                    assert(!has_user_sig(ev, ev.certifiers[i as int]));
                    assert(!full_cover(ev));
                }
                return Err(Error::SignatureMissing);
            }
            i = i + 1;
        }
        proof {
            assert(full_cover(ev));
        }
        Ok(())
    }

    /// Whether the entity is valid.
    pub fn is_valid(&self, resolver: &Resolver) -> (r: bool)
        ensures
            r == (check_validity_spec(self@, resolver@) is Ok),
    {
        match self.check_validity(resolver) {
            Ok(()) => true,
            Err(_) => false,
        }
    }

    /// Signs the canonical content with `key` as `by`: fails when the key
    /// already signed or may not sign; otherwise the signature is appended.
    pub fn sign(&mut self, key: &crate::keys::Key, by: &Signatory, resolver: &Resolver) -> (r:
        Result<(), Error>)
        ensures
            match r {
                Ok(()) => {
                    &&& !has_sig_key(old(self)@.signatures, key@)
                    &&& check_key_spec(old(self)@, key@, by@, resolver@) is Ok
                    &&& final(self)@ == (EntityV {
                        signatures: old(self)@.signatures.push(
                            (
                                key@,
                                EntitySignatureV {
                                    by: by@,
                                    sig: crate::keys::sig_model(key@, old(self)@.canonical()),
                                },
                            ),
                        ),
                        ..old(self)@
                    })
                },
                Err(e) => {
                    &&& final(self)@ == old(self)@
                    &&& if has_sig_key(old(self)@.signatures, key@) {
                        e@ == ErrorV::SignatureAlreadyPresent(key@)
                    } else {
                        Err::<(), ErrorV>(e@) == check_key_spec(old(self)@, key@, by@, resolver@)
                    }
                },
            },
            // signing never moves the hash: the canonical content leaves the
            // signatures out, so a well-formed entity stays well formed
            (old(self)@.wf() && (by@ matches SignatoryV::User(h) ==> mh_parses(h)))
                ==> final(self)@.wf(),
    {
        let public_key = key.public();
        if sig_list_has_key(&self.signatures, &public_key.bytes) {
            return Err(Error::SignatureAlreadyPresent(public_key));
        }
        match self.check_key(&public_key, by, resolver) {
            Err(e) => {
                return Err(e);
            },
            Ok(()) => {},
        }
        let canon = self.canonical_data();
        let sig = key.sign(&canon);
        let ghost pre = self@;
        let ghost entry = (public_key@, EntitySignatureV { by: by@, sig: sig@ });
        self.signatures.push((public_key, EntitySignature { by: by.clone_signatory(), sig }));
        proof {
            assert(self@.signatures =~= pre.signatures.push(entry));
            assert(self@ =~= (EntityV { signatures: pre.signatures.push(entry), ..pre }));
            if pre.wf() && (by@ matches SignatoryV::User(h) ==> mh_parses(h)) {
                assert(self@.canonical() == pre.canonical());
                let sigs = self@.signatures;
                assert(distinct_firsts(sigs)) by {
                    assert forall|a: int, b: int| 0 <= a < b < sigs.len() implies sigs[a].0
                        != sigs[b].0 by {
                        if b == sigs.len() - 1 {
                            if pre.signatures[a].0 == entry.0 {
                                assert(has_sig_key(pre.signatures, key@));
                            }
                        }
                    }
                }
                assert forall|i: int|
                    0 <= i < sigs.len() implies ((#[trigger] sigs[i]).1.by matches
                SignatoryV::User(h) ==> mh_parses(h)) by {
                    if i < sigs.len() - 1 {
                        assert(sigs[i] == pre.signatures[i]);
                    }
                }
                assert(self@.wf());
            }
        }
        Ok(())
    }
}

/// What can go wrong verifying an ordered stream of revisions.
#[derive(Debug)]
pub enum HistoryVerificationError {
    /// The stream holds no revision at all.
    EmptyHistory,
    /// A revision is invalid; tagged with the revision being transitioned
    /// from.
    ErrorAtRevision { revision: u64, error: Error },
    /// A transition between two revisions is invalid.
    UpdateError { revision: u64, error: UpdateVerificationError },
}

/// Mathematical model of a [`HistoryVerificationError`].
pub enum HistoryVerificationErrorV {
    EmptyHistory,
    ErrorAtRevision { revision: u64, error: ErrorV },
    UpdateError { revision: u64, error: UpdateVerificationError },
}

impl View for HistoryVerificationError {
    type V = HistoryVerificationErrorV;

    open spec fn view(&self) -> HistoryVerificationErrorV {
        match self {
            HistoryVerificationError::EmptyHistory => HistoryVerificationErrorV::EmptyHistory,
            HistoryVerificationError::ErrorAtRevision { revision, error } =>
                HistoryVerificationErrorV::ErrorAtRevision {
                revision: *revision,
                error: error@,
            },
            HistoryVerificationError::UpdateError { revision, error } =>
                HistoryVerificationErrorV::UpdateError { revision: *revision, error: *error },
        }
    }
}

/// The models of a list of entities.
pub open spec fn eviews(s: Seq<Entity>) -> Seq<EntityV> {
    s.map_values(|e: Entity| e@)
}

/// Verification of the revisions from `i` on, transitioning from `cur`:
/// each previous revision must be valid, and `cur` must be a valid
/// successor of it. Errors are tagged with the revision being transitioned
/// from.
pub open spec fn history_from(
    t: Seq<(Seq<u8>, EntityV)>,
    revs: Seq<EntityV>,
    i: int,
    cur: EntityV,
) -> Result<(), HistoryVerificationErrorV>
    decreases revs.len() - i,
{
    if i < 0 || i >= revs.len() {
        Ok(())
    } else {
        let prev = revs[i];
        match check_validity_spec(prev, t) {
            Err(e) => Err(
                HistoryVerificationErrorV::ErrorAtRevision { revision: cur.revision, error: e },
            ),
            Ok(()) => match check_update_spec(cur, prev) {
                Err(e) => Err(
                    HistoryVerificationErrorV::UpdateError { revision: cur.revision, error: e },
                ),
                Ok(()) => history_from(t, revs, i + 1, prev),
            },
        }
    }
}

/// What verifying a whole history returns: the head must be valid, and
/// every step back through the revisions must be a valid update.
pub open spec fn check_history_spec(t: Seq<(Seq<u8>, EntityV)>, revs: Seq<EntityV>) -> Result<
    (),
    HistoryVerificationErrorV,
> {
    if revs.len() == 0 {
        Err(HistoryVerificationErrorV::EmptyHistory)
    } else {
        match check_validity_spec(revs[0], t) {
            Err(e) => Err(
                HistoryVerificationErrorV::ErrorAtRevision {
                    revision: revs[0].revision,
                    error: e,
                },
            ),
            Ok(()) => history_from(t, revs, 1, revs[0]),
        }
    }
}

/// The model of a history-verification result.
pub open spec fn hres_view(r: Result<(), HistoryVerificationError>) -> Result<
    (),
    HistoryVerificationErrorV,
> {
    match r {
        Ok(()) => Ok(()),
        Err(e) => Err(e@),
    }
}

impl Entity {
    /// Verifies an ordered list of revisions, most recent first. The list
    /// is walked once, keeping only the current revision at hand.
    #[verifier::loop_isolation(false)]
    pub fn check_history(resolver: &Resolver, revisions: &Vec<Entity>) -> (r: Result<
        (),
        HistoryVerificationError,
    >)
        ensures
            hres_view(r) == check_history_spec(resolver@, eviews(revisions@)),
    {
        let ghost tv = resolver@;
        let ghost rv = eviews(revisions@);
        if revisions.len() == 0 {
            return Err(HistoryVerificationError::EmptyHistory);
        }
        match revisions[0].check_validity(resolver) {
            Err(error) => {
                return Err(
                    HistoryVerificationError::ErrorAtRevision {
                        revision: revisions[0].revision(),
                        error,
                    },
                );
            },
            Ok(()) => {},
        }
        let mut i: usize = 1;
        while i < revisions.len()
            invariant
                1 <= i <= revisions.len(),
                check_history_spec(tv, rv) == history_from(tv, rv, i as int, rv[i - 1]),
            decreases revisions.len() - i,
        {
            let current = &revisions[i - 1];
            let previous = &revisions[i];
            match previous.check_validity(resolver) {
                Err(error) => {
                    return Err(
                        HistoryVerificationError::ErrorAtRevision {
                            revision: current.revision(),
                            error,
                        },
                    );
                },
                Ok(()) => {},
            }
            match current.check_update(previous) {
                Err(error) => {
                    return Err(
                        HistoryVerificationError::UpdateError {
                            revision: current.revision(),
                            error,
                        },
                    );
                },
                Ok(()) => {},
            }
            i = i + 1;
        }
        Ok(())
    }
}

/// A streaming history verifier: it holds only the revision currently
/// transitioned from, so an ordered stream of revisions, most recent first,
/// can be checked one element at a time without materializing the history.
pub struct HistoryVerifier {
    current: Entity,
}

impl View for HistoryVerifier {
    type V = EntityV;

    closed spec fn view(&self) -> EntityV {
        self.current@
    }
}

impl HistoryVerifier {
    /// Starts at the most recent revision, which must itself be valid.
    pub fn begin(resolver: &Resolver, head: Entity) -> (r: Result<
        HistoryVerifier,
        HistoryVerificationError,
    >)
        ensures
            match r {
                Ok(v) => check_validity_spec(head@, resolver@) is Ok && v@ == head@,
                Err(e) => match check_validity_spec(head@, resolver@) {
                    Err(er) => e@ == (HistoryVerificationErrorV::ErrorAtRevision {
                        revision: head@.revision,
                        error: er,
                    }),
                    Ok(()) => false,
                },
            },
    {
        match head.check_validity(resolver) {
            Err(error) => Err(
                HistoryVerificationError::ErrorAtRevision { revision: head.revision(), error },
            ),
            Ok(()) => Ok(HistoryVerifier { current: head }),
        }
    }

    /// One step back through the history: the previous revision must be
    /// valid and the held revision a valid successor of it; the verifier
    /// then moves to the previous revision. Errors are tagged with the
    /// revision being transitioned from, and leave the verifier unmoved.
    pub fn step(&mut self, resolver: &Resolver, previous: Entity) -> (r: Result<
        (),
        HistoryVerificationError,
    >)
        ensures
            match r {
                Ok(()) => {
                    &&& check_validity_spec(previous@, resolver@) is Ok
                    &&& check_update_spec(old(self)@, previous@) is Ok
                    &&& final(self)@ == previous@
                },
                Err(e) => {
                    &&& final(self)@ == old(self)@
                    &&& match check_validity_spec(previous@, resolver@) {
                        Err(er) => e@ == (HistoryVerificationErrorV::ErrorAtRevision {
                            revision: old(self)@.revision,
                            error: er,
                        }),
                        Ok(()) => match check_update_spec(old(self)@, previous@) {
                            Err(er) => e@ == (HistoryVerificationErrorV::UpdateError {
                                revision: old(self)@.revision,
                                error: er,
                            }),
                            Ok(()) => false,
                        },
                    }
                },
            },
    {
        match previous.check_validity(resolver) {
            Err(error) => {
                return Err(
                    HistoryVerificationError::ErrorAtRevision {
                        revision: self.current.revision(),
                        error,
                    },
                );
            },
            Ok(()) => {},
        }
        match self.current.check_update(&previous) {
            Err(error) => {
                return Err(
                    HistoryVerificationError::UpdateError {
                        revision: self.current.revision(),
                        error,
                    },
                );
            },
            Ok(()) => {},
        }
        self.current = previous;
        Ok(())
    }
}

/// Whether some signature entry carries the key with bytes `x`.
fn sig_list_has_key(v: &Vec<(PublicKey, EntitySignature)>, x: &Vec<u8>) -> (r: bool)
    ensures
        r == has_sig_key(sgviews(v@), x@),
{
    let mut i: usize = 0;
    while i < v.len()
        invariant
            i <= v.len(),
            forall|j: int| 0 <= j < i ==> sgviews(v@)[j].0 != x@,
        decreases v.len() - i,
    {
        if bytes_eq(&v[i].0.bytes, x) {
            assert(sgviews(v@)[i as int].0 == x@);
            return true;
        }
        i = i + 1;
    }
    proof {
        if has_sig_key(sgviews(v@), x@) {
            let j = choose|j: int| 0 <= j < sgviews(v@).len() && sgviews(v@)[j].0 == x@;
        }
    }
    false
}

} // verus!

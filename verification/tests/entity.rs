use librad::entity::{
    Entity, Error, HistoryVerificationError, HistoryVerifier, Resolver, Signatory,
    UpdateVerificationError,
};
use librad::entity_data::{EntityData, EntitySignatureData};
use librad::keys::{Key, PublicKey};
use librad::uri::RadicleUri;

fn b58(bytes: &[u8]) -> Vec<u8> {
    bs58::encode(bytes).with_alphabet(bs58::Alphabet::BITCOIN).into_vec()
}

fn key_text(seed: u8) -> Vec<u8> {
    b58(&[seed; 32])
}

fn plain_data(keys: Vec<Vec<u8>>) -> EntityData {
    EntityData {
        name: Some(b"alice".to_vec()),
        revision: Some(1),
        hash: None,
        parent_hash: None,
        signatures: None,
        keys,
        certifiers: vec![],
        info: b"{}".to_vec(),
    }
}

#[test]
fn from_data_rejects_missing_fields() {
    let mut d = plain_data(vec![key_text(1)]);
    d.name = None;
    assert!(matches!(Entity::from_data(d), Err(Error::InvalidData(_))));
    let mut d = plain_data(vec![key_text(1)]);
    d.revision = None;
    assert!(matches!(Entity::from_data(d), Err(Error::InvalidData(_))));
    let d = plain_data(vec![]);
    assert!(matches!(Entity::from_data(d), Err(Error::InvalidData(_))));
}

#[test]
fn from_data_rejects_bad_key_text() {
    // '0' is not in the Bitcoin alphabet
    let d = plain_data(vec![b"0O0".to_vec()]);
    assert!(matches!(Entity::from_data(d), Err(Error::InvalidData(_))));
}

#[test]
fn hash_is_pinned_to_content() {
    let e = Entity::from_data(plain_data(vec![key_text(1)])).unwrap();
    // the stored hash is the recomputed hash of the canonical content
    assert_eq!(e.hash(), &e.compute_hash());
    // a multihash container: SHA-256 code and 32-byte digest
    assert_eq!(e.hash().len(), 34);
    assert_eq!(e.hash()[0], 0x12);
    assert_eq!(e.hash()[1], 0x20);
}

#[test]
fn hash_mismatch_is_rejected() {
    let e = Entity::from_data(plain_data(vec![key_text(1)])).unwrap();
    let other = Entity::from_data(plain_data(vec![key_text(2)])).unwrap();
    assert_ne!(e.hash(), other.hash());
    // claim the other entity's (well-formed) hash: decodes, parses, but
    // does not match the content
    let mut d = plain_data(vec![key_text(1)]);
    d.hash = Some(b58(other.hash()));
    assert!(matches!(Entity::from_data(d), Err(Error::InvalidHash(_))));
    // a matching claim is accepted
    let mut d = plain_data(vec![key_text(1)]);
    d.hash = Some(b58(e.hash()));
    assert!(Entity::from_data(d).is_ok());
}

#[test]
fn bad_hash_texts_are_told_apart() {
    // not base58 at all
    let mut d = plain_data(vec![key_text(1)]);
    d.hash = Some(b"0".to_vec());
    assert!(matches!(Entity::from_data(d), Err(Error::InvalidBufferEncoding(_))));
    // base58, but not a multihash container
    let mut d = plain_data(vec![key_text(1)]);
    d.hash = Some(b58(&[1, 2, 3]));
    assert!(matches!(Entity::from_data(d), Err(Error::InvalidHash(_))));
    // same taxonomy for the parent hash
    let mut d = plain_data(vec![key_text(1)]);
    d.parent_hash = Some(b"0".to_vec());
    assert!(matches!(Entity::from_data(d), Err(Error::InvalidBufferEncoding(_))));
    let mut d = plain_data(vec![key_text(1)]);
    d.parent_hash = Some(b58(&[1, 2, 3]));
    assert!(matches!(Entity::from_data(d), Err(Error::InvalidHash(_))));
}

#[test]
fn round_trip_from_to_data() {
    let mut d = plain_data(vec![key_text(1), key_text(2)]);
    d.certifiers = vec![];
    let e = Entity::from_data(d).unwrap();
    let e2 = Entity::from_data(e.to_data()).unwrap();
    assert_eq!(e.name(), e2.name());
    assert_eq!(e.revision(), e2.revision());
    assert_eq!(e.hash(), e2.hash());
    assert_eq!(e.keys().len(), e2.keys().len());
    for (a, b) in e.keys().iter().zip(e2.keys().iter()) {
        assert_eq!(a.bytes, b.bytes);
    }
    assert_eq!(e.info(), e2.info());
}

#[test]
fn signing_and_validity() {
    let resolver = Resolver::new();
    let mut e = Entity::from_data(plain_data(vec![key_text(1)])).unwrap();
    // not yet covered
    assert!(matches!(e.check_validity(&resolver), Err(Error::SignatureMissing)));
    let key = Key { bytes: vec![1; 32] };
    e.sign(&key, &Signatory::OwnedKey, &resolver).unwrap();
    assert!(e.check_validity(&resolver).is_ok());
    assert!(e.is_valid(&resolver));
    // the same key may not sign twice
    assert!(matches!(
        e.sign(&key, &Signatory::OwnedKey, &resolver),
        Err(Error::SignatureAlreadyPresent(_))
    ));
    // a foreign key may not sign as owned
    let stranger = Key { bytes: vec![9; 32] };
    assert!(matches!(
        e.sign(&stranger, &Signatory::OwnedKey, &resolver),
        Err(Error::KeyNotPresent(_))
    ));
}

#[test]
fn forged_signature_fails_verification() {
    let resolver = Resolver::new();
    let e = Entity::from_data(plain_data(vec![key_text(1)])).unwrap();
    // hand-craft a signature entry with the right key but wrong bytes
    let mut d = e.to_data();
    d.signatures = Some(vec![(
        key_text(1),
        EntitySignatureData { user: None, sig: b58(&[7; 34]) },
    )]);
    d.hash = None;
    let forged = Entity::from_data(d).unwrap();
    assert!(matches!(
        forged.check_validity(&resolver),
        Err(Error::SignatureVerificationFailed)
    ));
}

#[test]
fn certifier_needs_resolution_and_key() {
    // the certifying identity owns key 2
    let user = Entity::from_data(plain_data(vec![key_text(2)])).unwrap();
    let uri = user.uri();
    let uri_text = uri.to_string_bytes();
    let mut d = plain_data(vec![key_text(1)]);
    d.certifiers = vec![uri_text];
    let mut e = Entity::from_data(d).unwrap();
    let key1 = Key { bytes: vec![1; 32] };
    let key2 = Key { bytes: vec![2; 32] };
    // an empty table cannot resolve the certifier
    let empty = Resolver::new();
    assert!(matches!(
        e.sign(&key2, &Signatory::User(uri.clone_uri()), &empty),
        Err(Error::ResolutionFailed(_))
    ));
    let mut resolver = Resolver::new();
    resolver.add(user.uri(), user);
    e.sign(&key1, &Signatory::OwnedKey, &resolver).unwrap();
    // the certifier has not signed yet
    assert!(matches!(e.check_validity(&resolver), Err(Error::SignatureMissing)));
    // a key the certifier does not own is refused
    let key3 = Key { bytes: vec![3; 32] };
    assert!(matches!(
        e.sign(&key3, &Signatory::User(uri.clone_uri()), &resolver),
        Err(Error::UserKeyNotPresent(_, _))
    ));
    e.sign(&key2, &Signatory::User(uri.clone_uri()), &resolver).unwrap();
    assert!(e.check_validity(&resolver).is_ok());
}

fn successor(prev: &Entity, keys: Vec<Vec<u8>>, revision: u64) -> EntityData {
    let mut d = plain_data(keys);
    d.revision = Some(revision);
    d.parent_hash = Some(b58(prev.hash()));
    d
}

#[test]
fn quorum_violation_on_update() {
    let prev = Entity::from_data(plain_data(vec![key_text(1), key_text(2), key_text(3)])).unwrap();
    let next = Entity::from_data(successor(
        &prev,
        vec![key_text(4), key_text(5), key_text(6)],
        2,
    ))
    .unwrap();
    // three added keys exceed the quorum of one
    assert!(matches!(
        next.check_update(&prev),
        Err(UpdateVerificationError::NoCurrentQuorum)
    ));
}

#[test]
fn update_quorum_and_monotonicity() {
    let prev = Entity::from_data(plain_data(vec![key_text(1), key_text(2), key_text(3)])).unwrap();
    // one key replaced out of three: within quorum
    let good = Entity::from_data(successor(
        &prev,
        vec![key_text(1), key_text(2), key_text(4)],
        2,
    ))
    .unwrap();
    assert!(good.check_update(&prev).is_ok());
    // a revision that does not grow
    let stale = Entity::from_data(successor(
        &prev,
        vec![key_text(1), key_text(2), key_text(3)],
        1,
    ))
    .unwrap();
    assert!(matches!(
        stale.check_update(&prev),
        Err(UpdateVerificationError::NonMonotonicRevision)
    ));
    // a wrong or missing parent hash
    let mut d = plain_data(vec![key_text(1), key_text(2), key_text(3)]);
    d.revision = Some(2);
    let orphan = Entity::from_data(d).unwrap();
    assert!(matches!(
        orphan.check_update(&prev),
        Err(UpdateVerificationError::WrongParentHash)
    ));
    // too many previous keys dropped
    let shrunk = Entity::from_data(successor(&prev, vec![key_text(1)], 2)).unwrap();
    assert!(matches!(
        shrunk.check_update(&prev),
        Err(UpdateVerificationError::NoPreviousQuorum)
    ));
}

#[test]
fn history_verification() {
    let resolver = Resolver::new();
    let empty: Vec<Entity> = vec![];
    assert!(matches!(
        Entity::check_history(&resolver, &empty),
        Err(HistoryVerificationError::EmptyHistory)
    ));
    let key = Key { bytes: vec![1; 32] };
    let mut rev1 = Entity::from_data(plain_data(vec![key_text(1)])).unwrap();
    rev1.sign(&key, &Signatory::OwnedKey, &resolver).unwrap();
    let mut rev2 = Entity::from_data(successor(&rev1, vec![key_text(1)], 2)).unwrap();
    rev2.sign(&key, &Signatory::OwnedKey, &resolver).unwrap();
    // most recent first
    let history = vec![rev2, rev1];
    assert!(Entity::check_history(&resolver, &history).is_ok());
    // a broken chain is caught and tagged with the revision moved from
    let rev2_copy = Entity::from_data(history[0].to_data()).unwrap();
    let unrelated = Entity::from_data(plain_data(vec![key_text(1)])).unwrap();
    let mut bad = Entity::from_data(successor(&unrelated, vec![key_text(1)], 3)).unwrap();
    bad.sign(&key, &Signatory::OwnedKey, &resolver).unwrap();
    let broken = vec![bad, rev2_copy];
    match Entity::check_history(&resolver, &broken) {
        Err(HistoryVerificationError::UpdateError { revision, error }) => {
            assert_eq!(revision, 3);
            assert!(matches!(error, UpdateVerificationError::WrongParentHash));
        },
        other => panic!("unexpected: {:?}", other),
    }
}

#[test]
fn unsigned_revision_breaks_history() {
    let resolver = Resolver::new();
    let key = Key { bytes: vec![1; 32] };
    let rev1 = Entity::from_data(plain_data(vec![key_text(1)])).unwrap();
    let mut rev2 = Entity::from_data(successor(&rev1, vec![key_text(1)], 2)).unwrap();
    rev2.sign(&key, &Signatory::OwnedKey, &resolver).unwrap();
    let history = vec![rev2, rev1];
    match Entity::check_history(&resolver, &history) {
        Err(HistoryVerificationError::ErrorAtRevision { revision, error }) => {
            // tagged with the revision being transitioned from
            assert_eq!(revision, 2);
            assert!(matches!(error, Error::SignatureMissing));
        },
        other => panic!("unexpected: {:?}", other),
    }
}

#[test]
fn uri_round_trip_and_rejects() {
    let e = Entity::from_data(plain_data(vec![key_text(1)])).unwrap();
    let uri = e.uri();
    let text = uri.to_string_bytes();
    assert_eq!(&text[..4], b"rad:");
    let back = RadicleUri::from_str_bytes(&text).unwrap();
    assert_eq!(back.hash, uri.hash);
    assert!(RadicleUri::from_str_bytes(&b"http:abc".to_vec()).is_none());
    assert!(RadicleUri::from_str_bytes(&b"rad:0".to_vec()).is_none());
    // valid base58 that is not a multihash
    let mut bogus = b"rad:".to_vec();
    bogus.extend_from_slice(&b58(&[1, 2, 3]));
    assert!(RadicleUri::from_str_bytes(&bogus).is_none());
}

#[test]
fn base58_codec_round_trip() {
    let k = PublicKey { bytes: vec![0, 0] };
    // two zero bytes encode as two ones in the Bitcoin alphabet
    assert_eq!(k.to_bs58(), b"11".to_vec());
    let back = PublicKey::from_bs58(&b"11".to_vec()).unwrap();
    assert_eq!(back.bytes, vec![0, 0]);
    assert!(PublicKey::from_bs58(&b"0".to_vec()).is_none());
}

#[test]
fn streaming_history_matches_the_bundled_verifier() {
    let resolver = Resolver::new();
    let key = Key { bytes: vec![1; 32] };
    let mut rev1 = Entity::from_data(plain_data(vec![key_text(1)])).unwrap();
    rev1.sign(&key, &Signatory::OwnedKey, &resolver).unwrap();
    let mut rev2 = Entity::from_data(successor(&rev1, vec![key_text(1)], 2)).unwrap();
    rev2.sign(&key, &Signatory::OwnedKey, &resolver).unwrap();
    // one revision at a time, nothing materialized
    let mut verifier = HistoryVerifier::begin(&resolver, rev2).unwrap();
    verifier.step(&resolver, rev1).unwrap();
    // a stale step fails with the revision moved from
    let stale = Entity::from_data(plain_data(vec![key_text(1)])).unwrap();
    match verifier.step(&resolver, stale) {
        Err(HistoryVerificationError::ErrorAtRevision { revision, error }) => {
            assert_eq!(revision, 1);
            assert!(matches!(error, Error::SignatureMissing));
        },
        other => panic!("unexpected: {:?}", other),
    }
}

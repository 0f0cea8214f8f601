//! Stateless committees: keys, anchors, records and quorums.
use decentralized_root_of_trust::framing::SszError;
use decentralized_root_of_trust::mldsa::committee::{Committee, CommitteeError};
use decentralized_root_of_trust::mldsa::signer::{
    decode_public_key, encode_public_key, verify, MlDsa65Signer, MlDsaError, PublicKey,
    PublicKeyError, Signature, SignatureError, PUBLIC_KEY_BYTES, SIGNATURE_BYTES,
};
use decentralized_root_of_trust::mldsa::status_list::{
    record_len, statement_bytes, MlDsaStatusList, MlDsaStatusListError, ALGORITHM_TAG,
    MAX_RECORD_BYTES,
};
use decentralized_root_of_trust::mldsa::verification::RawVerifier;
use ssz::SszEncoder;

const STATEMENT_DOMAIN: &[u8] = b"decentralized-root-of-trust/ml-dsa-65/status-list/v1\0";

fn signers(count: usize) -> Vec<MlDsa65Signer> {
    (0..count).map(|_| MlDsa65Signer::generate().unwrap()).collect()
}

fn public_keys(signers: &[MlDsa65Signer]) -> Vec<PublicKey> {
    signers.iter().map(|s| s.public_key()).collect()
}

fn anchor_wire(members: &[[u8; PUBLIC_KEY_BYTES]], threshold: u64) -> Vec<u8> {
    let mut buf = Vec::new();
    let members: Vec<[u8; PUBLIC_KEY_BYTES]> = members.to_vec();
    let mut encoder = SszEncoder::container(&mut buf, 12);
    encoder.append(&members);
    encoder.append(&threshold);
    encoder.finalize();
    buf
}

/// A record's container: tag, list, version, bitmap and signatures.
fn record_wire(
    alg: u8,
    list: &[[u8; 32]],
    version: u32,
    bitmap: &[u8],
    signatures: &[[u8; SIGNATURE_BYTES]],
) -> Vec<u8> {
    let mut buf = Vec::new();
    let (list, bitmap, signatures) = (list.to_vec(), bitmap.to_vec(), signatures.to_vec());
    let mut encoder = SszEncoder::container(&mut buf, 17);
    encoder.append(&alg);
    encoder.append(&list);
    encoder.append(&version);
    encoder.append(&bitmap);
    encoder.append(&signatures);
    encoder.finalize();
    buf
}

fn raw_signature(signature: &Signature) -> [u8; SIGNATURE_BYTES] {
    signature.as_bytes().try_into().unwrap()
}

#[test]
fn canonical_anchor_round_trips_and_preserves_member_indices() {
    let signers = signers(3);
    let committee = Committee::new(public_keys(&signers), 2).unwrap();
    let encoded = committee.to_bytes();
    let decoded = Committee::from_bytes(&encoded).unwrap();

    assert_eq!(decoded.to_bytes(), encoded);
    assert_eq!(decoded.threshold(), 2);
    assert_eq!(decoded.member_count(), 3);
    assert_eq!(decoded.index_of(&signers[0].public_key()), Some(0));
    assert_eq!(decoded.index_of(&signers[2].public_key()), Some(2));
    assert_eq!(decoded.anchor_id(), committee.anchor_id());
}

#[test]
fn an_anchor_is_the_container_of_its_members_and_threshold() {
    let signers = signers(2);
    let committee = Committee::new(public_keys(&signers), 1).unwrap();
    let keys: Vec<[u8; PUBLIC_KEY_BYTES]> =
        committee.members().iter().map(|k| k.as_bytes().try_into().unwrap()).collect();
    assert_eq!(committee.to_bytes(), anchor_wire(&keys, 1));
    assert_eq!(committee.to_bytes().len(), 12 + 2 * PUBLIC_KEY_BYTES);
}

#[test]
fn statement_is_bound_to_this_exact_anchor() {
    let signers = signers(3);
    let keys = public_keys(&signers);
    let committee = Committee::new(keys.clone(), 2).unwrap();
    let other_threshold = Committee::new(keys.clone(), 3).unwrap();
    let other_order =
        Committee::new(vec![keys[1].clone(), keys[0].clone(), keys[2].clone()], 2).unwrap();
    let list = [[0x11; 32], [0x22; 32]];
    let statement = committee.statement_for(&list, 7);
    let signature = signers[1].sign(&statement).unwrap();

    assert!(verify(&committee.members()[1], &statement, &signature));
    assert_ne!(statement, other_threshold.statement_for(&list, 7));
    assert_ne!(statement, other_order.statement_for(&list, 7));
    assert!(!verify(&committee.members()[1], &other_threshold.statement_for(&list, 7), &signature));
}

#[test]
fn rejects_invalid_threshold_duplicate_member_and_malformed_ssz() {
    let signer = MlDsa65Signer::generate().unwrap();
    let key = signer.public_key();

    assert_eq!(Committee::new(vec![], 1).err(), Some(CommitteeError::NoMembers));
    assert_eq!(
        Committee::new(vec![key.clone()], 0).err(),
        Some(CommitteeError::ThresholdOutside { t: 0, members: 1 })
    );
    assert_eq!(
        Committee::new(vec![key.clone()], 2).err(),
        Some(CommitteeError::ThresholdOutside { t: 2, members: 1 })
    );
    assert_eq!(
        Committee::new(vec![key.clone(), key], 1).err(),
        Some(CommitteeError::DuplicateMembers)
    );

    let committee = Committee::new(public_keys(&signers(2)), 1).unwrap();
    let mut bad_offset = committee.to_bytes();
    bad_offset[0] = 13;
    assert_eq!(Committee::from_bytes(&bad_offset).err(), Some(CommitteeError::NotSsz(SszError::OffsetSkipsVariableBytes(13))));

    let duplicated_key: [u8; PUBLIC_KEY_BYTES] =
        encode_public_key(&committee.members()[0]).try_into().unwrap();
    let duplicate_wire = anchor_wire(&[duplicated_key, duplicated_key], 1);
    assert_eq!(
        Committee::from_bytes(&duplicate_wire).err(),
        Some(CommitteeError::DuplicateMembers)
    );
}

#[test]
fn every_other_refusal_of_an_anchor_is_named() {
    assert_eq!(
        Committee::from_bytes(&vec![0; 3_997_709]).err(),
        Some(CommitteeError::TooLong { len: 3_997_709 })
    );
    let key: [u8; PUBLIC_KEY_BYTES] =
        encode_public_key(&signers(1)[0].public_key()).try_into().unwrap();
    assert_eq!(
        Committee::from_bytes(&anchor_wire(&[key], 2)).err(),
        Some(CommitteeError::ThresholdOutside { t: 2, members: 1 })
    );
    assert_eq!(
        Committee::from_bytes(&anchor_wire(&[], 1)).err(),
        Some(CommitteeError::NoMembers)
    );
    assert_eq!(
        Committee::from_bytes(&[1, 2]).err().unwrap().text(),
        "invalid ML-DSA committee SSZ: InvalidLengthPrefix { len: 2, expected: 4 }"
    );
}

#[test]
fn sign_verify_and_reject_wrong_message_or_key() {
    let signer = MlDsa65Signer::generate().unwrap();
    let other = MlDsa65Signer::generate().unwrap();
    let message = b"message of arbitrary length";
    let signature = signer.sign(message).unwrap();

    assert!(verify(&signer.public_key(), message, &signature));
    assert!(!verify(&other.public_key(), message, &signature));
    assert!(!verify(&signer.public_key(), b"a different message", &signature));
    let key = signer.public_key();
    let encoded = ml_dsa::EncodedVerifyingKey::<ml_dsa::MlDsa65>::try_from(key.as_bytes()).unwrap();
    let decoded = ml_dsa::Signature::<ml_dsa::MlDsa65>::try_from(signature.as_bytes()).unwrap();
    let outside = ml_dsa::VerifyingKey::decode(&encoded);
    assert!(outside.verify_with_context(message, b"", &decoded));
    assert!(!outside.verify_with_context(message, b"other", &decoded));
}

#[test]
fn accepts_empty_and_non_32_byte_messages() {
    let signer = MlDsa65Signer::generate().unwrap();
    let messages: [&[u8]; 3] = [b"", b"short", &[0x42; 257]];
    for message in messages {
        let signature = signer.sign(message).unwrap();
        assert!(verify(&signer.public_key(), message, &signature));
    }
}

#[test]
fn seed_restores_identity_and_repeated_signing_is_safe() {
    let signer = MlDsa65Signer::generate().unwrap();
    let seed = signer.export_seed();
    let restored = MlDsa65Signer::from_seed(&seed);
    let message = [0x24; 32];

    assert!(signer.public_key().same(&restored.public_key()));
    assert_eq!(signer.public_key().as_bytes(), restored.public_key().as_bytes());
    let first = signer.sign(&message).unwrap();
    let second = restored.sign(&message).unwrap();
    assert!(verify(&signer.public_key(), &message, &first));
    assert!(verify(&signer.public_key(), &message, &second));
    assert_ne!(first.as_bytes(), second.as_bytes());
}

#[test]
fn a_public_key_is_decoded_from_its_own_length_only() {
    let signer = MlDsa65Signer::from_seed(&[5; 32]);
    let bytes = encode_public_key(&signer.public_key());
    assert_eq!(bytes.len(), PUBLIC_KEY_BYTES);
    assert!(decode_public_key(&bytes).unwrap().same(&signer.public_key()));
    assert_eq!(decode_public_key(&bytes[1..]).err(), Some(PublicKeyError::Length));
    let other = MlDsa65Signer::from_seed(&[6; 32]).public_key();
    assert!(!decode_public_key(&bytes).unwrap().same(&other));
}

#[test]
fn a_signature_is_decoded_from_its_one_encoding_only() {
    let signature = MlDsa65Signer::from_seed(&[5; 32]).sign(b"m").unwrap();
    let again = Signature::from_bytes(signature.as_bytes()).unwrap();
    assert_eq!(again.as_bytes(), signature.as_bytes());
    assert_eq!(
        Signature::from_bytes(&signature.as_bytes()[1..]).err(),
        Some(SignatureError::Malformed)
    );
    assert!(Signature::from_bytes(&[0xff; SIGNATURE_BYTES]).is_err());
}

#[test]
fn round_trip_preserves_sorted_signer_mapping() {
    let first = MlDsa65Signer::generate().unwrap();
    let second = MlDsa65Signer::generate().unwrap();
    let list = vec![[7; 32], [8; 32]];
    let anchor = [3; 48];
    let message = statement_bytes(&anchor, &list, 9);
    let record = MlDsaStatusList::new(
        list.clone(),
        9,
        5,
        vec![(4, second.sign(&message).unwrap()), (1, first.sign(&message).unwrap())],
    )
    .unwrap();
    let encoded = record.to_bytes();
    assert_eq!(encoded.len(), 17 + 2 * 32 + 1 + 2 * SIGNATURE_BYTES);
    let decoded = MlDsaStatusList::from_bytes(&encoded).unwrap();
    assert_eq!(decoded.to_bytes(), encoded);
    assert_eq!(decoded.list(), list);
    assert_eq!(decoded.version(), 9);
    assert_eq!(decoded.signer_slots(), 5);
    assert_eq!(decoded.signer_indices(), vec![1, 4]);
    assert!(verify(&first.public_key(), &message, &decoded.signatures()[0]));
    assert!(verify(&second.public_key(), &message, &decoded.signatures()[1]));
}

#[test]
fn a_record_is_the_container_of_its_parts() {
    let signer = MlDsa65Signer::from_seed(&[9; 32]);
    let signature = signer.sign(b"fixture").unwrap();
    let record =
        MlDsaStatusList::new(vec![[7; 32]], 3, 5, vec![(4, signature.clone())]).unwrap();
    let wire = record_wire(ALGORITHM_TAG, &[[7; 32]], 3, &[0b0011_0000], &[raw_signature(&signature)]);
    assert_eq!(record.to_bytes(), wire);
    assert_eq!(record_len(5, 1, 1), Some(wire.len()));
    assert_eq!(record_len(4096, 0, 0), Some(17 + 513));
    assert_eq!(record_len(usize::MAX - 8, usize::MAX / 32, 0), None);
    assert_eq!(record.signer_count(), 1);
    assert_eq!(record.signature_count(), 1);
}

#[test]
fn empty_snapshot_round_trips() {
    let signer = MlDsa65Signer::generate().unwrap();
    let anchor = [3; 48];
    let message = statement_bytes(&anchor, &[], 0);
    let record =
        MlDsaStatusList::new(vec![], 0, 1, vec![(0, signer.sign(&message).unwrap())]).unwrap();
    let decoded = MlDsaStatusList::from_bytes(&record.to_bytes()).unwrap();
    assert!(decoded.list().is_empty());
    assert_eq!(decoded.signer_indices(), vec![0]);
    assert!(verify(&signer.public_key(), &message, &decoded.signatures()[0]));
}

#[test]
fn statement_binds_anchor_algorithm_version_order_and_list() {
    let anchor = [3; 48];
    let list = [[7; 32], [8; 32]];
    let message = statement_bytes(&anchor, &list, 9);
    let signer = MlDsa65Signer::generate().unwrap();
    let signature = signer.sign(&message).unwrap();
    let framed = |alg: u8| {
        let mut buf = STATEMENT_DOMAIN.to_vec();
        let mut container = Vec::new();
        let mut encoder = SszEncoder::container(&mut container, 57);
        encoder.append(&alg);
        encoder.append(&anchor);
        encoder.append(&9u32);
        encoder.append(&list.to_vec());
        encoder.finalize();
        buf.extend_from_slice(&container);
        buf
    };
    assert_eq!(message, framed(ALGORITHM_TAG));
    for other in [
        framed(1),
        statement_bytes(&[4; 48], &list, 9),
        statement_bytes(&anchor, &list, 10),
        statement_bytes(&anchor, &list[..1], 9),
        statement_bytes(&anchor, &[list[1], list[0]], 9),
    ] {
        assert_ne!(message, other);
        assert!(!verify(&signer.public_key(), &other, &signature));
    }
    assert!(message.starts_with(STATEMENT_DOMAIN));
}

#[test]
fn rejects_duplicate_out_of_range_and_oversized_committee() {
    let signer = MlDsa65Signer::generate().unwrap();
    let signature = signer.sign(b"fixture").unwrap();
    assert_eq!(
        MlDsaStatusList::new(vec![], 0, 0, vec![]).err(),
        Some(MlDsaStatusListError::CommitteeSize { members: 0 })
    );
    assert_eq!(
        MlDsaStatusList::new(vec![], 0, 2049, vec![]).err(),
        Some(MlDsaStatusListError::CommitteeSize { members: 2049 })
    );
    assert_eq!(
        MlDsaStatusList::new(vec![], 0, 1, vec![(1, signature.clone())]).err(),
        Some(MlDsaStatusListError::SignerOutside { index: 1 })
    );
    assert_eq!(
        MlDsaStatusList::new(vec![], 0, 2, vec![(1, signature.clone()), (1, signature.clone())])
            .err(),
        Some(MlDsaStatusListError::DuplicateSigner)
    );
    assert_eq!(
        MlDsaStatusList::new(vec![], 0, 1, vec![(0, signature.clone()), (1, signature)]).err(),
        Some(MlDsaStatusListError::TooManySignatures)
    );
}

#[test]
fn a_record_over_the_ceiling_is_refused() {
    let entries = MAX_RECORD_BYTES / 32 + 1;
    assert_eq!(
        MlDsaStatusList::new(vec![[0; 32]; entries], 0, 1, vec![]).err(),
        Some(MlDsaStatusListError::TooLong)
    );
    assert_eq!(
        MlDsaStatusList::from_bytes(&vec![0; MAX_RECORD_BYTES + 1]).err(),
        Some(MlDsaStatusListError::TooLong)
    );
}

#[test]
fn rejects_mismatched_bitmap_and_wrong_algorithm_tag() {
    let signer = MlDsa65Signer::generate().unwrap();
    let signature = signer.sign(b"fixture").unwrap();
    let raw = raw_signature(&signature);
    let record = MlDsaStatusList::new(vec![], 0, 2, vec![(1, signature)]).unwrap();
    assert_eq!(record.to_bytes(), record_wire(ALGORITHM_TAG, &[], 0, &[0b110], &[raw]));
    let refusal = MlDsaStatusList::from_bytes(&record_wire(1, &[], 0, &[0b110], &[raw])).err().unwrap();
    assert_eq!(refusal, MlDsaStatusListError::WrongTag(1));
    assert!(refusal.text().contains("algorithm tag"));
    assert_eq!(
        MlDsaStatusList::from_bytes(&record_wire(ALGORITHM_TAG, &[], 0, &[0b110], &[])).err(),
        Some(MlDsaStatusListError::Population)
    );
}

#[test]
fn rejects_malformed_signature_and_ssz_offset() {
    let signer = MlDsa65Signer::generate().unwrap();
    let signature = signer.sign(b"fixture").unwrap();
    let record = MlDsaStatusList::new(vec![], 0, 2, vec![(1, signature)]).unwrap();
    let bad = record_wire(ALGORITHM_TAG, &[], 0, &[0b110], &[[0xff; SIGNATURE_BYTES]]);
    assert_eq!(
        MlDsaStatusList::from_bytes(&bad).err(),
        Some(MlDsaStatusListError::MalformedSignature)
    );

    let mut bytes = record.to_bytes();
    bytes[1] = 16;
    assert_eq!(
        MlDsaStatusList::from_bytes(&bytes).err(),
        Some(MlDsaStatusListError::NotSsz(SszError::OffsetIntoFixedPortion(16)))
    );
}

#[test]
fn authenticates_quorum_and_rejects_every_changed_binding() {
    let signers = signers(3);
    let committee = Committee::new(public_keys(&signers), 2).unwrap();
    let node = RawVerifier::new(committee.clone());
    let list = vec![[1; 32], [2; 32]];
    let version = 7;
    let statement = committee.statement_for(&list, version);
    let first = signers[0].sign(&statement).unwrap();
    let second = signers[2].sign(&statement).unwrap();
    let signatures = vec![(0, first.clone()), (2, second.clone())];

    let record = MlDsaStatusList::new(list.clone(), version, 3, signatures.clone()).unwrap();
    let decoded = MlDsaStatusList::from_bytes(&record.to_bytes()).unwrap();
    assert!(node.verify_status_list(&decoded));

    let short = MlDsaStatusList::new(list.clone(), version, 3, vec![(0, first.clone())]).unwrap();
    assert!(!node.verify_status_list(&short));
    let wrong_bitmap_length =
        MlDsaStatusList::new(list.clone(), version, 4, signatures.clone()).unwrap();
    assert!(!node.verify_status_list(&wrong_bitmap_length));
    let wrong_list = MlDsaStatusList::new(vec![[3; 32]], version, 3, signatures.clone()).unwrap();
    assert!(!node.verify_status_list(&wrong_list));
    let wrong_version =
        MlDsaStatusList::new(list.clone(), version + 1, 3, signatures.clone()).unwrap();
    assert!(!node.verify_status_list(&wrong_version));
    let wrong_signer =
        MlDsaStatusList::new(list.clone(), version, 3, vec![(0, first), (1, second)]).unwrap();
    assert!(!node.verify_status_list(&wrong_signer));

    let outsider = MlDsa65Signer::generate().unwrap();
    let outsider_signature = outsider.sign(&statement).unwrap();
    let outsider_record = MlDsaStatusList::new(
        list.clone(),
        version,
        3,
        vec![(0, outsider_signature), (2, signatures[1].1.clone())],
    )
    .unwrap();
    assert!(!node.verify_status_list(&outsider_record));

    let members: Vec<PublicKey> = committee.members().to_vec();
    let other_anchor = Committee::new(members, 3).unwrap();
    assert!(!RawVerifier::new(other_anchor).verify_status_list(&record));
    assert!(MlDsaStatusList::from_bytes(&record.to_bytes()[..12]).is_err());
}

#[test]
fn the_verdicts_over_the_signatures_decide() {
    let signers = signers(3);
    let committee = Committee::new(public_keys(&signers), 2).unwrap();
    let node = RawVerifier::new(committee.clone());
    let statement = committee.statement_for(&[], 1);
    let pairs: Vec<(usize, Signature)> =
        (0..2).map(|i| (i, signers[i].sign(&statement).unwrap())).collect();
    let record = MlDsaStatusList::new(vec![], 1, 3, pairs).unwrap();
    assert!(node.has_quorum_shape(&record));
    assert!(node.authorizes(&record, &[true, true]));
    assert!(!node.authorizes(&record, &[true, false]));
    assert!(node.verify_status_list(&record));
}

#[test]
fn a_drawn_seed_is_the_identity_and_no_seed_is_none() {
    let signer = MlDsa65Signer::from_drawn(Some([5; 32])).ok().unwrap();
    assert_eq!(signer.export_seed(), [5; 32]);
    assert!(signer.public_key().same(&MlDsa65Signer::from_seed(&[5; 32]).public_key()));
    assert_eq!(MlDsa65Signer::from_drawn(None).err(), Some(MlDsaError::Randomness));
}

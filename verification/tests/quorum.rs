//! Raw records against an anchor: what a quorum of signatures authorizes.
//!
//! The signature scheme is a stand-in: a signature is a digest over the key, the slot
//! and the message, stretched to the length of a real one.
use decentralized_root_of_trust::hash::hash_any;
use decentralized_root_of_trust::node::raw_verifier::{
    SignatureCheck, VerifierError, VerifierNode,
};
use decentralized_root_of_trust::protocol::committee::Committee;
use decentralized_root_of_trust::protocol::status_list::{
    Algorithms, StatusList, StatusListError,
};
use decentralized_root_of_trust::protocol::xmss::{
    XmssPublicKey, XmssSignature, SIGNATURE_SSZ_LEN,
};

/// Deliberately not a multiple of 8, so that the bitmap's sentinel does not land on a
/// byte boundary.
const N: usize = 5;
const T: usize = 3;
const GENESIS: u32 = 100;

fn seed(file: u8, ns: u8, member: u8) -> [u8; 32] {
    let mut s = [0u8; 32];
    s[0] = file;
    s[1] = ns;
    s[2] = member;
    s
}

fn key_of(seed: &[u8; 32]) -> XmssPublicKey {
    let mut bytes = hash_any(seed);
    for word in 0..8 {
        bytes[4 * word + 3] &= 0x3f;
    }
    XmssPublicKey::from_bytes(&bytes).unwrap()
}

fn signature_bytes(key: &XmssPublicKey, slot: u32, message: &[u8; 32]) -> Vec<u8> {
    let mut bytes = Vec::new();
    let mut block: u32 = 0;
    while bytes.len() < SIGNATURE_SSZ_LEN {
        let mut input = key.as_bytes().to_vec();
        input.extend_from_slice(&slot.to_le_bytes());
        input.extend_from_slice(message);
        input.extend_from_slice(&block.to_le_bytes());
        bytes.extend_from_slice(&hash_any(&input));
        block += 1;
    }
    bytes.truncate(SIGNATURE_SSZ_LEN);
    bytes
}

fn sign(seed: &[u8; 32], slot: u32, message: &[u8; 32]) -> XmssSignature {
    XmssSignature::from_bytes(&signature_bytes(&key_of(seed), slot, message)).unwrap()
}

fn holds(check: &SignatureCheck) -> bool {
    check.signature.as_bytes() == signature_bytes(&check.key, check.slot, &check.message)
}

fn committee_in(file: u8, ns: u8) -> (Vec<[u8; 32]>, VerifierNode) {
    let keys: Vec<[u8; 32]> = (0..N).map(|i| seed(file, ns, i as u8)).collect();
    let members = keys.iter().map(key_of).collect();
    (keys, VerifierNode::new(Committee::checked(members, T, GENESIS).unwrap()))
}

fn quorum(
    keys: &[[u8; 32]],
    c: &Committee,
    list: &[[u8; 32]],
    version: u32,
    signers: &[usize],
) -> Vec<(usize, XmssSignature)> {
    let message = c.message_for(Algorithms::WotsXmss, list, version);
    let slot = c.slot_for(version).expect("slot");
    signers.iter().map(|&i| (i, sign(&keys[i], slot, &message))).collect()
}

fn record(list: Vec<[u8; 32]>, version: u32, sigs: Vec<(usize, XmssSignature)>) -> StatusList {
    StatusList::new(Algorithms::WotsXmss, list, version, N, sigs).expect("well-formed")
}

fn refused_for_the_right_reason(file: u8) {
    let (keys, node) = committee_in(file, 1);
    let list = vec![hash_any(b"vc-1")];
    let message = node.get_committee().message_for(Algorithms::WotsXmss, &list, 0);
    let slot = GENESIS;

    let sig = sign(&keys[0], slot, &message);
    assert!(node.verify(&key_of(&keys[0]), &sig, &message, slot, holds).is_ok());

    let outsider = seed(file, 1, 200);
    let out_sig = sign(&outsider, slot, &message);
    assert!(matches!(
        node.verify(&key_of(&outsider), &out_sig, &message, slot, holds),
        Err(VerifierError::NotAMemberOfCommittee)
    ));

    let other = node.get_committee().message_for(Algorithms::WotsXmss, &[hash_any(b"vc-2")], 0);
    assert!(matches!(
        node.verify(&key_of(&keys[0]), &sig, &other, slot, holds),
        Err(VerifierError::SignatureVerificationError)
    ));
    assert!(matches!(
        node.verify(&key_of(&keys[0]), &sig, &message, slot + 1, holds),
        Err(VerifierError::SignatureVerificationError)
    ));
}

fn exposes_the_anchor(file: u8) {
    let (keys, node) = committee_in(file, 3);
    let c = node.get_committee();
    assert_eq!(c.threshold(), T);
    assert_eq!(c.genesis_slot(), GENESIS);
    assert_eq!(c.members().len(), N);
    for (i, key) in keys.iter().enumerate() {
        assert!(c.members()[i].same(&key_of(key)), "member {i} is not the key supplied");
    }
    assert_eq!(c.slot_for(0), Some(GENESIS));
    assert_eq!(c.slot_for(7), Some(GENESIS + 7));
}

fn legitimate_quorum(file: u8) {
    let (keys, node) = committee_in(file, 5);
    let list = vec![hash_any(b"vc-1")];
    let sigs = quorum(&keys, node.get_committee(), &list, 0, &[0, 2, 4]);
    let sl = record(list.clone(), 0, sigs);

    assert_eq!(sl.signer_count(), 3);
    assert_eq!(sl.signer_indices(), vec![0, 2, 4]);
    assert!(node.verify_status_list(&sl, holds));

    let bytes = sl.to_bytes();
    let back = StatusList::from_bytes(&bytes).expect("decodes");
    assert!(node.verify_status_list(&back, holds));
}

fn order_does_not_matter(file: u8) {
    let (keys, node) = committee_in(file, 6);
    let list = vec![hash_any(b"vc-1")];
    let sigs = quorum(&keys, node.get_committee(), &list, 0, &[0, 2, 4]);
    let mut shuffled = sigs.clone();
    shuffled.reverse();

    let a = record(list.clone(), 0, sigs);
    let b = record(list.clone(), 0, shuffled);
    assert_eq!(a.to_bytes(), b.to_bytes());
    assert!(node.verify_status_list(&b, holds));
}

fn no_member_twice(file: u8) {
    let (keys, node) = committee_in(file, 7);
    let list = vec![hash_any(b"vc-1")];
    let mut sigs = quorum(&keys, node.get_committee(), &list, 0, &[0]);
    sigs.push(sigs[0].clone());
    sigs.push(sigs[0].clone());

    assert_eq!(sigs.len(), T);
    assert_eq!(
        StatusList::new(Algorithms::WotsXmss, list, 0, N, sigs).err(),
        Some(StatusListError::DuplicateSigner)
    );
}

fn below_threshold(file: u8) {
    let (keys, node) = committee_in(file, 8);
    let list = vec![hash_any(b"vc-1")];
    let sigs = quorum(&keys, node.get_committee(), &list, 0, &[1, 3]);
    assert!(!node.verify_status_list(&record(list, 0, sigs), holds));
}

fn relabelled(file: u8) {
    let (keys, node) = committee_in(file, 9);
    let list = vec![hash_any(b"vc-1")];
    let sigs = quorum(&keys, node.get_committee(), &list, 0, &[0, 1, 2]);
    assert!(!node.verify_status_list(&record(list, 1, sigs), holds));
}

fn tampered(file: u8) {
    let (keys, node) = committee_in(file, 10);
    let list = vec![hash_any(b"vc-1")];
    let sigs = quorum(&keys, node.get_committee(), &list, 0, &[0, 1, 2]);
    let mut tampered = list.clone();
    tampered.push(hash_any(b"FAKE-REVOCATION"));
    assert!(!node.verify_status_list(&record(tampered, 0, sigs), holds));
}

fn re_attributed(file: u8) {
    let (keys, node) = committee_in(file, 11);
    let list = vec![hash_any(b"vc-1")];
    let sigs = quorum(&keys, node.get_committee(), &list, 0, &[0, 1, 2]);
    let moved = sigs.into_iter().map(|(i, s)| (i + 2, s)).collect();
    assert!(!node.verify_status_list(&record(list, 0, moved), holds));
}

fn read_offset(bytes: &[u8], at: usize) -> usize {
    u32::from_le_bytes(bytes[at..at + 4].try_into().expect("offset")) as usize
}

/// Where the one byte of the signer bitmap stands, found through the offset table.
fn bitmap_byte(bytes: &[u8], expected: u8) -> usize {
    const SIGNERS_OFFSET: usize = 1 + 4 + 4;
    const SIGNATURES_OFFSET: usize = SIGNERS_OFFSET + 4;
    let at = read_offset(bytes, SIGNERS_OFFSET);
    let end = read_offset(bytes, SIGNATURES_OFFSET);
    assert_eq!(end, at + 1, "test records carry a one-byte bitmap");
    assert_eq!(bytes[at], expected);
    at
}

fn degenerate_anchor() {
    let degenerate = Committee::new_unchecked(Vec::new(), 0, GENESIS);
    let encoded = degenerate.to_bytes();
    let node = VerifierNode::new(degenerate);

    let empty = StatusList::new(Algorithms::WotsXmss, vec![hash_any(b"vc-1")], 0, 0, vec![])
        .expect("a record with no signers is well-formed, just worthless");
    assert_eq!(empty.signer_count(), 0);
    assert_eq!(empty.signatures().len(), 0);
    assert!(
        !node.verify_status_list(&empty, holds),
        "a threshold of zero must never authorize anything"
    );
    assert!(Committee::from_bytes(&encoded).is_err());
}

fn other_committee_size(file: u8) {
    let (keys, node) = committee_in(file, 15);
    let list = vec![hash_any(b"vc-1")];
    let sigs = quorum(&keys, node.get_committee(), &list, 0, &[1, 2, 3]);

    let honest = record(list.clone(), 0, sigs.clone());
    assert!(node.verify_status_list(&honest, holds));
    assert_eq!(honest.signer_slots(), N);

    let mis_sized = StatusList::new(Algorithms::WotsXmss, list, 0, 8, sigs)
        .expect("well-formed, just built for the wrong committee");
    assert_eq!(mis_sized.signer_slots(), 8);
    assert_eq!(
        mis_sized.signer_indices(),
        vec![1, 2, 3],
        "the signer set is the honest one; only the width differs"
    );
    assert!(
        !node.verify_status_list(&mis_sized, holds),
        "a bitmap sized for another committee must be refused"
    );
}

fn extra_bit(file: u8) {
    let (keys, node) = committee_in(file, 12);
    let list = vec![hash_any(b"vc-1")];
    let sigs = quorum(&keys, node.get_committee(), &list, 0, &[0, 1, 2]);
    let sl = record(list.clone(), 0, sigs);
    assert!(node.verify_status_list(&sl, holds));

    let mut bytes = sl.to_bytes();
    let at = bitmap_byte(&bytes, 0b0010_0111);
    bytes[at] |= 1 << 3;
    assert_eq!(
        StatusList::from_bytes(&bytes).err(),
        Some(StatusListError::Population { named: 4, present: 3 }),
        "4 bits against 3 signatures must not decode"
    );
}

fn every_bitmap_byte(file: u8) {
    let (keys, node) = committee_in(file, 14);
    let list = vec![hash_any(b"vc-1")];
    let sigs = quorum(&keys, node.get_committee(), &list, 0, &[1, 2, 3]);
    let sl = record(list.clone(), 0, sigs);
    assert!(node.verify_status_list(&sl, holds), "the record starts out honest");

    let bytes = sl.to_bytes();
    const HONEST: u8 = 0b0010_1110;
    let at = bitmap_byte(&bytes, HONEST);

    let mut decoded = 0;
    let mut accepted = 0;
    for byte in 0..=u8::MAX {
        let mut forged = bytes.clone();
        forged[at] = byte;

        let Ok(sl) = StatusList::from_bytes(&forged) else {
            continue;
        };
        decoded += 1;

        let slots = sl.signer_slots();
        for i in sl.signer_indices() {
            assert!(i < slots, "bitmap {byte:#010b}: index {i} is outside the {slots} declared");
        }

        if node.verify_status_list(&sl, holds) {
            accepted += 1;
            assert_eq!(byte, HONEST, "bitmap {byte:#010b} verified, and it is not the honest one");
        }
    }

    assert_eq!(accepted, 1, "exactly one bitmap may authorize this record");
    assert!(decoded > 1, "only {decoded} of 256 bitmaps decoded");
}

fn outsider_has_no_index(file: u8) {
    let (keys, node) = committee_in(file, 13);
    let list = vec![hash_any(b"vc-1")];
    let out = seed(file, 13, 200);

    let message = node.get_committee().message_for(Algorithms::WotsXmss, &list, 0);
    let slot = node.get_committee().slot_for(0).expect("slot");
    let outsider = sign(&out, slot, &message);
    let mut sigs = quorum(&keys, node.get_committee(), &list, 0, &[0, 1]);
    sigs.push((2, outsider.clone()));
    assert!(!node.verify_status_list(&record(list.clone(), 0, sigs), holds));

    let mut beyond = quorum(&keys, node.get_committee(), &list, 1, &[0, 1, 2]);
    beyond.push((N, outsider));
    assert_eq!(
        StatusList::new(Algorithms::WotsXmss, list, 1, N, beyond).err(),
        Some(StatusListError::SignerOutside { index: N, members: N })
    );
}

#[test]
fn raw_verifier_a_signature_is_refused_for_the_right_reason() {
    refused_for_the_right_reason(7);
}

#[test]
fn verifier_node_a_signature_is_refused_for_the_right_reason() {
    refused_for_the_right_reason(2);
}

#[test]
fn raw_verifier_the_node_exposes_the_anchor_it_was_built_with() {
    exposes_the_anchor(7);
}

#[test]
fn verifier_node_the_node_exposes_the_anchor_it_was_built_with() {
    exposes_the_anchor(2);
}

#[test]
fn raw_verifier_a_legitimate_quorum_verifies() {
    legitimate_quorum(7);
}

#[test]
fn verifier_node_a_legitimate_quorum_verifies() {
    legitimate_quorum(2);
}

#[test]
fn a_member_names_itself_with_index_of_and_the_predicate_agrees() {
    let (keys, node) = committee_in(7, 16);
    let c = node.get_committee();
    let list = vec![hash_any(b"vc-1")];
    let message = c.message_for(Algorithms::WotsXmss, &list, 0);
    let slot = c.slot_for(0).expect("slot");

    let mine: Vec<usize> = [0usize, 2, 4]
        .iter()
        .map(|&i| c.index_of(&key_of(&keys[i])).expect("a member finds itself"))
        .collect();
    assert_eq!(mine, vec![0, 2, 4]);

    let sigs: Vec<(usize, XmssSignature)> =
        mine.iter().map(|&i| (i, sign(&keys[i], slot, &message))).collect();
    assert!(node.verify_status_list(&record(list.clone(), 0, sigs.clone()), holds));

    let mut mislabelled = sigs;
    mislabelled[2].0 = 3;
    assert!(!node.verify_status_list(&record(list, 0, mislabelled), holds));

    assert_eq!(c.index_of(&key_of(&seed(7, 16, 200))), None);
}

#[test]
fn raw_verifier_signer_order_does_not_change_the_encoding() {
    order_does_not_matter(7);
}

#[test]
fn verifier_node_signer_order_does_not_change_the_encoding() {
    order_does_not_matter(2);
}

#[test]
fn raw_verifier_a_member_cannot_stand_in_for_the_quorum_twice() {
    no_member_twice(7);
}

#[test]
fn verifier_node_a_member_cannot_stand_in_for_the_quorum_twice() {
    no_member_twice(2);
}

#[test]
fn raw_verifier_below_threshold_is_refused() {
    below_threshold(7);
}

#[test]
fn verifier_node_below_threshold_is_refused() {
    below_threshold(2);
}

#[test]
fn raw_verifier_a_relabelled_version_is_refused() {
    relabelled(7);
}

#[test]
fn verifier_node_a_relabelled_version_is_refused() {
    relabelled(2);
}

#[test]
fn raw_verifier_a_tampered_list_is_refused() {
    tampered(7);
}

#[test]
fn verifier_node_a_tampered_list_is_refused() {
    tampered(2);
}

#[test]
fn raw_verifier_signatures_cannot_be_re_attributed() {
    re_attributed(7);
}

#[test]
fn verifier_node_signatures_cannot_be_re_attributed() {
    re_attributed(2);
}

#[test]
fn raw_verifier_a_degenerate_anchor_cannot_authorize_an_unsigned_record() {
    degenerate_anchor();
}

#[test]
fn verifier_node_a_degenerate_anchor_cannot_authorize_an_unsigned_record() {
    degenerate_anchor();
}

#[test]
fn raw_verifier_a_record_built_for_another_committee_size_is_refused() {
    other_committee_size(7);
}

#[test]
fn verifier_node_a_record_built_for_another_committee_size_is_refused() {
    other_committee_size(2);
}

#[test]
fn raw_verifier_an_extra_bit_is_caught_at_the_decoding_boundary() {
    extra_bit(7);
}

#[test]
fn verifier_node_an_extra_bit_is_caught_at_the_decoding_boundary() {
    extra_bit(2);
}

#[test]
fn raw_verifier_no_bitmap_byte_can_name_a_member_the_committee_does_not_have() {
    every_bitmap_byte(7);
}

#[test]
fn verifier_node_no_bitmap_byte_can_name_a_member_the_committee_does_not_have() {
    every_bitmap_byte(2);
}

#[test]
fn raw_verifier_an_outsider_has_no_index_to_occupy() {
    outsider_has_no_index(7);
}

#[test]
fn verifier_node_an_outsider_has_no_index_to_occupy() {
    outsider_has_no_index(2);
}

#[test]
fn the_checks_of_a_record_and_their_verdicts_decide() {
    let (keys, node) = committee_in(7, 20);
    let list = vec![hash_any(b"vc-1")];
    let sigs = quorum(&keys, node.get_committee(), &list, 0, &[4, 0, 2]);
    let sl = record(list, 0, sigs);
    let checks = node.checks(&sl).expect("the record has the shape of a quorum");
    assert_eq!(checks.len(), 3);
    assert!(checks[1].key.same(&key_of(&keys[2])));
    assert!(checks.iter().all(holds));
    assert!(node.authorizes(&sl, &[true, true, true]));
    assert!(!node.authorizes(&sl, &[true, false, true]));
    assert!(!node.authorizes(&sl, &[true, true]));
    let short = record(vec![], 0, vec![]);
    assert!(node.checks(&short).is_none());
}

#[test]
fn a_version_past_the_last_slot_authorizes_nothing() {
    let keys: Vec<[u8; 32]> = (0..N).map(|i| seed(7, 21, i as u8)).collect();
    let members = keys.iter().map(key_of).collect();
    let node = VerifierNode::new(Committee::checked(members, 1, u32::MAX).unwrap());
    assert_eq!(node.get_committee().slot_for(1), None);
    let last = quorum(&keys, node.get_committee(), &[], 0, &[0]);
    assert!(node.verify_status_list(&record(vec![], 0, last.clone()), holds));
    assert!(!node.verify_status_list(&record(vec![], 1, last), holds));
}

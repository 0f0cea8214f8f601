//! Relying parties: a record is verified first, and only then may move the mark.
use decentralized_root_of_trust::hash::hash_any;
use decentralized_root_of_trust::node::raw_node::RawNode;
use decentralized_root_of_trust::node::raw_verifier::SignatureCheck;
use decentralized_root_of_trust::node::snark_node::SnarkNode;
use decentralized_root_of_trust::node::snark_verifier::{
    canonical_proof, Aggregate, PQSNARKVerifierModule, ProofError, SignerGroup,
};
use decentralized_root_of_trust::node::Outcome;
use decentralized_root_of_trust::protocol::committee::Committee;
use decentralized_root_of_trust::protocol::status_list::{Algorithms, SnarkStatusList, StatusList};
use decentralized_root_of_trust::protocol::xmss::{
    XmssPublicKey, XmssSignature, SIGNATURE_SSZ_LEN,
};
use decentralized_root_of_trust::state::freshness::HighWaterMark;
use decentralized_root_of_trust::state::{Locking, Stored};

const N: usize = 5;
const T: usize = 3;
const GENESIS: u32 = 100;

fn key(ns: u8, member: u8) -> XmssPublicKey {
    let mut bytes = [0u8; 32];
    bytes[0] = 9;
    bytes[4] = ns;
    bytes[8] = member;
    XmssPublicKey::from_bytes(&bytes).unwrap()
}

fn committee_in(ns: u8) -> Committee {
    Committee::checked((0..N).map(|i| key(ns, i as u8)).collect(), T, GENESIS).unwrap()
}

fn new_mark(committee: &Committee) -> HighWaterMark {
    let nothing = Stored::Missing("no such file".to_string());
    HighWaterMark::create("mark", &committee.to_bytes(), Locking::Acquired, nothing).unwrap().0
}

fn signature_bytes(key: &XmssPublicKey, slot: u32, message: &[u8; 32]) -> Vec<u8> {
    let mut input = key.as_bytes().to_vec();
    input.extend_from_slice(&slot.to_le_bytes());
    input.extend_from_slice(message);
    hash_any(&input).iter().copied().cycle().take(SIGNATURE_SSZ_LEN).collect()
}

fn holds(check: &SignatureCheck) -> bool {
    check.signature.as_bytes() == signature_bytes(&check.key, check.slot, &check.message)
}

fn stores(_line: &str) -> Result<(), String> {
    Ok(())
}

fn record(committee: &Committee, list: &[[u8; 32]], version: u32, signers: &[usize]) -> Vec<u8> {
    let message = committee.message_for(Algorithms::WotsXmss, list, version);
    let slot = committee.slot_for(version).expect("slot");
    let signatures = signers
        .iter()
        .map(|&i| {
            let bytes = signature_bytes(&committee.members()[i], slot, &message);
            (i, XmssSignature::from_bytes(&bytes).unwrap())
        })
        .collect();
    StatusList::new(Algorithms::WotsXmss, list.to_vec(), version, N, signatures)
        .expect("well-formed record")
        .to_bytes()
}

fn raw_node_in(ns: u8) -> RawNode {
    let committee = committee_in(ns);
    let mark = new_mark(&committee);
    RawNode::new(committee, mark)
}

#[test]
fn a_quorum_is_accepted_once_and_the_same_bytes_never_again() {
    let mut node = raw_node_in(1);
    let list = vec![hash_any(b"vc-1")];
    let bytes = record(node.committee(), &list, 0, &[0, 2, 4]);

    assert_eq!(node.accept(&bytes, holds, stores), Outcome::Accepted { version: 0 });
    assert_eq!(node.high_water(), Some(0));
    assert_eq!(node.accept(&bytes, holds, stores), Outcome::Stale { version: 0, mark: 0 });
    assert_eq!(node.high_water(), Some(0));
}

#[test]
fn a_record_that_does_not_verify_cannot_move_the_mark() {
    let mut node = raw_node_in(2);

    let list = vec![hash_any(b"vc-hostile")];
    let short = record(node.committee(), &list, 5, &[0, 1]);
    assert_eq!(node.accept(&short, holds, stores), Outcome::Refused);
    assert_eq!(node.high_water(), None, "the mark must not have moved");

    let list = vec![hash_any(b"vc-1")];
    let honest = record(node.committee(), &list, 0, &[0, 1, 2]);
    assert_eq!(node.accept(&honest, holds, stores), Outcome::Accepted { version: 0 });
}

#[test]
fn bytes_that_are_not_a_record_are_refused_without_touching_the_gate() {
    let mut node = raw_node_in(3);
    assert_eq!(node.accept(&[], holds, stores), Outcome::Refused);
    assert_eq!(node.accept(&[0xff; 64], holds, stores), Outcome::Refused);
    assert_eq!(node.high_water(), None);
}

#[test]
fn a_version_that_cannot_be_stored_is_not_accepted() {
    let mut node = raw_node_in(4);
    let bytes = record(node.committee(), &[], 2, &[0, 1, 2]);
    assert_eq!(
        node.accept(&bytes, holds, |line| {
            assert!(line.ends_with(" 2\n"));
            Err("disk full".to_string())
        }),
        Outcome::Refused
    );
    assert_eq!(node.high_water(), None);
    assert_eq!(node.accept(&bytes, holds, stores).accepted(), Some(2));
    assert_eq!(Outcome::Refused.accepted(), None);
    assert_eq!(node.predicate().get_committee().to_bytes(), node.committee().to_bytes());
}

// ---- aggregates --------------------------------------------------------------

/// A stand-in proof: the digest of the message, the slot, and the indices of members.
fn proof_for(committee: &Committee, list: &[[u8; 32]], version: u32, signers: &[u8]) -> Vec<u8> {
    let mut bytes = committee.message_for(Algorithms::WotsXmss, list, version).to_vec();
    bytes.extend_from_slice(&committee.slot_for(version).unwrap().to_le_bytes());
    bytes.extend_from_slice(signers);
    bytes
}

fn decode(ns: u8, bytes: &[u8]) -> Option<Aggregate> {
    if bytes.len() < 36 {
        return None;
    }
    Some(Aggregate {
        foreign_signers: 0,
        groups: vec![SignerGroup {
            slot: u32::from_le_bytes(bytes[32..36].try_into().unwrap()),
            message: bytes[..32].try_into().unwrap(),
            keys: bytes[36..].iter().map(|&i| key(ns, i)).collect(),
        }],
        encoding: bytes.to_vec(),
    })
}

fn proven(committee: &Committee, list: &[[u8; 32]], version: u32, signers: &[u8]) -> Vec<u8> {
    SnarkStatusList::new(
        Algorithms::WotsXmss,
        list.to_vec(),
        version,
        proof_for(committee, list, version, signers),
    )
    .to_bytes()
}

#[test]
fn an_aggregate_is_accepted_for_its_own_list_version_and_quorum_only() {
    let committee = committee_in(5);
    let module = PQSNARKVerifierModule::new(committee.clone(), 0);
    let list = [hash_any(b"vc-1")];
    let holds = |record: &SnarkStatusList| module.verify(record, &|b: &[u8]| decode(5, b), &|_: &[u8]| true);
    let of = |list: &[[u8; 32]], version: u32, zk: Vec<u8>| {
        SnarkStatusList::new(Algorithms::WotsXmss, list.to_vec(), version, zk)
    };
    let honest = proof_for(&committee, &list, 3, &[0, 2, 4]);
    let record = of(&list, 3, honest.clone());
    assert!(holds(&record));
    assert!(module.is_newer(&record));
    assert!(module.accepts_claims(&record, &decode(5, &honest).unwrap()));
    assert!(!module.verify(&record, &|b: &[u8]| decode(5, b), &|_: &[u8]| false));
    assert!(!holds(&of(&list, 4, honest.clone())), "another version");
    assert!(!holds(&of(&[], 3, honest.clone())), "another list");
    assert!(!holds(&of(&list, 3, proof_for(&committee, &list, 3, &[0, 2]))), "too few signers");
    assert!(!holds(&of(&list, 3, proof_for(&committee, &list, 3, &[0, 2, 9]))), "an outsider");
    assert!(!holds(&of(&list, 3, vec![1, 2, 3])), "no aggregate");
    let mut foreign = decode(5, &honest).unwrap();
    foreign.foreign_signers = 1;
    assert!(!module.accepts_claims(&record, &foreign));
    let mut two = decode(5, &honest).unwrap();
    two.groups.push(SignerGroup { slot: 0, message: [0; 32], keys: vec![] });
    assert!(!module.accepts_claims(&record, &two));
    let mut later = decode(5, &honest).unwrap();
    later.groups[0].slot += 1;
    assert!(!module.accepts_claims(&record, &later));
    assert_eq!(module.committee_as_ref().to_bytes(), committee.to_bytes());
}

#[test]
fn a_proof_has_one_encoding() {
    let record = SnarkStatusList::new(Algorithms::WotsXmss, vec![], 0, vec![7; 40]);
    let found = decode(5, &[7; 40]);
    assert!(canonical_proof(&record, found).is_ok());
    let mut other = decode(5, &[7; 40]).unwrap();
    other.encoding.push(0);
    assert_eq!(canonical_proof(&record, Some(other)).err(), Some(ProofError::NotCanonical));
    assert_eq!(canonical_proof(&record, None).err(), Some(ProofError::NotDecodable));
}

#[test]
fn the_freshest_candidate_that_verifies_is_taken() {
    let committee = committee_in(6);
    let mark = new_mark(&committee);
    let mut node = SnarkNode::new(committee.clone(), mark);
    let list = [hash_any(b"vc-1")];
    let candidates = vec![
        proven(&committee, &list, 1, &[0, 1, 2]),
        proven(&committee, &list, 9, &[0, 1]),
        vec![0xff; 8],
        proven(&committee, &list, 4, &[1, 2, 3]),
    ];
    let decode = |b: &[u8]| decode(6, b);
    let check = |_: &[u8]| true;
    let best = node.predicate().select_freshest(&candidates, &decode, &check).unwrap();
    assert_eq!(best.version(), 4);
    assert!(node.predicate().select_freshest_above(&candidates, Some(4), &decode, &check).is_none());
    assert_eq!(
        node.accept_best(&candidates, &decode, &check, stores),
        Outcome::Accepted { version: 4 }
    );
    assert_eq!(node.accept_best(&candidates, &decode, &check, stores), Outcome::Refused);
    assert_eq!(node.high_water(), Some(4));
    assert_eq!(
        node.accept(&candidates[0], &decode, &check, stores),
        Outcome::Stale { version: 1, mark: 4 }
    );
    assert_eq!(node.accept(&candidates[2], &decode, &check, stores), Outcome::Refused);
    assert_eq!(node.committee().to_bytes(), committee.to_bytes());
}

#[test]
fn only_a_confirmed_and_newer_record_is_made_durable() {
    let mut node = raw_node_in(7);
    let never = |_: &str| -> Result<(), String> { panic!("nothing may be stored") };
    let short = record(node.committee(), &[], 5, &[0, 1]);
    assert_eq!(node.accept(&short, holds, never), Outcome::Refused);
    let honest = record(node.committee(), &[], 5, &[0, 1, 2]);
    assert_eq!(node.accept(&honest, holds, stores), Outcome::Accepted { version: 5 });
    assert_eq!(node.accept(&honest, holds, never), Outcome::Stale { version: 5, mark: 5 });
}

#[test]
fn no_proof_is_checked_at_or_below_the_mark() {
    let committee = committee_in(8);
    let mark = new_mark(&committee);
    let mut node = SnarkNode::new(committee.clone(), mark);
    let decode = |b: &[u8]| decode(8, b);
    let check = |_: &[u8]| true;
    let first = vec![proven(&committee, &[], 4, &[0, 1, 2])];
    assert_eq!(
        node.accept_best(&first, &decode, &check, stores),
        Outcome::Accepted { version: 4 }
    );
    let unchecked = |_: &[u8]| -> bool { panic!("no proof may be checked") };
    let older = vec![proven(&committee, &[], 3, &[0, 1, 2]), first[0].clone()];
    assert_eq!(node.accept_best(&older, &decode, &unchecked, stores), Outcome::Refused);
    let outsider = vec![proven(&committee, &[], 9, &[0, 1, 7])];
    assert_eq!(node.accept_best(&outsider, &decode, &unchecked, stores), Outcome::Refused);
}

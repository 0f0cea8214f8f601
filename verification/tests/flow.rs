//! Whole rounds of the aggregating path. The aggregate is a toy that lists its
//! request: slot, message and keys.
use decentralized_root_of_trust::bench::flow::{authenticate, make_signed_proof, run_flow};
use decentralized_root_of_trust::node::snark_prover::{
    AggregateRequest, PQSNARKProverModule, RepeatedSigner,
};
use decentralized_root_of_trust::node::snark_verifier::{
    Aggregate, PQSNARKVerifierModule, SignerGroup,
};
use decentralized_root_of_trust::protocol::committee::Committee;
use decentralized_root_of_trust::protocol::status_list::{Algorithms, SnarkStatusList};
use decentralized_root_of_trust::protocol::xmss::{
    XmssPublicKey, XmssSignature, SIGNATURE_SSZ_LEN,
};

fn key(member: u8) -> XmssPublicKey {
    XmssPublicKey::from_bytes(&[member; 32]).unwrap()
}

fn committee() -> Committee {
    Committee::checked(vec![key(0), key(1), key(2)], 2, 100).unwrap()
}

fn module() -> PQSNARKVerifierModule {
    PQSNARKVerifierModule::new(committee(), 0)
}

fn signing(member: usize, _slot: u32, _message: &[u8; 32]) -> (XmssPublicKey, XmssSignature) {
    let signature = XmssSignature::from_bytes(&[member as u8; SIGNATURE_SSZ_LEN]).unwrap();
    (key(member as u8), signature)
}

fn listing(request: &AggregateRequest) -> Vec<u8> {
    let mut bytes = request.slot.to_le_bytes().to_vec();
    bytes.extend_from_slice(&request.message);
    for (key, _) in &request.raws {
        bytes.extend_from_slice(key.as_bytes());
    }
    bytes
}

fn reading(bytes: &[u8]) -> Option<Aggregate> {
    if bytes.len() < 36 || (bytes.len() - 36) % 32 != 0 {
        return None;
    }
    let mut slot = [0; 4];
    slot.copy_from_slice(&bytes[..4]);
    let mut message = [0; 32];
    message.copy_from_slice(&bytes[4..36]);
    let keys = bytes[36..].chunks(32).map(|k| XmssPublicKey::from_bytes(k).unwrap()).collect();
    Some(Aggregate {
        foreign_signers: 0,
        groups: vec![SignerGroup { slot: u32::from_le_bytes(slot), message, keys }],
        encoding: bytes.to_vec(),
    })
}

fn round(signers: &[usize], slot: u32, version: u32) -> (SnarkStatusList, bool) {
    run_flow(
        &PQSNARKProverModule::init_prover(),
        &module(),
        signers,
        vec![[7; 32]],
        slot,
        version,
        2,
        signing,
        listing,
        &reading,
        &|_: &[u8]| true,
    )
}

#[test]
fn a_round_of_a_quorum_is_authentic() {
    let (record, authentic) = round(&[2, 0], 103, 3);
    assert!(authentic);
    assert_eq!(record.version(), 3);
    assert_eq!(record.list(), &[[7; 32]]);
    let message = committee().message_for(Algorithms::WotsXmss, &[[7; 32]], 3);
    let expected = [&103u32.to_le_bytes()[..], &message, &[2; 32], &[0; 32]].concat();
    assert_eq!(record.proof_bytes(), expected.as_slice());
}

#[test]
fn a_round_below_the_threshold_or_at_another_slot_is_not_authentic() {
    assert!(!round(&[1], 103, 3).1);
    assert!(!round(&[2, 0], 104, 3).1);
    assert!(!round(&[2, 5], 103, 3).1);
}

#[test]
fn a_record_is_authentic_only_when_it_decodes_and_its_aggregate_holds() {
    let (record, _) = round(&[2, 0], 103, 3);
    let wire = record.to_bytes();
    let found = authenticate(&module(), &wire, &reading, &|_: &[u8]| true).unwrap();
    assert_eq!(found.version(), 3);
    assert!(authenticate(&module(), &wire, &reading, &|_: &[u8]| false).is_none());
    assert!(authenticate(&module(), &wire, &|_: &[u8]| None, &|_: &[u8]| true).is_none());
    assert!(authenticate(&module(), &wire[..10], &reading, &|_: &[u8]| true).is_none());
}

#[test]
fn an_aggregate_of_one_version_does_not_serve_another() {
    let made = make_signed_proof(
        &PQSNARKProverModule::init_prover(),
        &committee(),
        &[0, 1],
        &[[7; 32]],
        164,
        19,
        2,
        signing,
        listing,
    )
    .unwrap();
    let spoofed = SnarkStatusList::new(Algorithms::WotsXmss, vec![[7; 32]], 64, made);
    let wire = spoofed.to_bytes();
    assert!(authenticate(&module(), &wire, &reading, &|_: &[u8]| true).is_none());
}

#[test]
fn a_signed_proof_names_nobody_twice() {
    let refused = make_signed_proof(
        &PQSNARKProverModule::init_prover(),
        &committee(),
        &[1, 0, 1],
        &[[7; 32]],
        103,
        3,
        2,
        |_, _, _| panic!("nobody may sign"),
        |_| panic!("nothing may be aggregated"),
    );
    assert_eq!(refused, Err(RepeatedSigner { member: 1, slot: 103 }));
}

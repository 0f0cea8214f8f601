//! The publisher on the aggregating path.
use decentralized_root_of_trust::node::snark_prover::{
    reject_repeated_signers, PQSNARKProverModule, RepeatedSigner,
};
use decentralized_root_of_trust::protocol::committee::Committee;
use decentralized_root_of_trust::protocol::status_list::Algorithms;
use decentralized_root_of_trust::protocol::xmss::{
    XmssPublicKey, XmssSignature, SIGNATURE_SSZ_LEN,
};

fn key(member: u8) -> XmssPublicKey {
    XmssPublicKey::from_bytes(&[member; 32]).unwrap()
}

fn signature(filler: u8) -> XmssSignature {
    XmssSignature::from_bytes(&[filler; SIGNATURE_SSZ_LEN]).unwrap()
}

#[test]
#[should_panic(expected = "appears twice in the quorum")]
fn a_repeated_signer_is_refused_before_signing() {
    if let Err(refusal) = reject_repeated_signers(&[0, 1, 1], 100) {
        panic!("{}", refusal.text());
    }
}

#[test]
fn a_distinct_quorum_passes_the_guard() {
    assert_eq!(reject_repeated_signers(&[4, 0, 2], 100), Ok(()));
    assert_eq!(reject_repeated_signers(&[], 100), Ok(()));
}

#[test]
fn the_lowest_repeated_member_is_named() {
    let refusal = reject_repeated_signers(&[7, 3, 7, 3], 9).unwrap_err();
    assert_eq!(refusal, RepeatedSigner { member: 3, slot: 9 });
    assert_eq!(
        refusal.text(),
        "member 3 appears twice in the quorum: it would sign slot 9 twice and leak its key"
    );
}

#[test]
fn every_signer_signs_once_and_in_turn_before_the_signatures_are_aggregated() {
    let prover = PQSNARKProverModule::init_prover();
    let made = prover
        .sign_and_prove(
            &[2, 0],
            [5; 32],
            44,
            2,
            |member, slot, message| {
                assert_eq!((slot, message), (44, &[5; 32]));
                (key(member as u8), signature(member as u8))
            },
            |request| {
                assert_eq!((request.slot, request.log_inv_rate), (44, 2));
                request.raws.iter().map(|raw| raw.1.as_bytes()[0]).collect()
            },
        )
        .unwrap();
    assert_eq!(made, vec![2, 0]);
    let refused = prover.sign_and_prove(
        &[1, 1],
        [5; 32],
        44,
        2,
        |_, _, _| panic!("nobody may sign"),
        |_| panic!("nothing may be aggregated"),
    );
    assert_eq!(refused, Err(RepeatedSigner { member: 1, slot: 44 }));
}

#[test]
fn a_proof_is_made_at_the_slot_and_over_the_message_of_the_anchor() {
    let committee = Committee::checked(vec![key(0), key(1)], 1, 100).unwrap();
    let list = [[9; 32]];
    let message = committee.message_for(Algorithms::WotsXmss, &list, 3);
    let made = PQSNARKProverModule::init_prover().make_proof(
        &committee,
        Algorithms::WotsXmss,
        vec![(key(1), signature(1))],
        &list,
        3,
        2,
        |request| {
            assert_eq!(request.slot, 103);
            assert_eq!(request.message, message);
            assert!(request.raws[0].0.same(&key(1)));
            vec![1, 2, 3]
        },
    );
    assert_eq!(made, vec![1, 2, 3]);
}

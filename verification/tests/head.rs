//! The head a member signed last, and what may follow it.
use decentralized_root_of_trust::protocol::status_list::{
    status_list_message, Algorithms, Domain,
};
use decentralized_root_of_trust::state::status_list_head::{
    SignedHead, SuccessorError, GENESIS_PREDECESSOR,
};

fn entry(n: u8) -> [u8; 32] {
    [n; 32]
}

fn domain() -> Domain {
    Domain::new(&[0xD0; 32], Algorithms::WotsXmss)
}

#[test]
fn advances_only_from_the_signed_digest_and_list() {
    let d = domain();
    let v0 =
        SignedHead::successor(&d, None, &GENESIS_PREDECESSOR, 0, &[entry(1), entry(2)]).unwrap();
    let v1 = SignedHead::successor(
        &d,
        Some(&v0),
        &v0.digest(),
        1,
        &[entry(1), entry(2), entry(3), entry(4)],
    )
    .unwrap();

    assert_eq!(v1.version(), 1);
    assert_eq!(v1.entries(), 4);
    assert_eq!(
        v1.digest(),
        status_list_message(&d, &[entry(1), entry(2), entry(3), entry(4)], 1)
    );
}

#[test]
fn refuses_a_decodable_but_unauthenticated_predecessor() {
    let d = domain();
    let authentic = SignedHead::from_authenticated(&d, 7, &[entry(1), entry(2)]);
    let forged_parent = SignedHead::from_authenticated(&d, 7, &[entry(1)]);

    assert_eq!(
        SignedHead::successor(
            &d,
            Some(&authentic),
            &forged_parent.digest(),
            8,
            &[entry(1), entry(2), entry(3)],
        )
        .err(),
        Some(SuccessorError::WrongPredecessor { head: 7 })
    );
    assert_eq!(
        SignedHead::successor(
            &d,
            Some(&authentic),
            &authentic.digest(),
            8,
            &[entry(1), entry(2)],
        )
        .err(),
        Some(SuccessorError::NotAppending { entries: 2, signed: 2, head: 7 }),
        "quoting the head without appending entries must not advance it"
    );
    assert_eq!(
        SignedHead::successor(
            &d,
            Some(&authentic),
            &authentic.digest(),
            8,
            &[entry(1), entry(3), entry(4)],
        )
        .err(),
        Some(SuccessorError::WrongPrefix { head: 7 })
    );
}

#[test]
fn genesis_has_an_explicit_parent_reference() {
    let d = domain();
    assert_eq!(
        SignedHead::successor(&d, None, &[9; 32], 0, &[entry(1)]).err(),
        Some(SuccessorError::NotGenesis)
    );
    assert!(SignedHead::successor(&d, None, &GENESIS_PREDECESSOR, 1, &[entry(1)]).is_err());
    assert_eq!(
        SignedHead::successor(&d, None, &GENESIS_PREDECESSOR, 0, &[]).err(),
        Some(SuccessorError::Empty)
    );
    assert!(SignedHead::successor(
        &d,
        None,
        &GENESIS_PREDECESSOR,
        0,
        &[entry(1), entry(2), entry(3)]
    )
    .is_ok());
}

#[test]
fn domains_do_not_interoperate() {
    let a = Domain::new(&[0xAA; 32], Algorithms::WotsXmss);
    let b = Domain::new(&[0xBB; 32], Algorithms::WotsXmss);

    let head_a = SignedHead::successor(&a, None, &GENESIS_PREDECESSOR, 0, &[entry(1)]).unwrap();
    let head_b = SignedHead::successor(&b, None, &GENESIS_PREDECESSOR, 0, &[entry(1)]).unwrap();
    assert_ne!(
        head_a.digest(),
        head_b.digest(),
        "one list at one version must not share a digest across domains"
    );
    assert!(
        SignedHead::successor(&b, Some(&head_a), &head_a.digest(), 1, &[entry(1), entry(2)])
            .is_err(),
        "a head from another domain must not extend this one"
    );
}

#[test]
fn every_other_refusal_of_a_step_is_named() {
    let d = domain();
    assert_eq!(
        SignedHead::successor(&d, None, &GENESIS_PREDECESSOR, 3, &[entry(1)]).err(),
        Some(SuccessorError::NotFirst { version: 3 })
    );
    let head = SignedHead::from_authenticated(&d, 7, &[entry(1)]);
    assert_eq!(
        SignedHead::successor(&d, Some(&head), &head.digest(), 9, &[entry(1), entry(2)]).err(),
        Some(SuccessorError::WrongVersion { version: 9, head: 7 })
    );
    let last = SignedHead::from_authenticated(&d, u32::MAX, &[entry(1)]);
    assert_eq!(
        SignedHead::successor(&d, Some(&last), &last.digest(), 0, &[entry(1), entry(2)]).err(),
        Some(SuccessorError::FinalVersion)
    );
    assert_eq!(
        SuccessorError::WrongPrefix { head: 7 }.text(),
        "the proposed prefix is not the signed list at v7"
    );
}

#[test]
fn the_digests_alone_decide_about_a_step() {
    let d = domain();
    let head = SignedHead::from_authenticated(&d, 7, &[entry(1)]);
    let prefix = head.digest();
    let next = SignedHead::successor_from(Some(&head), &prefix, 8, 2, &prefix, &[5; 32]).unwrap();
    assert_eq!((next.version(), next.entries(), next.digest()), (8, 2, [5; 32]));
    assert_eq!(
        SignedHead::successor_from(Some(&head), &prefix, 8, 2, &[6; 32], &[5; 32]).err(),
        Some(SuccessorError::WrongPrefix { head: 7 })
    );
}

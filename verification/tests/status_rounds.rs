//! Rounds of the stateless committee: a record holds the whole list, and an update adds
//! or removes one entry.
use std::cell::RefCell;

use decentralized_root_of_trust::demo::config::{N_MEMBERS, THRESHOLD};
use decentralized_root_of_trust::demo::mldsa_holder::{
    action_of, choose_target, conclude, expectation, handle, plan, random_target, reported_list,
    request_status_update, state_mode, trigger_payload, update_in, update_request, Action, Node,
    StateMode,
};
use decentralized_root_of_trust::demo::mldsa_member::{
    begin_status_round_with_id, build_record, collect_from, collect_signatures, on_proposal,
    on_status_request, shortfall, signature_in, signed_answer, StatusCollector,
};
use decentralized_root_of_trust::demo::vc::fingerprint;
use decentralized_root_of_trust::demo::wire::{
    Failure, Proposal, StatusUpdated, ACTION_ISSUE, ACTION_REVOKE, MSG_FAILURE, MSG_ROUND_REQUEST,
    MSG_ROUND_RESULT, MSG_SIGNATURE, MSG_STATUS_UPDATED,
};
use decentralized_root_of_trust::mldsa::committee::Committee;
use decentralized_root_of_trust::mldsa::signer::{verify, MlDsa65Signer, MlDsaError};
use decentralized_root_of_trust::mldsa::status_list::MlDsaStatusList;
use decentralized_root_of_trust::node::Outcome;
use decentralized_root_of_trust::state::freshness::HighWaterMark;
use decentralized_root_of_trust::state::{Locking, Stored};

fn signers(n: usize) -> Vec<MlDsa65Signer> {
    (0..n).map(|i| MlDsa65Signer::from_seed(&[i as u8; 32])).collect()
}

fn committee_of(signers: &[MlDsa65Signer], threshold: usize) -> Committee {
    Committee::new(signers.iter().map(|s| s.public_key()).collect(), threshold).unwrap()
}

fn new_mark(committee: &Committee) -> HighWaterMark {
    let nothing = Stored::Missing("no such file".to_string());
    HighWaterMark::create("mark", &committee.to_bytes(), Locking::Acquired, nothing).unwrap().0
}

fn stores(_line: &str) -> Result<(), String> {
    Ok(())
}

/// Runs an update in which every signer answers, and gives the answer and the record.
fn update(
    signers: &[MlDsa65Signer],
    committee: &Committee,
    payload: &[u8],
    current: Option<&[u8]>,
) -> (u8, Vec<u8>, Option<Vec<u8>>) {
    let published = RefCell::new(None);
    let reply = on_status_request(
        committee,
        3,
        payload,
        current,
        |proposal| {
            let answers: Vec<_> = signers
                .iter()
                .enumerate()
                .filter_map(|(i, s)| {
                    let reply = on_proposal(committee, s, proposal);
                    signature_in(reply.kind, &reply.payload).map(|signature| (i, signature))
                })
                .collect();
            let waiting = answers;
            move |k: usize| waiting.get(k).cloned()
        },
        |bytes| {
            *published.borrow_mut() = Some(bytes.to_vec());
            Ok(())
        },
    );
    (reply.kind, reply.payload, published.into_inner())
}

#[test]
fn invalid_record_cannot_advance_freshness() {
    let signers: Vec<_> = (0..3).map(|_| MlDsa65Signer::generate().expect("signer")).collect();
    let committee = committee_of(&signers, 2);
    let mut node = Node::new(committee.clone(), new_mark(&committee));

    let list = vec![[0x42; 32]];
    let statement = committee.statement_for(&list, 0);
    let signatures = vec![
        (0, signers[0].sign(&statement).expect("signature")),
        (2, signers[2].sign(&statement).expect("signature")),
    ];
    let honest =
        MlDsaStatusList::new(list.clone(), 0, 3, signatures.clone()).expect("record").to_bytes();
    let forged =
        MlDsaStatusList::new(list, 100, 3, signatures).expect("forged record").to_bytes();

    assert_eq!(node.accept(&forged, stores), Outcome::Refused);
    assert_eq!(node.high_water(), None);
    assert_eq!(node.accept(&honest, stores), Outcome::Accepted { version: 0 });
    assert_eq!(node.accept(&honest, stores), Outcome::Stale { version: 0, mark: 0 });
    assert_eq!(node.high_water(), Some(0));
}

#[test]
fn a_credential_is_issued_found_and_revoked() {
    let signers = signers(N_MEMBERS);
    let committee = committee_of(&signers, THRESHOLD);
    let mut node = Node::new(committee.clone(), new_mark(&committee));

    let (kind, payload, record) =
        update(&signers, &committee, &update_request(ACTION_ISSUE, b"alice"), None);
    assert_eq!(kind, MSG_STATUS_UPDATED, "{}", Failure::text(&payload));
    let issued = StatusUpdated::from_ssz_bytes(&payload).unwrap();
    let record = record.unwrap();
    assert_eq!(reported_list(&record), vec![fingerprint(&issued.credential)]);
    let saved = RefCell::new(None);
    let verdict = node.run_round(Some(&issued), None, Some(true), Some(&record), stores, |c| {
        *saved.borrow_mut() = Some(c.to_vec());
        Ok(())
    });
    assert_eq!(
        verdict,
        Ok("v0 verified, credential issued and present: valid, high-water now v0".to_string())
    );
    let saved = saved.into_inner().unwrap();
    assert_eq!(saved, issued.credential);
    let again = node.run_round(None, Some(&saved), None, Some(&record), stores, |_| {
        panic!("nothing to save")
    });
    assert_eq!(
        again,
        Ok("v0 verified, saved credential is present: valid, already seen, \
            high-water remains v0"
            .to_string())
    );

    let (kind, payload, gone) =
        update(&signers, &committee, &update_request(ACTION_REVOKE, &saved), Some(&record));
    assert_eq!(kind, MSG_STATUS_UPDATED, "{}", Failure::text(&payload));
    let revoked = StatusUpdated::from_ssz_bytes(&payload).unwrap();
    assert_eq!((revoked.version, &revoked.credential), (1, &saved));
    let gone = gone.unwrap();
    assert!(reported_list(&gone).is_empty());
    let verdict =
        node.run_round(Some(&revoked), None, Some(false), Some(&gone), stores, |_| Ok(()));
    assert_eq!(
        verdict,
        Ok("v1 verified, credential removed: revoked, high-water now v1".to_string())
    );

    let (kind, payload, _) =
        update(&signers, &committee, &update_request(ACTION_REVOKE, &saved), Some(&gone));
    assert_eq!(kind, MSG_FAILURE, "{}", Failure::text(&payload));
}

#[test]
fn a_round_says_what_went_wrong() {
    let signers = signers(N_MEMBERS);
    let committee = committee_of(&signers, THRESHOLD);
    let mut node = Node::new(committee.clone(), new_mark(&committee));
    let nothing =
        node.run_round(None, None, None, None, stores, |_| panic!("nothing to save"));
    assert_eq!(nothing, Err("nothing is published".to_string()));
    let (_, payload, record) =
        update(&signers, &committee, &update_request(ACTION_ISSUE, b"alice"), None);
    let issued = StatusUpdated::from_ssz_bytes(&payload).unwrap();
    let record = record.unwrap();
    let unsaved = node.run_round(Some(&issued), None, Some(true), Some(&record), stores, |_| {
        Err("disk full".to_string())
    });
    assert_eq!(unsaved, Err("cannot save credential: disk full".to_string()));
    let other = StatusUpdated { version: 5, credential: issued.credential.clone() };
    assert_eq!(
        conclude(Outcome::Accepted { version: 0 }, Some(&other), None, Some(true), &[]),
        Err("aggregator version differs from stored record".to_string())
    );
    assert_eq!(
        conclude(Outcome::Accepted { version: 0 }, Some(&issued), None, Some(true), &[]),
        Err("authenticated snapshot has the wrong credential state".to_string())
    );
    assert_eq!(
        conclude(Outcome::Refused, None, None, None, &[]),
        Err("record failed ML-DSA quorum verification; freshness unchanged".to_string())
    );
    assert_eq!(
        conclude(Outcome::Accepted { version: 2 }, None, None, None, &[]),
        Ok("v2 verified, no saved credential to query, high-water now v2".to_string())
    );
    assert_eq!(
        conclude(Outcome::Accepted { version: 2 }, None, Some(b"x"), None, &[]),
        Ok("v2 verified, saved credential is absent: revoked, high-water now v2".to_string())
    );
}

#[test]
fn every_answer_is_offered_in_its_turn_without_state() {
    let signers = signers(N_MEMBERS);
    let committee = committee_of(&signers, THRESHOLD);
    let list = [[5; 32]];
    let statement = committee.statement_for(&list, 2);
    let fresh = || StatusCollector::new(&committee, &list, 2);
    let by = |index: usize| (index, signers[index].sign(&statement).unwrap());
    let wrong = (4, signers[4].sign(b"another statement").unwrap());
    let answers = vec![wrong, by(3), by(3), (2, by(1).1), by(0), (N_MEMBERS, by(0).1), by(4)];
    let counted = |done: StatusCollector| -> Vec<usize> {
        done.into_quorum().into_iter().map(|(index, _)| index).collect()
    };
    assert_eq!(counted(collect_from(fresh(), &answers)), [3, 0, 4]);
    assert_eq!(counted(collect_from(fresh(), &[])), Vec::<usize>::new());
    assert_eq!(counted(collect_signatures(fresh(), |k| answers.get(k).cloned())), [3, 0, 4]);

    let all: Vec<_> = (0..N_MEMBERS).rev().map(by).collect();
    assert_eq!(counted(collect_from(fresh(), &all)), [9, 8, 7, 6, 5, 4, 3]);
    let asked = RefCell::new(Vec::new());
    let done = collect_signatures(fresh(), |k| {
        asked.borrow_mut().push(k);
        all.get(k).cloned()
    });
    assert_eq!(counted(done), [9, 8, 7, 6, 5, 4, 3]);
    assert_eq!(asked.into_inner(), [0, 1, 2, 3, 4, 5, 6]);
}

#[test]
fn too_few_signatures_give_no_record() {
    let signers = signers(N_MEMBERS);
    let committee = committee_of(&signers, THRESHOLD);
    let (kind, payload, record) = update(
        &signers[..THRESHOLD - 1],
        &committee,
        &update_request(ACTION_ISSUE, b"alice"),
        None,
    );
    assert_eq!(kind, MSG_FAILURE);
    assert_eq!(Failure::text(&payload), "only 6 of 7 signatures arrived");
    assert!(record.is_none());
    assert!(shortfall(THRESHOLD).is_none());
}

#[test]
fn a_member_signs_the_statement_of_a_proposal() {
    let signers = signers(3);
    let committee = committee_of(&signers, 2);
    let proposal = Proposal { version: 4, list: vec![[1; 32]] }.as_ssz_bytes();
    let reply = on_proposal(&committee, &signers[1], &proposal);
    assert_eq!(reply.kind, MSG_SIGNATURE);
    let signature = signature_in(reply.kind, &reply.payload).unwrap();
    let statement = committee.statement_for(&[[1; 32]], 4);
    assert!(verify(&signers[1].public_key(), &statement, &signature));
    assert!(signature_in(MSG_FAILURE, &reply.payload).is_none());
    assert_eq!(on_proposal(&committee, &signers[1], &[1]).kind, MSG_FAILURE);
    let refused = signed_answer(&Err(MlDsaError::Signing));
    assert!(signature_in(refused.kind, &refused.payload).is_none());
}

#[test]
fn only_verifying_signatures_by_different_members_count() {
    let signers = signers(N_MEMBERS);
    let committee = committee_of(&signers, THRESHOLD);
    let list = [[1; 32]];
    let statement = committee.statement_for(&list, 0);
    let mut collector = StatusCollector::new(&committee, &list, 0);
    assert!(collector.offer(0, signers[0].sign(&statement).unwrap()));
    assert!(!collector.offer(0, signers[0].sign(&statement).unwrap()));
    assert!(!collector.offer(1, signers[2].sign(&statement).unwrap()));
    assert!(!collector.offer(1, signers[1].sign(b"something else").unwrap()));
    assert!(!collector.offer(N_MEMBERS, signers[0].sign(&statement).unwrap()));
    assert_eq!(collector.count(), 1);
    assert!(!collector.complete());
    assert_eq!(collector.into_quorum().len(), 1);
}

#[test]
fn an_update_changes_one_entry_of_what_is_published() {
    let request = update_request(ACTION_ISSUE, b"alice");
    let round = begin_status_round_with_id(3, &request, None, &[1; 16]).unwrap();
    assert_eq!(round.version, 0);
    assert_eq!(round.entries(), vec![fingerprint(&round.credential)]);
    assert_eq!(Proposal::from_ssz_bytes(&round.proposal()).unwrap().list, round.entries());
    assert_eq!(round.close(Ok(())).kind, MSG_STATUS_UPDATED);
    assert_eq!(
        Failure::text(&round.close(Err("disk full".to_string())).payload),
        "cannot publish: disk full"
    );
    assert!(build_record(&round, vec![]).is_ok());
    for bad in [
        begin_status_round_with_id(3, &[1], None, &[1; 16]),
        begin_status_round_with_id(3, &update_request(9, b""), None, &[1; 16]),
        begin_status_round_with_id(3, &update_request(ACTION_REVOKE, b"x"), None, &[1; 16]),
        begin_status_round_with_id(3, &request, Some(&[1]), &[1; 16]),
    ] {
        assert!(bad.is_err());
    }
}

#[test]
fn a_trigger_is_one_of_three() {
    let action = |kind: &str| action_of(&trigger_payload(kind, "bob").unwrap(), "me");
    assert!(matches!(action("round"), Ok(Action::Issue(subject)) if subject == "bob"));
    assert!(matches!(action("revoke"), Ok(Action::Revoke)));
    assert!(matches!(action("verify"), Ok(Action::Verify)));
    assert!(trigger_payload("other", "bob").is_none());
    assert!(matches!(
        action_of(&trigger_payload("round", "default").unwrap(), "me"),
        Ok(Action::Issue(subject)) if subject == "me"
    ));
    assert_eq!(
        action_of(&update_request(9, b""), "me").err().unwrap(),
        "unknown status action 9"
    );
    assert_eq!(
        action_of(&update_request(ACTION_ISSUE, &[0xff]), "me").err().unwrap(),
        "credential subject is not UTF-8"
    );
    assert_eq!(
        action_of(&[], "me").err().unwrap(),
        "malformed request: InvalidByteLength { len: 0, expected: 1 }"
    );
    let reply = handle(MSG_ROUND_REQUEST, &trigger_payload("revoke", "").unwrap(), "me", |action| {
        assert!(matches!(action, Action::Revoke));
        Ok("done".to_string())
    });
    assert_eq!((reply.kind, Failure::text(&reply.payload)), (MSG_ROUND_RESULT, "done".to_string()));
    assert_eq!(handle(1, &[], "me", |_| panic!("not asked for")).kind, MSG_FAILURE);
    assert_eq!(handle(MSG_ROUND_REQUEST, &[], "me", |_| panic!("malformed")).kind, MSG_FAILURE);
}

#[test]
fn a_round_is_planned_from_its_action() {
    let saved: Result<Vec<u8>, String> = Ok(vec![7]);
    let missing: Result<Vec<u8>, String> = Err("no file".to_string());
    let issue = Action::Issue("bob".to_string());
    assert_eq!(plan(&issue, &missing), Ok(Some((ACTION_ISSUE, b"bob".to_vec()))));
    assert_eq!(plan(&Action::Revoke, &saved), Ok(Some((ACTION_REVOKE, vec![7]))));
    assert_eq!(
        plan(&Action::Revoke, &missing),
        Err("no issued credential is available: no file".to_string())
    );
    assert_eq!(plan(&Action::Verify, &missing), Ok(None));
    assert_eq!(expectation(&issue), Some(true));
    assert_eq!(expectation(&Action::Revoke), Some(false));
    assert_eq!(expectation(&Action::Verify), None);
}

#[test]
fn an_update_is_asked_for_from_one_member() {
    assert_eq!(choose_target(Some("4"), 0), Ok(4));
    assert_eq!(choose_target(None, 23), Ok(3));
    assert_eq!(choose_target(Some("x"), 0), Err("invalid TARGET_MEMBER \"x\"".to_string()));
    assert_eq!(
        choose_target(Some("a\"b\\c\n"), 0),
        Err("invalid TARGET_MEMBER \"a\\\"b\\\\c\\n\"".to_string())
    );
    assert_eq!(
        choose_target(Some("10"), 0),
        Err("member 10 is outside the committee".to_string())
    );
    assert!(random_target(None).unwrap() < N_MEMBERS);
    let updated = StatusUpdated { version: 3, credential: vec![7] }.as_ssz_bytes();
    let found = request_status_update(ACTION_ISSUE, b"bob", Some("4"), |target, payload| {
        assert_eq!((target, payload), (4, &update_request(ACTION_ISSUE, b"bob")[..]));
        Ok((MSG_STATUS_UPDATED, updated))
    })
    .unwrap();
    assert_eq!((found.version, found.credential), (3, vec![7]));
    assert_eq!(
        update_in(4, Err("timeout".to_string())).err().unwrap(),
        "aggregator 4 did not answer: timeout"
    );
    assert_eq!(
        update_in(4, Ok((MSG_FAILURE, Failure::of("no")))).err().unwrap(),
        "aggregator 4 failed: no"
    );
    assert_eq!(
        update_in(4, Ok((MSG_STATUS_UPDATED, vec![1]))).err().unwrap(),
        "malformed update response: InvalidByteLength { len: 1, expected: 4 }"
    );
}

#[test]
fn the_state_is_opened_unless_a_setting_creates_it() {
    assert_eq!(state_mode(None), Some(StateMode::Open));
    assert_eq!(state_mode(Some("create")), Some(StateMode::Create));
    assert_eq!(state_mode(Some("open")), Some(StateMode::Open));
    assert_eq!(state_mode(Some("new")), None);
}

#[test]
fn an_update_round_asks_first_and_saves_what_was_issued() {
    let signers = signers(N_MEMBERS);
    let committee = committee_of(&signers, THRESHOLD);
    let mut node = Node::new(committee.clone(), new_mark(&committee));
    let missing: Result<Vec<u8>, String> = Err("no file".to_string());
    let refused = node.run_whole_round(
        &Action::Revoke,
        &missing,
        |_: u8, _: &[u8]| panic!("nothing can be asked for"),
        || panic!("nothing may be fetched"),
        |_: &str| panic!("nothing may be stored"),
        |_: &[u8]| panic!("nothing may be saved"),
    );
    assert_eq!(refused, Err("no issued credential is available: no file".to_string()));

    let published = RefCell::new(None);
    let saved = RefCell::new(None);
    let issued = node.run_whole_round(
        &Action::Issue("bob".to_string()),
        &missing,
        |kind: u8, data: &[u8]| {
            assert_eq!((kind, data), (ACTION_ISSUE, &b"bob"[..]));
            let (_, payload, record) =
                update(&signers, &committee, &update_request(kind, data), None);
            *published.borrow_mut() = record;
            Ok(StatusUpdated::from_ssz_bytes(&payload).unwrap())
        },
        || published.borrow().clone(),
        stores,
        |credential: &[u8]| {
            *saved.borrow_mut() = Some(credential.to_vec());
            Ok(())
        },
    );
    assert_eq!(
        issued,
        Ok("v0 verified, credential issued and present: valid, high-water now v0".to_string())
    );
    let list = reported_list(&published.into_inner().unwrap());
    assert_eq!(list, vec![fingerprint(&saved.into_inner().unwrap())]);
}

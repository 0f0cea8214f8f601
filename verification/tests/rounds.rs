//! Rounds of the network: members sign a proposal, one of them aggregates and publishes,
//! and the relying party looks at what was published.
use std::cell::RefCell;

use decentralized_root_of_trust::demo::aggregator::{
    begin_round_with_id, build_record, collect_from, collect_signatures, on_credential_request,
    shortfall, signature_in, Collector,
};
use decentralized_root_of_trust::demo::config::{Mode, N_MEMBERS, THRESHOLD};
use decentralized_root_of_trust::demo::holder::{
    choose_target, conclude, credential_in, handle, random_target, raw_report, refuse_other,
    reported_list, request_credential, role, subject_of, trigger_payload, trigger_result, Node,
};
use decentralized_root_of_trust::demo::member::{
    failure, recover_signed_head, request_of, unknown_kind, Member, Request,
};
use decentralized_root_of_trust::demo::vc::fingerprint;
use decentralized_root_of_trust::demo::wire::{
    Failure, LinkedProposal, SignatureReply, VcIssued, VcRequest, MSG_FAILURE, MSG_PROPOSAL,
    MSG_ROUND_REQUEST, MSG_ROUND_RESULT, MSG_SIGNATURE, MSG_VC_ISSUED, MSG_VC_REQUEST,
};
use decentralized_root_of_trust::framing::SszError;
use decentralized_root_of_trust::hash::hash_any;
use decentralized_root_of_trust::node::raw_node::RawNode;
use decentralized_root_of_trust::node::raw_verifier::SignatureCheck;
use decentralized_root_of_trust::node::signer::SignerNode;
use decentralized_root_of_trust::node::snark_node::SnarkNode;
use decentralized_root_of_trust::node::snark_prover::{AggregateRequest, PQSNARKProverModule};
use decentralized_root_of_trust::node::snark_verifier::{Aggregate, SignerGroup};
use decentralized_root_of_trust::node::Outcome;
use decentralized_root_of_trust::protocol::committee::Committee;
use decentralized_root_of_trust::protocol::status_list::{Algorithms, StatusListError};
use decentralized_root_of_trust::protocol::xmss::{
    XmssPublicKey, XmssSignature, SIGNATURE_SSZ_LEN,
};
use decentralized_root_of_trust::state::freshness::HighWaterMark;
use decentralized_root_of_trust::state::slot_counter::AtomicSlotCounter;
use decentralized_root_of_trust::state::status_list_head::GENESIS_PREDECESSOR;
use decentralized_root_of_trust::state::{Locking, Stored};

const GENESIS: u32 = 40;

fn key(member: usize) -> XmssPublicKey {
    let mut bytes = [0u8; 32];
    bytes[0] = 11;
    bytes[4] = member as u8;
    XmssPublicKey::from_bytes(&bytes).unwrap()
}

fn committee() -> Committee {
    Committee::checked((0..N_MEMBERS).map(key).collect(), THRESHOLD, GENESIS).unwrap()
}

fn signature_bytes(key: &XmssPublicKey, slot: u32, message: &[u8; 32]) -> Vec<u8> {
    let mut input = key.as_bytes().to_vec();
    input.extend_from_slice(&slot.to_le_bytes());
    input.extend_from_slice(message);
    hash_any(&input).iter().copied().cycle().take(SIGNATURE_SSZ_LEN).collect()
}

fn sign(member: usize, slot: u32, message: &[u8; 32]) -> XmssSignature {
    XmssSignature::from_bytes(&signature_bytes(&key(member), slot, message)).unwrap()
}

fn holds(check: &SignatureCheck) -> bool {
    check.signature.as_bytes() == signature_bytes(&check.key, check.slot, &check.message)
}

fn no_aggregate(_request: &AggregateRequest) -> Vec<u8> {
    panic!("raw records are not aggregated")
}

fn member(index: usize) -> Member {
    let (key, end) = (key(index), GENESIS + 20);
    let counter = AtomicSlotCounter::create("slots", &key, GENESIS, end, Locking::Acquired, false);
    let (counter, _) = counter.unwrap();
    Member::new(committee(), SignerNode::new(key, counter), None)
}

fn ask(subject: &str) -> Vec<u8> {
    VcRequest { subject: subject.as_bytes().to_vec() }.as_ssz_bytes()
}

fn reason_of(payload: &[u8]) -> String {
    Failure::text(payload)
}

/// Every member answers a proposal in turn.
struct Network {
    members: RefCell<Vec<Member>>,
}

impl Network {
    fn new(count: usize) -> Network {
        Network { members: RefCell::new((0..count).map(member).collect()) }
    }

    fn answers(&self, proposal: &[u8]) -> Vec<(usize, XmssSignature)> {
        let mut members = self.members.borrow_mut();
        let mut found = Vec::new();
        for (index, member) in members.iter_mut().enumerate() {
            let reply = member.on_proposal(
                proposal,
                |_| Ok(()),
                |slot, message| Ok(sign(index, slot, message)),
            );
            if let Ok(Some(signature)) = signature_in(reply.kind, &reply.payload) {
                found.push((index, signature));
            }
        }
        found
    }

    /// Runs a round in which member `at` aggregates, and gives the answer and what was
    /// published.
    fn round(
        &self,
        mode: Mode,
        at: usize,
        subject: &str,
        latest: Option<&[u8]>,
    ) -> (u8, Vec<u8>, Option<(u32, Vec<u8>)>) {
        let published = RefCell::new(None);
        let prover = PQSNARKProverModule::init_prover();
        let reply = on_credential_request(
            &committee(),
            mode,
            &[0],
            at,
            if mode == Mode::Snark { Some(&prover) } else { None },
            &ask(subject),
            latest,
            "5s",
            |proposal| {
                let waiting = self.answers(proposal);
                move |k: usize| waiting.get(k).cloned()
            },
            holds,
            |request| aggregate(request),
            |version, bytes| {
                *published.borrow_mut() = Some((version, bytes.to_vec()));
                Ok(())
            },
        );
        (reply.kind, reply.payload, published.into_inner())
    }
}

/// A stand-in aggregate: the message, the slot and the keys.
fn aggregate(request: &AggregateRequest) -> Vec<u8> {
    let mut bytes = request.message.to_vec();
    bytes.extend_from_slice(&request.slot.to_le_bytes());
    for (key, _) in &request.raws {
        bytes.extend_from_slice(key.as_bytes());
    }
    bytes
}

fn decode_aggregate(bytes: &[u8]) -> Option<Aggregate> {
    if bytes.len() < 36 || (bytes.len() - 36) % 32 != 0 {
        return None;
    }
    Some(Aggregate {
        foreign_signers: 0,
        groups: vec![SignerGroup {
            message: bytes[..32].try_into().unwrap(),
            slot: u32::from_le_bytes(bytes[32..36].try_into().unwrap()),
            keys: bytes[36..]
                .chunks(32)
                .map(|b| XmssPublicKey::from_bytes(b).unwrap())
                .collect(),
        }],
        encoding: bytes.to_vec(),
    })
}

fn new_mark() -> HighWaterMark {
    let nothing = Stored::Missing("no such file".to_string());
    HighWaterMark::create("mark", &committee().to_bytes(), Locking::Acquired, nothing).unwrap().0
}

fn relying_party(mode: Mode) -> Node {
    match mode {
        Mode::Raw => Node::Raw(RawNode::new(committee(), new_mark())),
        Mode::Snark => Node::Snark(SnarkNode::new(committee(), new_mark())),
    }
}

fn look(
    node: &mut Node,
    issued: Option<&VcIssued>,
    latest: Option<(u32, Vec<u8>)>,
) -> Result<String, String> {
    node.run_round(issued, latest, holds, decode_aggregate, |_: &[u8]| true, |_: &str| Ok(()))
}

#[test]
fn a_credential_is_issued_published_and_found() {
    let network = Network::new(N_MEMBERS);
    let (kind, payload, published) = network.round(Mode::Raw, 3, "alice", None);
    assert_eq!(kind, MSG_VC_ISSUED, "{}", reason_of(&payload));
    let issued = VcIssued::from_ssz_bytes(&payload).unwrap();
    assert_eq!(issued.version, 0);
    let (version, bytes) = published.unwrap();
    assert_eq!(version, 0);
    let list = reported_list(Mode::Raw, &bytes);
    assert_eq!(list, vec![fingerprint(&issued.credential)]);
    let report = raw_report(&bytes).unwrap();
    assert_eq!((report.signers, report.slots, report.entries), (THRESHOLD, N_MEMBERS, 1));

    let mut node = relying_party(Mode::Raw);
    assert_eq!(node.mode(), Mode::Raw);
    assert_eq!(
        look(&mut node, Some(&issued), Some((0, bytes.clone()))),
        Ok("v0 verified, high-water now v0".to_string())
    );
    assert_eq!(
        look(&mut node, Some(&issued), Some((0, bytes.clone()))),
        Ok("v0 verified, already seen, high-water stays at v0".to_string())
    );
    let other = VcIssued { version: 0, credential: b"another".to_vec() };
    assert_eq!(
        look(&mut node, Some(&other), Some((0, bytes.clone()))),
        Err("v0 verified, but it does not contain this credential".to_string())
    );
    let mut forged = bytes.clone();
    let at = forged.len() - 1;
    forged[at] ^= 1;
    assert_eq!(
        look(&mut node, None, Some((9, forged))),
        Err("v9 did not verify, refusing it".to_string())
    );
    assert!(look(&mut node, None, None).is_err());

    let (kind, _, next) = network.round(Mode::Raw, 5, "bob", Some(&bytes));
    assert_eq!(kind, MSG_VC_ISSUED);
    let (version, bytes) = next.unwrap();
    assert_eq!(version, 1);
    assert_eq!(reported_list(Mode::Raw, &bytes)[0], list[0]);
    assert_eq!(network.members.borrow()[9].signed_version(), Some(1));
    assert_eq!(network.members.borrow()[9].next_slot(), u64::from(GENESIS) + 2);
}

#[test]
fn a_proof_stands_for_the_quorum() {
    let network = Network::new(N_MEMBERS);
    let (kind, payload, published) = network.round(Mode::Snark, 0, "alice", None);
    assert_eq!(kind, MSG_VC_ISSUED, "{}", reason_of(&payload));
    let issued = VcIssued::from_ssz_bytes(&payload).unwrap();
    let (_, bytes) = published.unwrap();
    let mut node = relying_party(Mode::Snark);
    assert_eq!(node.mode(), Mode::Snark);
    assert_eq!(
        look(&mut node, Some(&issued), Some((0, bytes.clone()))),
        Ok("v0 verified, high-water now v0".to_string())
    );
    let outcome =
        node.accept(&bytes, holds, decode_aggregate, |_: &[u8]| true, |_: &str| Ok(()));
    assert_eq!(outcome, Outcome::Stale { version: 0, mark: 0 });
    let (kind, payload, _) = network.round(Mode::Snark, 4, "bob", Some(&bytes));
    assert_eq!(kind, MSG_FAILURE);
    assert_eq!(reason_of(&payload), "member 4 is signer-only in snark mode; ask one of [0]");
}

/// Which members count.
fn counted(done: Collector) -> Vec<usize> {
    done.into_quorum().into_iter().map(|(index, _)| index).collect()
}

#[test]
fn every_answer_is_offered_in_its_turn() {
    let c = committee();
    let list = [[5; 32]];
    let message = c.message_for(Algorithms::WotsXmss, &list, 2);
    let fresh = || Collector::new(&c, &list, 2).unwrap();
    let by = |index: usize| (index, sign(index, GENESIS + 2, &message));
    let wrong = |index: usize| (index, sign(index, GENESIS + 3, &message));
    let answers = vec![wrong(4), by(3), by(3), (2, by(1).1), by(0), (N_MEMBERS, by(0).1), by(4)];
    assert_eq!(counted(collect_from(fresh(), &answers, holds)), [3, 0, 4]);
    assert_eq!(counted(collect_from(fresh(), &[], holds)), Vec::<usize>::new());
    assert_eq!(
        counted(collect_signatures(fresh(), |k| answers.get(k).cloned(), holds)),
        [3, 0, 4]
    );

    let all: Vec<_> = (0..N_MEMBERS).rev().map(by).collect();
    assert_eq!(counted(collect_from(fresh(), &all, holds)), [9, 8, 7, 6, 5, 4, 3]);
    let asked = RefCell::new(Vec::new());
    let done = collect_signatures(
        fresh(),
        |k| {
            asked.borrow_mut().push(k);
            all.get(k).cloned()
        },
        holds,
    );
    assert_eq!(counted(done), [9, 8, 7, 6, 5, 4, 3]);
    assert_eq!(asked.into_inner(), [0, 1, 2, 3, 4, 5, 6]);
}

#[test]
fn too_few_members_give_no_record() {
    let network = Network::new(THRESHOLD - 1);
    let (kind, payload, published) = network.round(Mode::Raw, 0, "alice", None);
    assert_eq!(kind, MSG_FAILURE);
    assert!(reason_of(&payload).contains("5s"));
    assert!(published.is_none());
    assert!(shortfall(THRESHOLD, "5s").is_none());
    assert_eq!(shortfall(6, "5s").unwrap().kind, MSG_FAILURE);
}

#[test]
fn a_member_signs_each_version_once_and_only_behind_what_it_signed() {
    let mut first = member(2);
    let propose = |predecessor: [u8; 32], version: u32, list: Vec<[u8; 32]>| {
        LinkedProposal { predecessor, version, list }.as_ssz_bytes()
    };
    let opening = propose(GENESIS_PREDECESSOR, 0, vec![[1; 32]]);
    let mut answer = |payload: &[u8]| {
        let reply =
            first.on_proposal(payload, |_| Ok(()), |slot, message| Ok(sign(2, slot, message)));
        (reply.kind, reply.payload)
    };
    let (kind, payload) = answer(&opening);
    assert_eq!(kind, MSG_SIGNATURE);
    let signed = signature_in(kind, &payload).unwrap().unwrap();
    let message = committee().message_for(Algorithms::WotsXmss, &[[1; 32]], 0);
    assert_eq!(signed.as_bytes(), signature_bytes(&key(2), GENESIS, &message));

    let (kind, payload) = answer(&opening);
    assert_eq!(kind, MSG_SIGNATURE);
    let abstained = SignatureReply::from_ssz_bytes(&payload).unwrap();
    assert!(abstained.signature.is_empty() && !abstained.reason.is_empty());

    let (_, payload) = answer(&propose([9; 32], 1, vec![[1; 32], [2; 32]]));
    assert!(SignatureReply::from_ssz_bytes(&payload).unwrap().signature.is_empty());
    let (_, payload) = answer(&propose(message, 1, vec![[1; 32], [2; 32]]));
    assert_eq!(SignatureReply::from_ssz_bytes(&payload).unwrap().signature.len(), 1);

    let (kind, payload) = answer(&[1, 2, 3]);
    assert_eq!((kind, reason_of(&payload)), (
        MSG_FAILURE,
        "malformed proposal: InvalidByteLength { len: 3, expected: 32 }".to_string(),
    ));
}

#[test]
fn a_signature_that_fails_moves_the_counter_but_not_the_head() {
    let mut m = member(1);
    let opening =
        LinkedProposal { predecessor: GENESIS_PREDECESSOR, version: 0, list: vec![[1; 32]] }
            .as_ssz_bytes();
    let reply = m.on_proposal(&opening, |_| Ok(()), |_, _| Err("no key".to_string()));
    assert!(SignatureReply::from_ssz_bytes(&reply.payload).unwrap().signature.is_empty());
    assert_eq!(m.signed_version(), None);
    assert_eq!(m.next_slot(), u64::from(GENESIS) + 1);
    assert_eq!(m.committee().to_bytes(), committee().to_bytes());
}

#[test]
fn a_restarted_member_goes_on_behind_the_published_record() {
    let network = Network::new(N_MEMBERS);
    let (_, _, published) = network.round(Mode::Raw, 0, "alice", None);
    let (_, bytes) = published.unwrap();
    let head = recover_signed_head(Mode::Raw, &committee(), Some(&bytes)).unwrap().unwrap();
    assert_eq!((head.version(), head.entries()), (0, 1));
    assert!(recover_signed_head(Mode::Raw, &committee(), None).unwrap().is_none());
    assert_eq!(
        recover_signed_head(Mode::Raw, &committee(), Some(&[1])).err(),
        Some(StatusListError::RawNotSsz(SszError::InvalidLengthPrefix { len: 0, expected: 4 }))
    );
}

#[test]
fn messages_are_told_apart_by_their_kind() {
    assert!(matches!(request_of(MSG_PROPOSAL), Request::Proposal));
    assert!(matches!(request_of(MSG_VC_REQUEST), Request::Credential));
    assert!(matches!(request_of(200), Request::Unknown));
    assert_eq!(unknown_kind(200).kind, MSG_FAILURE);
    assert!(reason_of(&unknown_kind(200).payload).contains("200"));
    assert_eq!(reason_of(&failure("why").payload), "why");
}

#[test]
fn only_the_signatures_of_members_over_the_proposal_count() {
    let c = committee();
    let list = [[1; 32]];
    let message = c.message_for(Algorithms::WotsXmss, &list, 0);
    let mut collector = Collector::new(&c, &list, 0).unwrap();
    assert!(collector.offer(0, sign(0, GENESIS, &message), holds));
    assert!(!collector.offer(0, sign(0, GENESIS, &message), holds), "twice");
    assert!(!collector.offer(1, sign(2, GENESIS, &message), holds), "another's");
    assert!(!collector.offer(N_MEMBERS, sign(0, GENESIS, &message), holds), "nobody's");
    assert!(!collector.offer(2, sign(2, GENESIS + 1, &message), holds), "another slot");
    for i in 1..THRESHOLD {
        assert!(!collector.complete());
        assert!(collector.offer(i, sign(i, GENESIS, &message), holds));
    }
    assert!(collector.complete());
    assert_eq!(collector.count(), THRESHOLD);
    assert_eq!(collector.committee().to_bytes(), c.to_bytes());
    assert_eq!(collector.into_quorum().len(), THRESHOLD);
}

#[test]
fn a_round_extends_what_is_published() {
    let c = committee();
    let opened =
        begin_round_with_id(&c, Mode::Raw, &[], 2, &ask("alice"), None, &[1; 16]).unwrap();
    assert_eq!((opened.predecessor, opened.version), (GENESIS_PREDECESSOR, 0));
    assert_eq!(opened.entries(), vec![fingerprint(&opened.credential)]);
    let proposal = LinkedProposal::from_ssz_bytes(&opened.proposal()).unwrap();
    assert_eq!(proposal.list, opened.entries());
    let reply = opened.close(Err("disk full".to_string()));
    assert_eq!(reason_of(&reply.payload), "cannot publish: disk full");
    assert_eq!(opened.close(Ok(())).kind, MSG_VC_ISSUED);
    assert_eq!(
        begin_round_with_id(&c, Mode::Raw, &[], 2, &[1], None, &[1; 16]).err().unwrap(),
        "malformed request: InvalidLengthPrefix { len: 1, expected: 4 }"
    );
    assert!(begin_round_with_id(&c, Mode::Raw, &[], 2, &ask("a"), Some(&[1]), &[1; 16])
        .err()
        .unwrap()
        .starts_with("published record is unreadable: "));
}

#[test]
fn a_proof_needs_a_prover() {
    let c = committee();
    let opened =
        begin_round_with_id(&c, Mode::Snark, &[0], 0, &ask("alice"), None, &[1; 16]).unwrap();
    assert!(build_record(&c, Mode::Snark, 0, None, &opened, vec![], no_aggregate).is_err());
}

#[test]
fn a_trigger_names_a_subject_or_only_verifies() {
    assert_eq!(subject_of(&trigger_payload("round", "bob"), "me"), Some("bob".to_string()));
    assert_eq!(subject_of(&trigger_payload("round", "default"), "me"), Some("me".to_string()));
    assert_eq!(subject_of(&trigger_payload("verify", "bob"), "me"), None);
    assert!(refuse_other(MSG_ROUND_REQUEST).is_none());
    assert_eq!(reason_of(&refuse_other(1).unwrap().payload), "not a round request");
    let reply = handle(MSG_ROUND_REQUEST, &trigger_payload("round", "bob"), "me", |subject| {
        Ok(format!("ran for {subject:?}"))
    });
    assert_eq!(reply.kind, MSG_ROUND_RESULT);
    assert_eq!(
        trigger_result(reply.kind, &reply.payload),
        ("ran for Some(\"bob\")".to_string(), true)
    );
    let refused = handle(MSG_ROUND_REQUEST, &trigger_payload("verify", ""), "me", |subject| {
        assert!(subject.is_none());
        Err("nothing there".to_string())
    });
    let (text, good) = trigger_result(refused.kind, &refused.payload);
    assert!(text.contains("nothing there") && !good);
    assert_eq!(handle(7, &[], "me", |_| panic!("not asked for")).kind, MSG_FAILURE);
}

#[test]
fn the_target_is_the_configured_member_or_one_that_can_aggregate() {
    assert_eq!(choose_target(Mode::Raw, &[], Some("4"), 0), Ok(4));
    assert_eq!(choose_target(Mode::Snark, &[1, 2], None, 5), Ok(2));
    assert_eq!(
        choose_target(Mode::Raw, &[], Some("x"), 0),
        Err("TARGET_MEMBER must be a committee index, got `x`".to_string())
    );
    assert_eq!(
        choose_target(Mode::Snark, &[1, 2], Some("3"), 0),
        Err("member 3 cannot aggregate in snark mode; allowed targets: [1, 2]".to_string())
    );
    for _ in 0..20 {
        let target = random_target(Mode::Snark, &[1, 2], None).unwrap();
        assert!([1, 2].contains(&target));
    }
}

#[test]
fn an_answer_is_a_credential_or_the_reason_there_is_none() {
    let issued = VcIssued { version: 3, credential: vec![7] }.as_ssz_bytes();
    let found = credential_in(Mode::Raw, 2, Ok((MSG_VC_ISSUED, issued.clone()))).unwrap();
    assert_eq!((found.version, found.credential), (3, vec![7]));
    assert_eq!(
        credential_in(Mode::Raw, 2, Err("timeout".to_string())).err().unwrap(),
        "member 2 did not answer: timeout"
    );
    assert_eq!(
        credential_in(Mode::Snark, 2, Ok((MSG_FAILURE, Failure::of("no quorum")))).err().unwrap(),
        "SNARK aggregator 2 failed the round: no quorum"
    );
    assert_eq!(
        credential_in(Mode::Raw, 2, Ok((MSG_VC_ISSUED, vec![]))).err().unwrap(),
        "malformed credential"
    );
    assert_eq!(role(Mode::Raw), "member");
    let asked = request_credential(Mode::Raw, &[], Some("6"), "alice", |target, payload| {
        assert_eq!(target, 6);
        assert_eq!(payload, ask("alice"));
        Ok((MSG_VC_ISSUED, issued))
    });
    assert_eq!(asked.unwrap().version, 3);
}

#[test]
fn a_verdict_without_a_credential_looks_at_freshness_only() {
    assert_eq!(
        conclude(4, Outcome::Accepted { version: 4 }, &[], None),
        Ok("v4 verified, high-water now v4".to_string())
    );
    assert!(conclude(4, Outcome::Refused, &[], None).is_err());
}

#[test]
fn a_round_asks_first_and_stops_when_nothing_is_handed_over() {
    let mut node = relying_party(Mode::Raw);
    let refused = node.run_whole_round(
        Some("alice"),
        |subject: &str| {
            assert_eq!(subject, "alice");
            Err("nobody answered".to_string())
        },
        || panic!("nothing may be fetched"),
        holds,
        |_: &[u8]| None,
        |_: &[u8]| false,
        |_: &str| panic!("nothing may be stored"),
    );
    assert_eq!(refused, Err("nobody answered".to_string()));
    let empty = node.run_whole_round(
        None,
        |_: &str| panic!("nothing is asked for"),
        || None,
        holds,
        |_: &[u8]| None,
        |_: &[u8]| false,
        |_: &str| panic!("nothing may be stored"),
    );
    assert_eq!(empty, Err("nothing is published".to_string()));
}

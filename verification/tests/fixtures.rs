//! Fixtures of the measurements and the records that a verifier has to refuse.
use std::cell::RefCell;

use decentralized_root_of_trust::bench::fixture::{
    check_fixture, fingerprint, fixture_files, indexed_signatures, is_known_file, manifest,
    negative_controls, parse_count, raw_controls, rotating_quorum, run_fixture_verifier,
    signed_record, CountError, FixtureError,
};
use decentralized_root_of_trust::hash::hash_any;
use decentralized_root_of_trust::mldsa::committee::Committee as MlDsaCommittee;
use decentralized_root_of_trust::mldsa::signer::MlDsa65Signer;
use decentralized_root_of_trust::mldsa::status_list::{MlDsaStatusList, MlDsaStatusListError};
use decentralized_root_of_trust::mldsa::verification::RawVerifier;
use decentralized_root_of_trust::node::raw_verifier::SignatureCheck;
use decentralized_root_of_trust::protocol::committee::{Committee, CommitteeError};
use decentralized_root_of_trust::protocol::status_list::{
    Algorithms, StatusList, StatusListError,
};
use decentralized_root_of_trust::protocol::xmss::{
    XmssPublicKey, XmssSignature, SIGNATURE_SSZ_LEN,
};

const N: usize = 4;
const T: usize = 3;

fn key(member: u8) -> XmssPublicKey {
    XmssPublicKey::from_bytes(&[member; 32]).unwrap()
}

fn committee() -> Committee {
    Committee::checked((0..N as u8).map(key).collect(), T, 43).unwrap()
}

fn signature_bytes(key: &XmssPublicKey, slot: u32, message: &[u8; 32]) -> Vec<u8> {
    let mut input = key.as_bytes().to_vec();
    input.extend_from_slice(&slot.to_le_bytes());
    input.extend_from_slice(message);
    hash_any(&input).iter().copied().cycle().take(SIGNATURE_SSZ_LEN).collect()
}

fn holds(check: &SignatureCheck) -> bool {
    check.signature.as_bytes() == signature_bytes(&check.key, check.slot, &check.message)
}

fn record(version: u32, signers: &[(usize, u8)]) -> StatusList {
    let c = committee();
    let list = [[1; 32]];
    let message = c.message_for(Algorithms::WotsXmss, &list, version);
    let slot = c.slot_for(version).unwrap();
    let signatures = signers
        .iter()
        .map(|&(seat, by)| {
            let bytes = signature_bytes(&key(by), slot, &message);
            (seat, XmssSignature::from_bytes(&bytes).unwrap())
        })
        .collect();
    StatusList::new(Algorithms::WotsXmss, list.to_vec(), version, N, signatures).unwrap()
}

fn honest(version: u32) -> StatusList {
    record(version, &[(0, 0), (1, 1), (2, 2)])
}

#[test]
fn a_fixture_is_run_and_every_control_refused() {
    let updates: Vec<Vec<u8>> = (0..2).map(|v| honest(v).to_bytes()).collect();
    let outsider = record(2, &[(0, 9), (1, 1), (2, 2)]).to_bytes();
    let seen = RefCell::new(Vec::new());
    let report = run_fixture_verifier(
        &committee().to_bytes(),
        &updates,
        (&honest(2).to_bytes(), &outsider),
        (N, T, 2),
        holds,
        |index, done| seen.borrow_mut().push((index, done)),
    )
    .unwrap();
    assert_eq!(report.refused, (true, true, true, true));
    assert!(report.all_refused());
    assert_eq!(report.sizes, vec![updates[0].len(), updates[1].len()]);
    assert_eq!(seen.into_inner(), vec![(0, false), (0, true), (1, false), (1, true)]);
}

#[test]
fn every_fault_of_a_fixture_is_named() {
    let anchor = committee().to_bytes();
    let good = honest(0).to_bytes();
    let forged = record(0, &[(0, 9), (1, 1), (2, 2)]).to_bytes();
    let run = |anchor: &[u8], updates: &[Vec<u8>], controls: (&[u8], &[u8])| {
        run_fixture_verifier(anchor, updates, controls, (N, T, 1), holds, |_, _| {}).err()
    };
    assert!(matches!(
        run(&[1], &[good.clone()], (&good, &forged)),
        Some(FixtureError::Anchor(CommitteeError::NotSsz(_)))
    ));
    assert!(matches!(
        run(&anchor, &[], (&good, &forged)),
        Some(FixtureError::Drift(text))
            if text == "fixture must contain exactly N_UPDATES honest records"
    ));
    assert!(matches!(
        run(&anchor, &[forged.clone()], (&good, &forged)),
        Some(FixtureError::Refused { index: 0 })
    ));
    assert!(matches!(
        run(&anchor, &[good.clone()], (&[1], &forged)),
        Some(FixtureError::Malformed(StatusListError::RawNotSsz(_)))
    ));
    assert!(matches!(
        run(&anchor, &[good.clone()], (&good, &[1])),
        Some(FixtureError::Malformed(StatusListError::RawNotSsz(_)))
    ));
    let wide = StatusList::new(Algorithms::WotsXmss, vec![], 0, 9, {
        let bytes = [0; SIGNATURE_SSZ_LEN];
        vec![(8, XmssSignature::from_bytes(&bytes).unwrap())]
    })
    .unwrap();
    assert!(matches!(
        run(&anchor, &[good.clone()], (&wide.to_bytes(), &forged)),
        Some(FixtureError::Controls)
    ));
    assert_eq!(
        check_fixture(&committee(), 1, N + 1, T, 1).unwrap(),
        "fixture N/build N drift"
    );
    assert_eq!(check_fixture(&committee(), 1, N, T + 1, 1).unwrap(), "fixture t/build t drift");
    assert!(check_fixture(&committee(), 1, N, T, 1).is_none());
}

#[test]
fn controls_keep_genuine_signatures() {
    let honest = honest(3);
    let controls = raw_controls(&honest, [9; 32], N, T).unwrap();
    assert_eq!(controls.tampered.list().len(), honest.list().len() + 1);
    assert_eq!(controls.relabelled.version(), 4);
    assert_eq!(controls.short.signer_count(), T - 1);
    let pairs = indexed_signatures(&honest);
    assert_eq!(pairs.iter().map(|p| p.0).collect::<Vec<_>>(), vec![0, 1, 2]);
    assert_eq!(
        raw_controls(&honest, [9; 32], 2, T).err(),
        Some(StatusListError::SignerOutside { index: 2, members: 2 })
    );
}

#[test]
fn the_members_whose_turn_it_is_sign_a_fixture() {
    let signers: Vec<MlDsa65Signer> =
        (0..4).map(|i| MlDsa65Signer::from_seed(&[i; 32])).collect();
    let members = signers.iter().map(|s| s.public_key()).collect();
    let committee = MlDsaCommittee::new(members, 3).unwrap();
    let list = vec![fingerprint(0), fingerprint(1)];
    let record = signed_record(&committee, &signers, &list, 6).unwrap();
    assert_eq!(record.signer_indices(), vec![0, 2, 3]);
    let node = RawVerifier::new(committee.clone());
    assert!(node.verify_status_list(&record));

    let statement = committee.statement_for(&list, 6);
    let outsider = MlDsa65Signer::from_seed(&[99; 32]).sign(&statement).unwrap();
    let mut pairs: Vec<_> =
        record.signer_indices().into_iter().zip(record.signatures()).collect();
    pairs[0].1 = outsider;
    let outsider_record = MlDsaStatusList::new(list, 6, 4, pairs).unwrap();
    assert_eq!(
        negative_controls(&node, &record, [0xff; 32], &outsider_record).unwrap(),
        (true, true, true, true)
    );
    assert_eq!(
        negative_controls(&node, &record, [0xff; 32], &record).unwrap(),
        (true, true, true, false)
    );

    let by = |index: usize| (index, signers[0].sign(b"any").unwrap());
    let of = |size: usize, named: &[usize]| {
        MlDsaStatusList::new(vec![], 6, size, named.iter().map(|i| by(*i)).collect()).unwrap()
    };
    assert_eq!(
        negative_controls(&node, &of(9, &[8, 1, 6]), [0xff; 32], &record).err(),
        Some(MlDsaStatusListError::SignerOutside { index: 8 })
    );
    assert_eq!(
        negative_controls(&node, &of(5, &[0, 1, 2, 3, 4]), [0xff; 32], &record).err(),
        Some(MlDsaStatusListError::TooManySignatures)
    );
}

#[test]
fn the_signers_of_a_run_rotate() {
    assert_eq!(rotating_quorum(0, 3, 5), vec![0, 1, 2]);
    assert_eq!(rotating_quorum(4, 3, 5), vec![4, 0, 1]);
    assert_eq!(rotating_quorum(7, 5, 5), vec![2, 3, 4, 0, 1]);
}

#[test]
fn the_files_of_a_fixture_are_found_in_order() {
    let names: Vec<String> = ["raw-update-10.bin", "anchor.bin", "raw-update-02.bin", "x"]
        .iter()
        .map(|n| n.to_string())
        .collect();
    assert_eq!(fixture_files(&names, "raw-update-"), ["raw-update-02.bin", "raw-update-10.bin"]);
    assert!(is_known_file("anchor.bin"));
    assert!(is_known_file("outsider-anchor.bin"));
    assert!(is_known_file("raw-attack-honest.bin"));
    assert!(!is_known_file("my-anchor.bin"));
}

#[test]
fn counts_are_read_within_their_bounds() {
    assert_eq!(parse_count("64", 64), Ok(64));
    assert_eq!(parse_count("0", 64), Err(CountError::OutOfRange { max: 64 }));
    assert_eq!(parse_count("65", 64), Err(CountError::OutOfRange { max: 64 }));
    let refusal = parse_count("many", 64).unwrap_err();
    assert_eq!(refusal, CountError::NotANumber);
    assert_eq!(refusal.text("N"), "N must be a positive decimal integer");
    assert_eq!(CountError::OutOfRange { max: 64 }.text("t"), "t must lie in 1..=64");
    assert_eq!(manifest(4, 3, 2), "N=4\nt=3\nupdates=2\n");
}

#[test]
fn benchmark_entries_are_digests_of_their_index() {
    let mut input = b"decentralized-root-of-trust/ml-dsa-benchmark-entry/v1\0".to_vec();
    input.extend_from_slice(&5u32.to_le_bytes());
    assert_eq!(fingerprint(5), hash_any(&input));
    assert_ne!(fingerprint(5), fingerprint(6));
}

//! Anchors, domains and the messages a committee signs.
use blake2::Digest;
use decentralized_root_of_trust::framing::SszError;
use decentralized_root_of_trust::hash::hash_any;
use decentralized_root_of_trust::protocol::committee::{Committee, CommitteeError};
use decentralized_root_of_trust::protocol::status_list::{
    algorithm_from_tag, algorithm_tag, status_list_message, Algorithms, Domain, SnarkStatusList,
    StatusList, StatusListError,
};
use decentralized_root_of_trust::protocol::xmss::{
    XmssPublicKey, XmssSignature, FIELD_MODULUS, SIGNATURE_SSZ_LEN,
};
use decentralized_root_of_trust::state::sibling;
use ssz::SszEncoder;
use std::path::Path;

const N: usize = 5;
const T: usize = 3;
const GENESIS: u32 = 100;

fn key(ns: u8, member: u8) -> XmssPublicKey {
    let mut bytes = hash_any(&[4, ns, member]);
    for word in 0..8 {
        bytes[4 * word + 3] &= 0x3f;
    }
    XmssPublicKey::from_bytes(&bytes).unwrap()
}

fn committee_in(ns: u8) -> Committee {
    let members = (0..N).map(|i| key(ns, i as u8)).collect();
    Committee::checked(members, T, GENESIS).unwrap()
}

fn anchor_wire(members: &[XmssPublicKey], t: u64, genesis_slot: u32) -> Vec<u8> {
    let keys: Vec<[u8; 32]> = members.iter().map(|k| *k.as_bytes()).collect();
    let mut buf = Vec::new();
    let mut encoder = SszEncoder::container(&mut buf, 16);
    encoder.append(&keys);
    encoder.append(&t);
    encoder.append(&genesis_slot);
    encoder.finalize();
    buf
}

fn entries() -> Vec<[u8; 32]> {
    vec![hash_any(b"vc-1"), hash_any(b"vc-2")]
}

fn dom() -> Domain {
    Domain::new(&[0x5A; 32], Algorithms::WotsXmss)
}

#[test]
fn committee_sibling_paths_do_not_alias_across_dotted_names() {
    let a = sibling("keys/node-1.2", "lock");
    let b = sibling("keys/node-1.3", "lock");
    assert_ne!(a, b);
    assert_eq!(a, "keys/node-1.2.lock");
    assert_eq!(sibling("member-0", "tmp"), "member-0.tmp");
}

#[test]
fn a_sibling_lies_beside_the_last_component_however_the_path_is_written() {
    let paths = [
        "", "/", "//", ".", "..", "./", "../", "a", "a/", "a//", "a/.", "a/./", "a/..", "a/b",
        "a//b", "a/./b", "a/b/", "/a", "//a", "/./a", "./a", "../a", "/..", "a.b/c.d", "a/..b",
        "a/.b", "..a", ".a", "a/b/./", "a/../b//.",
    ];
    for path in paths {
        let whole = Path::new(path);
        let mut name = whole.file_name().unwrap_or_default().to_os_string();
        name.push(".lock");
        assert_eq!(sibling(path, "lock"), whole.with_file_name(name).to_str().unwrap(), "{path}");
    }
    assert_eq!(sibling("keys/node/", "lock"), "keys/node.lock");
    assert_eq!(sibling("..", "lock"), "../.lock");
}

#[test]
fn committee_the_anchor_round_trips() {
    let c = committee_in(2);
    let decoded = Committee::from_bytes(&c.to_bytes()).expect("round trip");
    assert_eq!(decoded.members().len(), N);
    assert_eq!(decoded.threshold(), T);
    assert_eq!(decoded.genesis_slot(), GENESIS);
    assert_eq!(decoded.to_bytes(), c.to_bytes());
}

#[test]
fn an_anchor_is_the_container_of_its_members_threshold_and_genesis() {
    let c = committee_in(2);
    assert_eq!(c.to_bytes(), anchor_wire(c.members(), T as u64, GENESIS));
    assert_eq!(c.size(), N);
    assert_eq!(c.fingerprint(), &hash_any(&c.to_bytes()));
}

#[test]
#[should_panic(expected = "committee members must have distinct public keys")]
fn constructor_refuses_duplicate_member_keys() {
    let pk = committee_in(4).members()[0];
    if Committee::checked(vec![pk, pk], 2, GENESIS).is_none() {
        panic!("committee members must have distinct public keys");
    }
}

#[test]
fn a_threshold_outside_the_bounds_makes_no_committee() {
    let members = committee_in(4).members().to_vec();
    assert!(Committee::checked(members.clone(), 0, GENESIS).is_none());
    assert!(Committee::checked(members.clone(), N + 1, GENESIS).is_none());
    assert!(Committee::checked(members, N, GENESIS).is_some());
}

#[test]
fn decoder_refuses_duplicate_member_keys() {
    let pk = committee_in(5).members()[0];
    let bytes = anchor_wire(&[pk, pk], 2, GENESIS);
    let err = Committee::from_bytes(&bytes).err().expect("duplicate keys must be refused");
    assert_eq!(err, CommitteeError::DuplicateMembers);
    assert!(err.text().contains("duplicate member public keys"));
}

#[test]
fn committee_a_member_key_outside_the_field_is_refused() {
    let c = committee_in(3);
    let mut bytes = c.to_bytes();
    assert!(Committee::from_bytes(&bytes).is_ok());

    const FIXED_LEN: usize = 4 + 8 + 4;
    assert_eq!(
        u32::from_le_bytes(bytes[..4].try_into().unwrap()) as usize,
        FIXED_LEN,
        "the members list starts right after the fixed section"
    );
    bytes[FIXED_LEN..FIXED_LEN + 4].copy_from_slice(&u32::MAX.to_le_bytes());
    assert_eq!(
        Committee::from_bytes(&bytes).err(),
        Some(CommitteeError::NotSsz(SszError::Item)),
        "a field element at or above the modulus must not decode"
    );
}

#[test]
fn a_key_word_is_below_the_modulus() {
    let mut bytes = [0u8; 32];
    bytes[28..].copy_from_slice(&(FIELD_MODULUS - 1).to_le_bytes());
    assert_eq!(XmssPublicKey::from_bytes(&bytes).unwrap().as_bytes(), &bytes);
    bytes[28..].copy_from_slice(&FIELD_MODULUS.to_le_bytes());
    assert!(XmssPublicKey::from_bytes(&bytes).is_none());
    assert!(XmssPublicKey::from_bytes(&bytes[1..]).is_none());
    assert!(XmssSignature::from_bytes(&[0; SIGNATURE_SSZ_LEN - 1]).is_none());
}

#[test]
fn committee_a_threshold_outside_the_committee_is_refused() {
    let c = committee_in(5);
    let bytes = c.to_bytes();
    assert!(Committee::from_bytes(&bytes).is_ok());

    for bad in [0u64, N as u64 + 1] {
        let mut forged = bytes.clone();
        forged[4..12].copy_from_slice(&bad.to_le_bytes());
        assert!(
            Committee::from_bytes(&forged).is_err(),
            "threshold {bad} outside 1..={N} must be refused"
        );
    }
}

#[test]
fn every_member_finds_its_own_index_and_an_outsider_finds_none() {
    let c = committee_in(6);
    for i in 0..N {
        let pk = key(6, i as u8);
        let found = c.index_of(&pk).expect("a member must find itself");
        assert_eq!(found, i, "member {i} reported index {found}");
        assert!(c.members()[found].same(&pk), "index_of is not the inverse of members()");
    }
    assert_eq!(c.index_of(&key(6, 200)), None);
}

#[test]
fn evidence_does_not_transfer_between_anchors() {
    let list = [[7u8; 32], [8u8; 32]];
    let msg = |c: &Committee| c.message_for(Algorithms::WotsXmss, &list, 3);

    let base = committee_in(7);
    let members = base.members().to_vec();

    let other_t = Committee::checked(members.clone(), T + 1, GENESIS).unwrap();
    assert_ne!(msg(&base), msg(&other_t), "threshold is not bound");

    let other_genesis = Committee::checked(members.clone(), T, GENESIS + 1).unwrap();
    assert_ne!(msg(&base), msg(&other_genesis), "genesis slot is not bound");

    assert_ne!(msg(&base), msg(&committee_in(8)), "member set is not bound");

    let decoded = Committee::from_bytes(&base.to_bytes()).expect("round trip");
    assert_eq!(
        msg(&base),
        msg(&decoded),
        "encoding and decoding the anchor must not change the domain"
    );
    assert_eq!(base.fingerprint(), decoded.fingerprint());
}

#[test]
fn one_anchor_is_one_domain_so_it_governs_one_list() {
    let c = committee_in(9);
    let revocations = [[1u8; 32]];
    let suspensions = [[2u8; 32]];
    assert_eq!(
        c.domain(Algorithms::WotsXmss).as_bytes(),
        c.domain(Algorithms::WotsXmss).as_bytes()
    );
    assert_ne!(
        c.message_for(Algorithms::WotsXmss, &revocations, 0),
        c.message_for(Algorithms::WotsXmss, &suspensions, 0),
        "distinct content must still sign distinctly"
    );
}

#[test]
fn committee_trailing_bytes_after_the_anchor_are_refused() {
    let c = committee_in(4);
    let mut bytes = c.to_bytes();
    bytes.push(0);
    assert!(Committee::from_bytes(&bytes).is_err());
}

#[test]
fn the_message_is_blake2s_of_the_framed_statement() {
    let list = entries();
    let domain = dom();
    let mut expected = blake2::Blake2s256::new();
    expected.update(b"decentralized-root-of-trust/status-list-message");
    expected.update(domain.as_bytes());
    expected.update(3u32.to_le_bytes());
    expected.update(2u64.to_le_bytes());
    for entry in &list {
        expected.update(entry);
    }
    let expected: [u8; 32] = expected.finalize().into();
    assert_eq!(
        status_list_message(&domain, &list, 3),
        expected,
        "the signed-message framing changed"
    );
    assert_eq!(
        domain.as_bytes(),
        &[
            0xa3, 0xa6, 0x59, 0xa7, 0xaa, 0xef, 0xe0, 0x78, 0x84, 0x47, 0xa5, 0x92, 0x4b, 0xb3,
            0xf5, 0x70, 0xf6, 0xa2, 0x75, 0x3c, 0xa0, 0xbd, 0x47, 0x10, 0xcb, 0xe3, 0xba, 0xa5,
            0x2d, 0x81, 0xde, 0x2b,
        ],
        "the domain framing no longer matches standard BLAKE2s"
    );
    assert_eq!(
        status_list_message(&domain, &list, 3),
        [
            0x3c, 0x9a, 0xa7, 0x58, 0x66, 0x34, 0x77, 0x39, 0xd8, 0x0d, 0x34, 0x8d, 0xb0, 0x87,
            0xb7, 0xff, 0x53, 0x04, 0x83, 0x4e, 0xaf, 0x8d, 0xb8, 0x1c, 0x72, 0x42, 0xcc, 0xbb,
            0x53, 0x38, 0x22, 0xf8,
        ],
        "the signed statement no longer matches standard BLAKE2s"
    );
}

#[test]
fn the_message_moves_with_both_the_list_and_the_version() {
    let list = entries();
    let base = status_list_message(&dom(), &list, 0);

    assert_ne!(base, status_list_message(&dom(), &list, 1), "version not bound");
    assert_ne!(
        base,
        status_list_message(&dom(), &[list[0]], 0),
        "a removed entry left the message unchanged"
    );

    let mut appended = list.clone();
    appended.push(hash_any(b"FAKE-REVOCATION"));
    assert_ne!(
        base,
        status_list_message(&dom(), &appended, 0),
        "an appended entry left the message unchanged"
    );
    assert_ne!(
        status_list_message(&dom(), &list, 1),
        status_list_message(&dom(), &list, 1 + (1 << 16)),
        "versions differing only above bit 16 must not alias"
    );
}

#[test]
fn one_list_and_version_signs_differently_under_different_domains() {
    let list = entries();
    let a = Domain::new(&[0xAA; 32], Algorithms::WotsXmss);
    let b = Domain::new(&[0xBB; 32], Algorithms::WotsXmss);
    assert_ne!(
        status_list_message(&a, &list, 7),
        status_list_message(&b, &list, 7),
        "two committees must not sign the same bytes for one (list, version)"
    );

    let mut nearly = [0xAA; 32];
    nearly[31] ^= 1;
    assert_ne!(
        status_list_message(&a, &list, 7),
        status_list_message(&Domain::new(&nearly, Algorithms::WotsXmss), &list, 7),
        "the domain must depend on the whole fingerprint, not a prefix of it"
    );
    assert_ne!(
        status_list_message(&a, &[], 0),
        status_list_message(&b, &[], 0),
        "the domain must prefix the statement"
    );
}

#[test]
fn the_message_is_order_sensitive() {
    let list = entries();
    let reversed = vec![list[1], list[0]];
    assert_ne!(
        status_list_message(&dom(), &list, 0),
        status_list_message(&dom(), &reversed, 0)
    );
}

#[test]
fn the_retired_wire_tag_is_rejected() {
    let current = SnarkStatusList::new(Algorithms::WotsXmss, entries(), 1, Vec::new());
    let mut bytes = current.to_bytes();
    assert_eq!(bytes[0], 1, "the BLAKE2s tag must be on wire");
    bytes[0] = 0;
    let err = SnarkStatusList::from_bytes(&bytes).err().expect("the retired tag must not decode");
    assert_eq!(err, StatusListError::RetiredTag);
    assert!(err.text().contains("tag 0 is retired"), "unexpected error: {}", err.text());
    bytes[0] = 9;
    assert_eq!(
        SnarkStatusList::from_bytes(&bytes).err(),
        Some(StatusListError::UnknownTag(9))
    );
}

#[test]
fn one_tag_stands_for_one_algorithm() {
    assert_eq!(algorithm_tag(Algorithms::WotsXmss), 1);
    assert_eq!(algorithm_from_tag(1), Ok(Algorithms::WotsXmss));
    assert_eq!(algorithm_from_tag(0), Err(StatusListError::RetiredTag));
    assert_eq!(algorithm_from_tag(2), Err(StatusListError::UnknownTag(2)));
}

#[test]
fn an_aggregating_record_is_the_container_of_its_parts() {
    let record = SnarkStatusList::new(Algorithms::WotsXmss, entries(), 7, vec![1, 2, 3]);
    let mut buf = Vec::new();
    let mut encoder = SszEncoder::container(&mut buf, 13);
    encoder.append(&1u8);
    encoder.append(&entries());
    encoder.append(&7u32);
    encoder.append(&vec![1u8, 2, 3]);
    encoder.finalize();
    assert_eq!(record.to_bytes(), buf);
    let decoded = SnarkStatusList::from_bytes(&buf).unwrap();
    assert_eq!(decoded.list(), entries());
    assert_eq!(decoded.version(), 7);
    assert_eq!(decoded.proof_bytes(), [1, 2, 3]);
    assert_eq!(
        SnarkStatusList::from_bytes(&buf[..4]).err(),
        Some(StatusListError::SnarkNotSsz(SszError::InvalidLengthPrefix { len: 3, expected: 4 }))
    );
}

#[test]
fn a_raw_record_is_the_container_of_its_parts() {
    let sig = XmssSignature::from_bytes(&[0xcd; SIGNATURE_SSZ_LEN]).unwrap();
    let record =
        StatusList::new(Algorithms::WotsXmss, entries(), 7, 9, vec![(8, sig.clone())]).unwrap();
    let mut buf = Vec::new();
    let mut encoder = SszEncoder::container(&mut buf, 17);
    encoder.append(&1u8);
    encoder.append(&entries());
    encoder.append(&7u32);
    encoder.append(&vec![0u8, 0b11]);
    encoder.append(&vec![[0xcdu8; SIGNATURE_SSZ_LEN]]);
    encoder.finalize();
    assert_eq!(record.to_bytes(), buf);
    let decoded = StatusList::from_bytes(&buf).unwrap();
    assert_eq!(decoded.signer_slots(), 9);
    assert_eq!(decoded.signer_indices(), vec![8]);
    assert_eq!(decoded.signatures()[0].as_bytes(), sig.as_bytes());
    assert_eq!(decoded.list_cloned(), entries());
    assert_eq!(
        StatusList::from_bytes(&buf[..0]).err(),
        Some(StatusListError::RawNotSsz(SszError::InvalidByteLength { len: 0, expected: 1 }))
    );
    assert_eq!(
        StatusList::from_bytes(&buf[..buf.len() - 1]).err(),
        Some(StatusListError::RawNotSsz(SszError::Item))
    );
    let mut tagged = buf.clone();
    tagged[0] = 0;
    assert_eq!(StatusList::from_bytes(&tagged).err(), Some(StatusListError::RetiredTag));
}

#[test]
fn a_committee_over_the_ceiling_has_no_record() {
    assert_eq!(
        StatusList::new(Algorithms::WotsXmss, vec![], 0, 2049, vec![]).err(),
        Some(StatusListError::CommitteeTooLarge { members: 2049 })
    );
}

#[test]
fn records_are_shown_line_by_line() {
    let record = StatusList::new(
        Algorithms::WotsXmss,
        vec![[0xab; 32]],
        4,
        9,
        vec![
            (8, XmssSignature::from_bytes(&[1; SIGNATURE_SSZ_LEN]).unwrap()),
            (2, XmssSignature::from_bytes(&[2; SIGNATURE_SSZ_LEN]).unwrap()),
        ],
    )
    .unwrap();
    let entry = "ab".repeat(32);
    assert_eq!(
        record.to_text(),
        format!(
            "StatusList {{\n  alg        : WOTS-XMSS-BLAKE2s\n  version    : 4\n  \
             status_list: 1 entry\n      [0] 0x{entry}\n  signers    : 2 of 9 members [\n      \
             2, 8\n  ]\n  signatures : 2\n}}"
        )
    );
    let proven = SnarkStatusList::new(Algorithms::WotsXmss, vec![], 4, vec![0x0f, 0xf0]);
    assert_eq!(
        proven.to_text(),
        "SnarkStatusList {\n  alg        : WOTS-XMSS-BLAKE2s\n  version    : 4\n  \
         status_list: 0 entries\n  proof      : 2 bytes 0x0ff0\n}"
    );
}

fn numbered_key(member: u32) -> XmssPublicKey {
    let mut bytes = [0u8; 32];
    bytes[..4].copy_from_slice(&member.to_le_bytes());
    XmssPublicKey::from_bytes(&bytes).unwrap()
}

#[test]
fn an_anchor_holds_no_more_members_than_a_record_can_name() {
    let most: Vec<XmssPublicKey> = (0..2048).map(numbered_key).collect();
    let wire = anchor_wire(&most, 1, GENESIS);
    assert_eq!(Committee::from_bytes(&wire).unwrap().to_bytes(), wire);

    let mut over = most;
    over.push(numbered_key(2048));
    let fault = Committee::from_bytes(&anchor_wire(&over, 1, GENESIS)).unwrap_err();
    assert_eq!(fault, CommitteeError::TooManyMembers { members: 2049 });
    assert_eq!(fault.text(), "anchor has 2049 members, maximum is 2048");
    assert!(Committee::checked(over, 1, GENESIS).is_none());
}

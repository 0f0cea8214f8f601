//! Why a container is refused, held against the decoder of the `ssz` crate.
use decentralized_root_of_trust::demo::wire::{
    LinkedProposal, Proposal, StatusRequest, StatusUpdated, VcRequest,
};
use decentralized_root_of_trust::framing::SszError;
use decentralized_root_of_trust::mldsa::committee::{
    Committee as MlDsaCommittee, CommitteeError as MlDsaCommitteeError,
};
use decentralized_root_of_trust::mldsa::signer::{PUBLIC_KEY_BYTES, SIGNATURE_BYTES};
use decentralized_root_of_trust::mldsa::status_list::{MlDsaStatusList, MlDsaStatusListError};
use decentralized_root_of_trust::protocol::committee::{Committee, CommitteeError};
use decentralized_root_of_trust::protocol::status_list::{
    SnarkStatusList, StatusList, StatusListError,
};
use ssz::{BitList, DecodeError, SszDecoderBuilder, SszEncoder};

type Entries = Vec<[u8; 32]>;
type Bits = BitList<typenum::U2048>;

/// The bytes cut short at every place, and with every offset that is nearly right and one
/// that is not.
fn damaged(whole: &[u8], offsets: &[usize]) -> Vec<Vec<u8>> {
    let mut all: Vec<Vec<u8>> = (0..=whole.len()).map(|n| whole[..n].to_vec()).collect();
    for at in offsets {
        for value in (0..=whole.len() as u32 + 2).chain([u32::MAX]) {
            let mut bytes = whole.to_vec();
            bytes[*at..at + 4].copy_from_slice(&value.to_le_bytes());
            all.push(bytes);
        }
    }
    all
}

fn told(outside: Result<(), DecodeError>) -> Option<String> {
    outside.err().map(|e| format!("{e:?}"))
}

fn record(marks: &[u8]) -> Vec<u8> {
    let mut bytes = Vec::new();
    let mut encoder = SszEncoder::container(&mut bytes, 17);
    encoder.append(&2u8);
    encoder.append(&vec![[7u8; 32], [8; 32]]);
    encoder.append(&5u32);
    encoder.append(&marks.to_vec());
    encoder.append(&Vec::<u8>::new());
    encoder.finalize();
    bytes
}

fn record_outside(bytes: &[u8]) -> Result<(), DecodeError> {
    let mut builder = SszDecoderBuilder::new(bytes);
    builder.register_type::<u8>()?;
    builder.register_type::<Entries>()?;
    builder.register_type::<u32>()?;
    builder.register_type::<Bits>()?;
    builder.register_type::<Vec<[u8; SIGNATURE_BYTES]>>()?;
    let mut decoder = builder.build()?;
    decoder.decode_next::<u8>()?;
    decoder.decode_next::<Entries>()?;
    decoder.decode_next::<u32>()?;
    decoder.decode_next::<Bits>()?;
    decoder.decode_next::<Vec<[u8; SIGNATURE_BYTES]>>()?;
    Ok(())
}

#[test]
fn a_damaged_record_is_refused_for_the_same_reason() {
    let mut over = vec![0; 257];
    over[256] = 2;
    let mut full = vec![0; 257];
    full[256] = 1;
    let marks: [&[u8]; 8] =
        [&[0b1000], &[], &[0], &[1, 0], &[0, 0, 0], &[0xff, 1, 0, 0], &over, &full];
    let mut seen = 0;
    for whole in marks.iter().map(|m| record(m)) {
        let places: &[usize] = if whole.len() < 100 { &[1, 9, 13] } else { &[] };
        for bytes in damaged(&whole, places) {
            let inside = match MlDsaStatusList::from_bytes(&bytes) {
                Err(MlDsaStatusListError::NotSsz(e)) => Some(e.text()),
                _ => None,
            };
            assert_eq!(inside, told(record_outside(&bytes)));
            seen += usize::from(inside.is_some());
            let raw = match StatusList::from_bytes(&bytes) {
                Err(StatusListError::RawNotSsz(e)) => Some(e),
                _ => None,
            };
            assert_eq!(raw.is_some(), inside.is_some());
            if let Some(e) = raw {
                assert!(e == SszError::Item || Some(e.text()) == inside);
            }
        }
    }
    assert!(seen > 500);
}

#[test]
fn every_fault_of_a_bitmap_is_told() {
    let mut over = vec![0; 258];
    over[257] = 1;
    for (marks, expected) in [
        (vec![], "ExcessBits"),
        (vec![0, 0], "MissingLengthInformation"),
        (vec![1, 0, 0], "InvalidByteCount { given: 3, expected: 1 }"),
        (over, "OutOfBounds { i: 2048, len: 2048 }"),
    ] {
        assert_eq!(
            MlDsaStatusList::from_bytes(&record(&marks)).err().unwrap().text(),
            format!(
                "invalid ML-DSA status-list SSZ: \
                 BytesInvalid(\"BitList failed to decode: {expected}\")"
            )
        );
    }
}

fn snark_outside(bytes: &[u8]) -> Result<(), DecodeError> {
    let mut builder = SszDecoderBuilder::new(bytes);
    builder.register_type::<u8>()?;
    builder.register_type::<Entries>()?;
    builder.register_type::<u32>()?;
    builder.register_type::<Vec<u8>>()?;
    let mut decoder = builder.build()?;
    decoder.decode_next::<u8>()?;
    decoder.decode_next::<Entries>()?;
    decoder.decode_next::<u32>()?;
    decoder.decode_next::<Vec<u8>>()?;
    Ok(())
}

#[test]
fn a_damaged_aggregate_record_is_refused_for_the_same_reason() {
    let mut whole = Vec::new();
    let mut encoder = SszEncoder::container(&mut whole, 13);
    encoder.append(&1u8);
    encoder.append(&vec![[7u8; 32]]);
    encoder.append(&5u32);
    encoder.append(&vec![1u8, 2, 3]);
    encoder.finalize();
    for bytes in damaged(&whole, &[1, 9]) {
        let inside = match SnarkStatusList::from_bytes(&bytes) {
            Err(StatusListError::SnarkNotSsz(e)) => Some(e.text()),
            _ => None,
        };
        assert_eq!(inside, told(snark_outside(&bytes)));
    }
    assert_eq!(
        SnarkStatusList::from_bytes(&[]).err().unwrap().text(),
        "SNARK status list is not valid SSZ: InvalidByteLength { len: 0, expected: 1 }"
    );
}

fn anchor_outside(bytes: &[u8]) -> Result<(), DecodeError> {
    let mut builder = SszDecoderBuilder::new(bytes);
    builder.register_type::<Vec<[u8; PUBLIC_KEY_BYTES]>>()?;
    builder.register_type::<u64>()?;
    let mut decoder = builder.build()?;
    decoder.decode_next::<Vec<[u8; PUBLIC_KEY_BYTES]>>()?;
    decoder.decode_next::<u64>()?;
    Ok(())
}

fn xmss_anchor_outside(bytes: &[u8]) -> Result<(), DecodeError> {
    let mut builder = SszDecoderBuilder::new(bytes);
    builder.register_type::<Entries>()?;
    builder.register_type::<u64>()?;
    builder.register_type::<u32>()?;
    let mut decoder = builder.build()?;
    decoder.decode_next::<Entries>()?;
    decoder.decode_next::<u64>()?;
    decoder.decode_next::<u32>()?;
    Ok(())
}

#[test]
fn a_damaged_anchor_is_refused_for_the_same_reason() {
    let mut whole = Vec::new();
    let mut encoder = SszEncoder::container(&mut whole, 12);
    encoder.append(&vec![0u8; 40]);
    encoder.append(&1u64);
    encoder.finalize();
    for bytes in damaged(&whole, &[0]) {
        let inside = match MlDsaCommittee::from_bytes(&bytes) {
            Err(MlDsaCommitteeError::NotSsz(e)) => Some(e.text()),
            _ => None,
        };
        assert_eq!(inside, told(anchor_outside(&bytes)));
    }

    let mut whole = Vec::new();
    let mut encoder = SszEncoder::container(&mut whole, 16);
    encoder.append(&vec![[1u8; 32], [2; 32]]);
    encoder.append(&1u64);
    encoder.append(&9u32);
    encoder.finalize();
    for bytes in damaged(&whole, &[0]) {
        let inside = match Committee::from_bytes(&bytes) {
            Err(CommitteeError::NotSsz(e)) => Some(e),
            _ => None,
        };
        let outside = told(xmss_anchor_outside(&bytes));
        assert_eq!(inside.is_some(), outside.is_some());
        if let Some(e) = inside {
            assert!(e == SszError::Item || Some(e.text()) == outside);
        }
    }
    assert_eq!(
        Committee::from_bytes(&[16, 0, 0, 0]).err().unwrap().text(),
        "committee is not valid SSZ: OffsetOutOfBounds(16)"
    );
}

fn message_outside(bytes: &[u8], head: &[usize], entries: bool) -> Result<(), DecodeError> {
    let mut builder = SszDecoderBuilder::new(bytes);
    for width in head {
        builder.register_type_parameterized(true, *width)?;
    }
    builder.register_type::<Vec<u8>>()?;
    let mut decoder = builder.build()?;
    for _ in head {
        decoder.decode_next_with(|_| Ok(()))?;
    }
    if entries {
        decoder.decode_next::<Entries>()?;
    } else {
        decoder.decode_next::<Vec<u8>>()?;
    }
    Ok(())
}

fn why<T>(inside: Result<T, SszError>) -> Option<String> {
    inside.err().map(|e| e.text())
}

#[test]
fn a_damaged_message_is_refused_for_the_same_reason() {
    let request = VcRequest { subject: b"alice".to_vec() }.as_ssz_bytes();
    for bytes in damaged(&request, &[0]) {
        assert_eq!(why(VcRequest::from_ssz_bytes(&bytes)), told(message_outside(&bytes, &[], false)));
    }
    let request = StatusRequest { action: 1, data: vec![5; 9] }.as_ssz_bytes();
    for bytes in damaged(&request, &[1]) {
        assert_eq!(
            why(StatusRequest::from_ssz_bytes(&bytes)),
            told(message_outside(&bytes, &[1], false))
        );
    }
    let updated = StatusUpdated { version: 1, credential: vec![5; 9] }.as_ssz_bytes();
    for bytes in damaged(&updated, &[4]) {
        assert_eq!(
            why(StatusUpdated::from_ssz_bytes(&bytes)),
            told(message_outside(&bytes, &[4], false))
        );
    }
    let proposal = Proposal { version: 1, list: vec![[3; 32]] }.as_ssz_bytes();
    for bytes in damaged(&proposal, &[4]) {
        assert_eq!(
            why(Proposal::from_ssz_bytes(&bytes)),
            told(message_outside(&bytes, &[4], true))
        );
    }
    let linked = LinkedProposal { predecessor: [9; 32], version: 1, list: vec![[3; 32]] };
    for bytes in damaged(&linked.as_ssz_bytes(), &[36]) {
        assert_eq!(
            why(LinkedProposal::from_ssz_bytes(&bytes)),
            told(message_outside(&bytes, &[32, 4], true))
        );
    }
}

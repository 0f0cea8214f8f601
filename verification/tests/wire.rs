//! Messages of the network and how they are framed.
use decentralized_root_of_trust::demo::wire::{
    frame, frame_header, Failure, FrameError, LinkedProposal, MlDsaSignatureReply, Proposal,
    SignatureReply, StatusRequest, StatusUpdated, VcIssued, VcRequest, MAX_FRAME, MSG_PROPOSAL,
};
use decentralized_root_of_trust::protocol::xmss::{XmssSignature, SIGNATURE_SSZ_LEN};
use ssz::SszEncoder;

#[test]
fn a_frame_announces_its_kind_and_length() {
    let framed = frame(MSG_PROPOSAL, b"abc").unwrap();
    assert_eq!(framed, [2, 3, 0, 0, 0, b'a', b'b', b'c']);
    let header: [u8; 5] = framed[..5].try_into().unwrap();
    assert_eq!(frame_header(&header), Ok((MSG_PROPOSAL, 3)));
}

#[test]
fn a_frame_over_the_ceiling_is_refused_both_ways() {
    let len = MAX_FRAME + 1;
    let outbound = frame(1, &vec![0; len]).unwrap_err();
    assert_eq!(outbound, FrameError::Outbound { len });
    assert_eq!(
        outbound.text(),
        "outbound frame of 8388609 bytes exceeds the 8388608-byte ceiling"
    );
    let mut header = [1u8; 5];
    header[1..].copy_from_slice(&(len as u32).to_le_bytes());
    let inbound = frame_header(&header).unwrap_err();
    assert_eq!(inbound, FrameError::Inbound { len });
    assert_eq!(
        inbound.text(),
        "inbound frame announces 8388609 bytes, over the 8388608-byte ceiling"
    );
}

#[test]
fn a_request_is_a_container_of_one_list() {
    let request = VcRequest { subject: b"alice".to_vec() };
    let mut buf = Vec::new();
    let mut encoder = SszEncoder::container(&mut buf, 4);
    encoder.append(&b"alice".to_vec());
    encoder.finalize();
    assert_eq!(request.as_ssz_bytes(), buf);
    assert_eq!(VcRequest::from_ssz_bytes(&buf).unwrap().subject, b"alice");
    assert!(VcRequest::from_ssz_bytes(&buf[1..]).is_err());
    assert!(VcRequest::from_ssz_bytes(&[5, 0, 0, 0, 1]).is_err());
}

#[test]
fn a_reason_is_read_back_and_garbage_has_a_text_too() {
    assert_eq!(Failure::text(&Failure::of("no quorum")), "no quorum");
    assert_eq!(Failure::text(&Failure::of("")), "");
    let broken = [4, 0, 0, 0, b'x', 0xff];
    assert_eq!(Failure::text(&broken), "x\u{fffd}");
    assert!(!Failure::text(&[1]).is_empty());
}

#[test]
fn a_version_travels_with_its_credential() {
    let issued = VcIssued { version: 7, credential: vec![1, 2] };
    let mut buf = Vec::new();
    let mut encoder = SszEncoder::container(&mut buf, 8);
    encoder.append(&7u32);
    encoder.append(&vec![1u8, 2]);
    encoder.finalize();
    assert_eq!(issued.as_ssz_bytes(), buf);
    let back = VcIssued::from_ssz_bytes(&buf).unwrap();
    assert_eq!((back.version, back.credential), (7, vec![1, 2]));
    let updated = StatusUpdated { version: 7, credential: vec![1, 2] };
    assert_eq!(updated.as_ssz_bytes(), buf);
    assert_eq!(StatusUpdated::from_ssz_bytes(&buf).unwrap().version, 7);
    assert!(VcIssued::from_ssz_bytes(&buf[..7]).is_err());
}

#[test]
fn an_action_travels_with_its_data() {
    let request = StatusRequest { action: 2, data: vec![9; 3] };
    let mut buf = Vec::new();
    let mut encoder = SszEncoder::container(&mut buf, 5);
    encoder.append(&2u8);
    encoder.append(&vec![9u8; 3]);
    encoder.finalize();
    assert_eq!(request.as_ssz_bytes(), buf);
    let back = StatusRequest::from_ssz_bytes(&buf).unwrap();
    assert_eq!((back.action, back.data), (2, vec![9; 3]));
    assert!(StatusRequest::from_ssz_bytes(&[]).is_err());
}

#[test]
fn a_proposal_is_read_back_with_its_list_in_order() {
    let list = vec![[1; 32], [2; 32]];
    let plain = Proposal { version: 3, list: list.clone() };
    let back = Proposal::from_ssz_bytes(&plain.as_ssz_bytes()).unwrap();
    assert_eq!((back.version, back.list), (3, list.clone()));
    let linked = LinkedProposal { predecessor: [7; 32], version: 3, list: list.clone() };
    let mut buf = Vec::new();
    let mut encoder = SszEncoder::container(&mut buf, 40);
    encoder.append(&[7u8; 32]);
    encoder.append(&3u32);
    encoder.append(&list);
    encoder.finalize();
    assert_eq!(linked.as_ssz_bytes(), buf);
    let back = LinkedProposal::from_ssz_bytes(&buf).unwrap();
    assert_eq!((back.predecessor, back.version, back.list), ([7; 32], 3, list));
    assert!(LinkedProposal::from_ssz_bytes(&buf[..buf.len() - 1]).is_err());
    assert!(Proposal::from_ssz_bytes(&[0; 8]).is_err());
}

#[test]
fn an_answer_holds_a_signature_or_a_reason() {
    let signature = XmssSignature::from_bytes(&[0x5a; SIGNATURE_SSZ_LEN]).unwrap();
    let signed = SignatureReply::from_ssz_bytes(&SignatureReply::signed(&signature)).unwrap();
    assert_eq!(signed.signature.len(), 1);
    assert_eq!(signed.signature[0].as_bytes(), signature.as_bytes());
    assert!(signed.reason.is_empty());
    let sat_out = SignatureReply::from_ssz_bytes(&SignatureReply::abstain("busy")).unwrap();
    assert!(sat_out.signature.is_empty());
    assert_eq!(sat_out.reason, b"busy");
    assert!(SignatureReply::from_ssz_bytes(&[0; 3]).is_err());

    let stateless = MlDsaSignatureReply::signed(&[0x33; 3309]);
    let back = MlDsaSignatureReply::from_ssz_bytes(&stateless).unwrap();
    assert_eq!(back.signature, Some(vec![0x33; 3309]));
    assert!(MlDsaSignatureReply::from_ssz_bytes(&stateless[1..]).is_none());
}

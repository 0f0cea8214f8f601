//! The messages the network exchanges, and their framing.
//!
//! Every message has one encoding, and a decoder refuses everything else. An
//! exchange is one request and one response on one connection.
use crate::bytes::{
    all_width, array32_at, blocks_of, concat, from_le32, le32, lemma_blocks_of_concat,
    lemma_concat_blocks_of, lemma_concat_len, lemma_from_le32, lemma_le32, push_all, push_arrays,
    push_le32, read_le32, split_arrays, to_vec, views,
};
use crate::framing::{
    blocks_refusal, check_blocks, check_fixed, check_offset, check_start, first_of, fixed_refusal,
    offset_refusal, start_refusal, SszError,
};
use crate::protocol::xmss::{signature_views, XmssSignature, SIGNATURE_SSZ_LEN};
use crate::text::{decimal, lossy_text, numbered, text_bytes, utf8_text_lossy};
use vstd::prelude::*;
use vstd::string::*;
use vstd::utf8::encode_utf8;

verus! {

/// A holder asks for a credential.
pub const MSG_VC_REQUEST: u8 = 1;

/// An aggregator asks the committee to sign.
pub const MSG_PROPOSAL: u8 = 2;

/// A member signs or abstains.
pub const MSG_SIGNATURE: u8 = 3;

/// The credential is handed over.
pub const MSG_VC_ISSUED: u8 = 4;

/// A request could not be served.
pub const MSG_FAILURE: u8 = 5;

/// A holder asks for the list to be changed.
pub const MSG_STATUS_REQUEST: u8 = 6;

/// The list was changed.
pub const MSG_STATUS_UPDATED: u8 = 7;

/// The resident relying party is asked for a round.
pub const MSG_ROUND_REQUEST: u8 = 8;

/// The verdict of a round.
pub const MSG_ROUND_RESULT: u8 = 9;

/// Issue a credential and add it to the list.
pub const ACTION_ISSUE: u8 = 1;

/// Take a credential off the list.
pub const ACTION_REVOKE: u8 = 2;

/// Change nothing and verify what is published.
pub const ACTION_VERIFY: u8 = 3;

/// Frames with a larger payload are refused before a byte of it is allocated.
pub const MAX_FRAME: usize = 8388608;

// ---- frames ------------------------------------------------------------------

/// Why a frame is refused.
#[derive(Clone, Copy, PartialEq, Eq, Structural, Debug)]
pub enum FrameError {
    /// The payload to be sent is over the ceiling.
    Outbound { len: usize },
    /// The payload announced is over the ceiling.
    Inbound { len: usize },
}

impl FrameError {
    /// The refusal in words.
    pub open spec fn message(self) -> Seq<char> {
        match self {
            FrameError::Outbound { len } => "outbound frame of "@ + decimal(len as nat)
                + " bytes exceeds the 8388608-byte ceiling"@,
            FrameError::Inbound { len } => "inbound frame announces "@ + decimal(len as nat)
                + " bytes, over the 8388608-byte ceiling"@,
        }
    }

    /// The refusal in words.
    pub fn text(&self) -> (text: String)
        ensures
            text@ == self.message(),
    {
        match self {
            FrameError::Outbound { len } => numbered(
                "outbound frame of ",
                *len as u64,
                " bytes exceeds the 8388608-byte ceiling",
            ),
            FrameError::Inbound { len } => numbered(
                "inbound frame announces ",
                *len as u64,
                " bytes, over the 8388608-byte ceiling",
            ),
        }
    }
}

/// A frame: the kind of the message, the length of its payload and the payload.
pub open spec fn frame_bytes(kind: u8, payload: Seq<u8>) -> Seq<u8> {
    seq![kind] + le32(payload.len() as u32) + payload
}

/// Frames a message, unless its payload is over the ceiling.
pub fn frame(kind: u8, payload: &[u8]) -> (r: Result<Vec<u8>, FrameError>)
    ensures
        match r {
            Ok(bytes) => payload@.len() <= MAX_FRAME && bytes@ == frame_bytes(kind, payload@),
            Err(e) => payload@.len() > MAX_FRAME && e == (FrameError::Outbound {
                len: payload@.len() as usize,
            }),
        },
{
    let len: usize = payload.len();
    if len > MAX_FRAME {
        return Err(FrameError::Outbound { len });
    }
    let mut framed: Vec<u8> = Vec::new();
    framed.push(kind);
    push_le32(&mut framed, len as u32);
    push_all(&mut framed, payload);
    assert(framed@ =~= frame_bytes(kind, payload@));
    Ok(framed)
}

/// The kind of a message and the length of its payload, as its first five bytes
/// announce them. The length is checked here, before anything is allocated for it.
pub fn frame_header(header: &[u8; 5]) -> (r: Result<(u8, usize), FrameError>)
    ensures
        ({
            let len = from_le32(header@.subrange(1, 5));
            r == if len > MAX_FRAME {
                Err::<(u8, usize), FrameError>(FrameError::Inbound { len: len as usize })
            } else {
                Ok((header@[0], len as usize))
            }
        }),
{
    let len32: u32 = read_le32(header.as_slice(), 1);
    let len: usize = len32 as usize;
    if len > MAX_FRAME {
        Err(FrameError::Inbound { len })
    } else {
        Ok((header[0], len))
    }
}

/// What was framed is announced by its header and follows it.
pub proof fn law_a_frame_is_read_back(kind: u8, payload: Seq<u8>)
    requires
        payload.len() <= MAX_FRAME,
    ensures
        ({
            let b = frame_bytes(kind, payload);
            &&& b.len() == 5 + payload.len()
            &&& b[0] == kind
            &&& from_le32(b.subrange(1, 5)) == payload.len()
            &&& b.subrange(5, b.len() as int) == payload
        }),
{
    let b = frame_bytes(kind, payload);
    let n = le32(payload.len() as u32);
    lemma_le32(payload.len() as u32);
    assert(b == seq![kind] + n + payload);
    assert(b.subrange(1, 5) =~= n);
    assert(b.subrange(5, b.len() as int) =~= payload);
}

// ---- containers with one variable field --------------------------------------

/// A container of a fixed part, the offset of the variable field, and that field.
pub open spec fn with_tail(head: Seq<u8>, tail: Seq<u8>) -> Seq<u8> {
    head + le32((head.len() + 4) as u32) + tail
}

/// Whether `b` is such a container with `at` fixed bytes.
pub open spec fn tail_framed(b: Seq<u8>, at: int) -> bool {
    b.len() >= at + 4 && from_le32(b.subrange(at, at + 4)) == at + 4
}

/// The variable field of such a container.
pub open spec fn tail(b: Seq<u8>, at: int) -> Seq<u8> {
    b.subrange(at + 4, b.len() as int)
}

/// A container is read back as its parts.
pub proof fn law_a_tail_is_read_back(head: Seq<u8>, field: Seq<u8>)
    requires
        head.len() <= 64,
    ensures
        ({
            let b = with_tail(head, field);
            &&& tail_framed(b, head.len() as int)
            &&& tail(b, head.len() as int) == field
            &&& b.subrange(0, head.len() as int) == head
            &&& b.len() == head.len() + 4 + field.len()
        }),
{
    let b = with_tail(head, field);
    let n = le32((head.len() + 4) as u32);
    let at = head.len() as int;
    lemma_le32((head.len() + 4) as u32);
    assert(b == head + n + field);
    assert(b.subrange(at, at + 4) =~= n);
    assert(tail(b, at) =~= field);
    assert(b.subrange(0, at) =~= head);
}

/// A container has one form: whatever has these parts is their container.
pub proof fn law_a_container_has_one_form(b: Seq<u8>, at: int)
    requires
        0 <= at <= 64,
        tail_framed(b, at),
    ensures
        with_tail(b.subrange(0, at), tail(b, at)) == b,
{
    lemma_from_le32(b.subrange(at, at + 4));
    let n = le32((at + 4) as u32);
    assert(n == b.subrange(at, at + 4));
    assert(b.subrange(0, at) + n + tail(b, at) =~= b);
}

/// What is wrong with bytes that should be a container with `at` fixed bytes.
pub open spec fn tail_refusal(b: Seq<u8>, at: int) -> Option<SszError> {
    first_of(
        fixed_refusal(b, at),
        first_of(offset_refusal(b, at, None), start_refusal(b, at, at + 4)),
    )
}

/// Bytes are refused exactly when they are not such a container.
pub proof fn law_a_refused_container_is_not_framed(b: Seq<u8>, at: int)
    requires
        0 <= at,
    ensures
        tail_refusal(b, at) is None <==> tail_framed(b, at),
{
}

fn check_tail(b: &[u8], at: usize) -> (r: Option<SszError>)
    requires
        at <= 64,
    ensures
        r == tail_refusal(b@, at as int),
        r is None <==> tail_framed(b@, at as int),
{
    proof {
        law_a_refused_container_is_not_framed(b@, at as int);
    }
    if let Some(e) = check_fixed(b, at) {
        return Some(e);
    }
    if let Some(e) = check_offset(b, at, None) {
        return Some(e);
    }
    check_start(b, at, at + 4)
}

/// A holder asking a committee member for a credential.
#[derive(Debug)]
pub struct VcRequest {
    pub subject: Vec<u8>,
}

/// The encoding of a message whose one field is `field`.
pub open spec fn single_bytes(field: Seq<u8>) -> Seq<u8> {
    with_tail(Seq::empty(), field)
}

fn single(field: &[u8]) -> (bytes: Vec<u8>)
    ensures
        bytes@ == single_bytes(field@),
{
    let mut bytes: Vec<u8> = Vec::new();
    push_le32(&mut bytes, 4);
    push_all(&mut bytes, field);
    assert(bytes@ =~= single_bytes(field@));
    bytes
}

impl VcRequest {
    /// The encoding.
    pub fn as_ssz_bytes(&self) -> (bytes: Vec<u8>)
        ensures
            bytes@ == single_bytes(self.subject@),
    {
        single(self.subject.as_slice())
    }

    /// Inverse of [`VcRequest::as_ssz_bytes`].
    pub fn from_ssz_bytes(bytes: &[u8]) -> (r: Result<VcRequest, SszError>)
        ensures
            match r {
                Ok(m) => tail_framed(bytes@, 0) && m.subject@ == tail(bytes@, 0),
                Err(e) => !tail_framed(bytes@, 0) && tail_refusal(bytes@, 0) == Some(e),
            },
    {
        if let Some(e) = check_tail(bytes, 0) {
            return Err(e);
        }
        Ok(VcRequest { subject: to_vec(&bytes[4..bytes.len()]) })
    }
}

/// Why a request could not be served.
#[derive(Debug)]
pub struct Failure {
    pub reason: Vec<u8>,
}

/// The encoding of a failure with this reason.
pub open spec fn failure_bytes(reason: Seq<char>) -> Seq<u8> {
    single_bytes(encode_utf8(reason))
}

/// The reason that an encoded failure gives. Parts that are not UTF-8 are replaced.
pub open spec fn failure_text(b: Seq<u8>) -> Seq<char> {
    if !tail_framed(b, 0) {
        "undecodable failure message"@
    } else {
        lossy_text(tail(b, 0))
    }
}

impl Failure {
    /// The encoding of a failure with this reason.
    pub fn of(reason: &str) -> (bytes: Vec<u8>)
        ensures
            bytes@ == failure_bytes(reason@),
    {
        let plain = text_bytes(reason);
        single(plain.as_slice())
    }

    /// The reason that an encoded failure gives.
    pub fn text(bytes: &[u8]) -> (text: String)
        ensures
            text@ == failure_text(bytes@),
    {
        if check_tail(bytes, 0).is_none() {
            utf8_text_lossy(&bytes[4..bytes.len()])
        } else {
            "undecodable failure message".to_owned()
        }
    }
}

/// A reason is read back as it was given.
pub proof fn law_a_reason_is_read_back(reason: Seq<char>)
    ensures
        failure_text(failure_bytes(reason)) == reason,
{
    law_a_tail_is_read_back(Seq::empty(), encode_utf8(reason));
    vstd::utf8::encode_utf8_valid_utf8(reason);
    vstd::utf8::encode_utf8_decode_utf8(reason);
}

/// The encoding of a version and bytes that belong to it.
pub open spec fn versioned_bytes(version: u32, field: Seq<u8>) -> Seq<u8> {
    with_tail(le32(version), field)
}

/// The version in such a message.
pub open spec fn version_in(b: Seq<u8>) -> u32 {
    from_le32(b.subrange(0, 4))
}

/// A version and the bytes that belong to it are read back.
pub proof fn law_a_versioned_message_is_read_back(version: u32, field: Seq<u8>)
    ensures
        ({
            let b = versioned_bytes(version, field);
            &&& tail_framed(b, 4)
            &&& version_in(b) == version
            &&& tail(b, 4) == field
            &&& b.len() == 8 + field.len()
        }),
{
    lemma_le32(version);
    law_a_tail_is_read_back(le32(version), field);
}

fn versioned(version: u32, field: &[u8]) -> (bytes: Vec<u8>)
    ensures
        bytes@ == versioned_bytes(version, field@),
{
    proof {
        lemma_le32(version);
    }
    let mut bytes: Vec<u8> = Vec::new();
    push_le32(&mut bytes, version);
    push_le32(&mut bytes, 8);
    push_all(&mut bytes, field);
    assert(bytes@ =~= versioned_bytes(version, field@));
    bytes
}

/// The credential, handed over once its fingerprint is in a published record.
#[derive(Debug)]
pub struct VcIssued {
    pub version: u32,
    pub credential: Vec<u8>,
}

impl VcIssued {
    /// The encoding.
    pub fn as_ssz_bytes(&self) -> (bytes: Vec<u8>)
        ensures
            bytes@ == versioned_bytes(self.version, self.credential@),
    {
        versioned(self.version, self.credential.as_slice())
    }

    /// Inverse of [`VcIssued::as_ssz_bytes`].
    pub fn from_ssz_bytes(bytes: &[u8]) -> (r: Result<VcIssued, SszError>)
        ensures
            match r {
                Ok(m) => tail_framed(bytes@, 4) && m.version == version_in(bytes@)
                    && m.credential@ == tail(bytes@, 4),
                Err(e) => !tail_framed(bytes@, 4) && tail_refusal(bytes@, 4) == Some(e),
            },
    {
        if let Some(e) = check_tail(bytes, 4) {
            return Err(e);
        }
        Ok(
            VcIssued {
                version: read_le32(bytes, 0),
                credential: to_vec(&bytes[8..bytes.len()]),
            },
        )
    }
}

/// What became of the list, and the credential it was about.
#[derive(Debug)]
pub struct StatusUpdated {
    pub version: u32,
    pub credential: Vec<u8>,
}

impl StatusUpdated {
    /// The encoding.
    pub fn as_ssz_bytes(&self) -> (bytes: Vec<u8>)
        ensures
            bytes@ == versioned_bytes(self.version, self.credential@),
    {
        versioned(self.version, self.credential.as_slice())
    }

    /// Inverse of [`StatusUpdated::as_ssz_bytes`].
    pub fn from_ssz_bytes(bytes: &[u8]) -> (r: Result<StatusUpdated, SszError>)
        ensures
            match r {
                Ok(m) => tail_framed(bytes@, 4) && m.version == version_in(bytes@)
                    && m.credential@ == tail(bytes@, 4),
                Err(e) => !tail_framed(bytes@, 4) && tail_refusal(bytes@, 4) == Some(e),
            },
    {
        if let Some(e) = check_tail(bytes, 4) {
            return Err(e);
        }
        Ok(
            StatusUpdated {
                version: read_le32(bytes, 0),
                credential: to_vec(&bytes[8..bytes.len()]),
            },
        )
    }
}

/// A holder asking for the list to be changed.
#[derive(Debug)]
pub struct StatusRequest {
    pub action: u8,
    pub data: Vec<u8>,
}

/// The encoding of an action and its data.
pub open spec fn action_bytes(action: u8, data: Seq<u8>) -> Seq<u8> {
    with_tail(seq![action], data)
}

impl StatusRequest {
    /// The encoding.
    pub fn as_ssz_bytes(&self) -> (bytes: Vec<u8>)
        ensures
            bytes@ == action_bytes(self.action, self.data@),
    {
        let mut bytes: Vec<u8> = Vec::new();
        bytes.push(self.action);
        push_le32(&mut bytes, 5);
        push_all(&mut bytes, self.data.as_slice());
        assert(bytes@ =~= action_bytes(self.action, self.data@));
        bytes
    }

    /// Inverse of [`StatusRequest::as_ssz_bytes`].
    pub fn from_ssz_bytes(bytes: &[u8]) -> (r: Result<StatusRequest, SszError>)
        ensures
            match r {
                Ok(m) => tail_framed(bytes@, 1) && m.action == bytes@[0] && m.data@ == tail(
                    bytes@,
                    1,
                ),
                Err(e) => !tail_framed(bytes@, 1) && tail_refusal(bytes@, 1) == Some(e),
            },
    {
        if let Some(e) = check_tail(bytes, 1) {
            return Err(e);
        }
        Ok(StatusRequest { action: bytes[0], data: to_vec(&bytes[5..bytes.len()]) })
    }
}

// ---- proposals ---------------------------------------------------------------

/// An aggregator asking the committee to sign the next version of the list. It
/// does not carry the slot: every member derives that itself, so that nobody can
/// ask two versions to be signed at one slot.
#[derive(Debug)]
pub struct Proposal {
    pub version: u32,
    pub list: Vec<[u8; 32]>,
}

/// The encoding of a proposal.
pub open spec fn proposal_bytes(version: u32, list: Seq<Seq<u8>>) -> Seq<u8> {
    versioned_bytes(version, concat(list))
}

/// Whether `b` is the encoding of a proposal.
pub open spec fn proposal_framed(b: Seq<u8>) -> bool {
    tail_framed(b, 4) && tail(b, 4).len() % 32 == 0
}

/// What is wrong with bytes that should be the encoding of a proposal.
pub open spec fn proposal_refusal(b: Seq<u8>) -> Option<SszError> {
    first_of(tail_refusal(b, 4), blocks_refusal(b.len() - 8, 32, false))
}

/// The list in an encoded proposal.
pub open spec fn proposal_list(b: Seq<u8>) -> Seq<Seq<u8>> {
    blocks_of(tail(b, 4), 32)
}

impl Proposal {
    /// The encoding.
    pub fn as_ssz_bytes(&self) -> (bytes: Vec<u8>)
        ensures
            bytes@ == proposal_bytes(self.version, views(self.list@)),
    {
        let mut body: Vec<u8> = Vec::new();
        push_arrays(&mut body, self.list.as_slice());
        assert(body@ =~= concat(views(self.list@)));
        versioned(self.version, body.as_slice())
    }

    /// Inverse of [`Proposal::as_ssz_bytes`].
    pub fn from_ssz_bytes(bytes: &[u8]) -> (r: Result<Proposal, SszError>)
        ensures
            match r {
                Ok(m) => proposal_framed(bytes@) && m.version == version_in(bytes@) && views(
                    m.list@,
                ) == proposal_list(bytes@),
                Err(e) => !proposal_framed(bytes@) && proposal_refusal(bytes@) == Some(e),
            },
    {
        if let Some(e) = check_tail(bytes, 4) {
            return Err(e);
        }
        if let Some(e) = check_blocks(bytes.len() - 8, 32, false) {
            return Err(e);
        }
        Ok(
            Proposal {
                version: read_le32(bytes, 0),
                list: split_arrays(&bytes[8..bytes.len()]),
            },
        )
    }
}

/// A proposal is read back as it was sent.
pub proof fn law_a_proposal_is_read_back(version: u32, list: Seq<Seq<u8>>)
    requires
        all_width(list, 32),
    ensures
        proposal_framed(proposal_bytes(version, list)),
        version_in(proposal_bytes(version, list)) == version,
        proposal_list(proposal_bytes(version, list)) == list,
{
    law_a_versioned_message_is_read_back(version, concat(list));
    lemma_concat_len(list, 32);
    lemma_blocks_of_concat(list, 32);
}

/// A proposal that also names the statement it follows.
#[derive(Debug)]
pub struct LinkedProposal {
    pub predecessor: [u8; 32],
    pub version: u32,
    pub list: Vec<[u8; 32]>,
}

/// The encoding of a proposal that names its predecessor.
pub open spec fn linked_bytes(predecessor: Seq<u8>, version: u32, list: Seq<Seq<u8>>) -> Seq<u8> {
    with_tail(predecessor + le32(version), concat(list))
}

/// Whether `b` is such an encoding.
pub open spec fn linked_framed(b: Seq<u8>) -> bool {
    tail_framed(b, 36) && tail(b, 36).len() % 32 == 0
}

/// What is wrong with bytes that should be such an encoding.
pub open spec fn linked_refusal(b: Seq<u8>) -> Option<SszError> {
    first_of(
        fixed_refusal(b, 32),
        first_of(tail_refusal(b, 36), blocks_refusal(b.len() - 40, 32, false)),
    )
}

/// The predecessor in such an encoding.
pub open spec fn linked_predecessor(b: Seq<u8>) -> Seq<u8> {
    b.subrange(0, 32)
}

/// The version in such an encoding.
pub open spec fn linked_version(b: Seq<u8>) -> u32 {
    from_le32(b.subrange(32, 36))
}

/// The list in such an encoding.
pub open spec fn linked_list(b: Seq<u8>) -> Seq<Seq<u8>> {
    blocks_of(tail(b, 36), 32)
}

impl LinkedProposal {
    /// The encoding.
    pub fn as_ssz_bytes(&self) -> (bytes: Vec<u8>)
        ensures
            bytes@ == linked_bytes(self.predecessor@, self.version, views(self.list@)),
    {
        proof {
            lemma_le32(self.version);
        }
        let mut bytes: Vec<u8> = Vec::new();
        push_all(&mut bytes, self.predecessor.as_slice());
        push_le32(&mut bytes, self.version);
        push_le32(&mut bytes, 40);
        push_arrays(&mut bytes, self.list.as_slice());
        assert(bytes@ =~= linked_bytes(self.predecessor@, self.version, views(self.list@)));
        bytes
    }

    /// Inverse of [`LinkedProposal::as_ssz_bytes`].
    pub fn from_ssz_bytes(bytes: &[u8]) -> (r: Result<LinkedProposal, SszError>)
        ensures
            match r {
                Ok(m) => {
                    &&& linked_framed(bytes@)
                    &&& m.predecessor@ == linked_predecessor(bytes@)
                    &&& m.version == linked_version(bytes@)
                    &&& views(m.list@) == linked_list(bytes@)
                },
                Err(e) => !linked_framed(bytes@) && linked_refusal(bytes@) == Some(e),
            },
    {
        if let Some(e) = check_fixed(bytes, 32) {
            return Err(e);
        }
        if let Some(e) = check_tail(bytes, 36) {
            return Err(e);
        }
        if let Some(e) = check_blocks(bytes.len() - 40, 32, false) {
            return Err(e);
        }
        Ok(
            LinkedProposal {
                predecessor: array32_at(bytes, 0),
                version: read_le32(bytes, 32),
                list: split_arrays(&bytes[40..bytes.len()]),
            },
        )
    }
}

/// A proposal that names its predecessor is read back as it was sent.
pub proof fn law_a_linked_proposal_is_read_back(
    predecessor: Seq<u8>,
    version: u32,
    list: Seq<Seq<u8>>,
)
    requires
        predecessor.len() == 32,
        all_width(list, 32),
    ensures
        ({
            let b = linked_bytes(predecessor, version, list);
            &&& linked_framed(b)
            &&& linked_predecessor(b) == predecessor
            &&& linked_version(b) == version
            &&& linked_list(b) == list
        }),
{
    let b = linked_bytes(predecessor, version, list);
    let n = le32(version);
    lemma_le32(version);
    law_a_tail_is_read_back(predecessor + n, concat(list));
    lemma_concat_len(list, 32);
    lemma_blocks_of_concat(list, 32);
    assert(b.subrange(0, 36) == predecessor + n);
    assert(b.subrange(0, 36).subrange(0, 32) =~= predecessor);
    assert(b.subrange(0, 36).subrange(32, 36) =~= n);
    assert(b.subrange(0, 32) =~= b.subrange(0, 36).subrange(0, 32));
    assert(b.subrange(32, 36) =~= b.subrange(0, 36).subrange(32, 36));
}

// ---- replies to proposals ----------------------------------------------------

/// A container of two variable fields: the offset of each and then the two.
pub open spec fn pair_bytes(first: Seq<u8>, second: Seq<u8>) -> Seq<u8> {
    le32(8) + le32((8 + first.len()) as u32) + first + second
}

/// Whether `b` is such a container.
pub open spec fn pair_framed(b: Seq<u8>) -> bool {
    &&& b.len() >= 8
    &&& from_le32(b.subrange(0, 4)) == 8
    &&& 8 <= from_le32(b.subrange(4, 8)) <= b.len()
}

/// What is wrong with bytes that should be such a container.
pub open spec fn pair_refusal(b: Seq<u8>) -> Option<SszError> {
    first_of(
        offset_refusal(b, 0, None),
        first_of(offset_refusal(b, 4, Some(0usize)), start_refusal(b, 0, 8)),
    )
}

/// The first field of such a container.
pub open spec fn pair_first(b: Seq<u8>) -> Seq<u8> {
    b.subrange(8, from_le32(b.subrange(4, 8)) as int)
}

/// The second field of such a container.
pub open spec fn pair_second(b: Seq<u8>) -> Seq<u8> {
    b.subrange(from_le32(b.subrange(4, 8)) as int, b.len() as int)
}

/// Two fields are read back.
pub proof fn law_a_pair_is_read_back(first: Seq<u8>, second: Seq<u8>)
    requires
        8 + first.len() <= u32::MAX,
    ensures
        ({
            let b = pair_bytes(first, second);
            &&& pair_framed(b)
            &&& pair_first(b) == first
            &&& pair_second(b) == second
        }),
{
    let b = pair_bytes(first, second);
    let off = (8 + first.len()) as u32;
    let (f1, f2) = (le32(8), le32(off));
    lemma_le32(8);
    lemma_le32(off);
    assert(b == f1 + f2 + first + second);
    assert(b.subrange(0, 4) =~= f1);
    assert(b.subrange(4, 8) =~= f2);
    assert(pair_first(b) =~= first);
    assert(pair_second(b) =~= second);
}

fn pair(first: &[u8], second: &[u8]) -> (bytes: Vec<u8>)
    requires
        8 + first@.len() <= u32::MAX,
    ensures
        bytes@ == pair_bytes(first@, second@),
{
    let mut bytes: Vec<u8> = Vec::new();
    push_le32(&mut bytes, 8);
    push_le32(&mut bytes, 8 + (first.len() as u32));
    push_all(&mut bytes, first);
    push_all(&mut bytes, second);
    assert(bytes@ =~= pair_bytes(first@, second@));
    bytes
}

fn unpair(b: &[u8]) -> (r: Result<(Vec<u8>, Vec<u8>), SszError>)
    ensures
        match r {
            Ok(parts) => pair_framed(b@) && parts.0@ == pair_first(b@) && parts.1@ == pair_second(
                b@,
            ) && pair_refusal(b@) is None,
            Err(e) => !pair_framed(b@) && pair_refusal(b@) == Some(e),
        },
{
    if let Some(e) = check_offset(b, 0, None) {
        return Err(e);
    }
    if let Some(e) = check_offset(b, 4, Some(0)) {
        return Err(e);
    }
    if let Some(e) = check_start(b, 0, 8) {
        return Err(e);
    }
    let off: usize = read_le32(b, 4) as usize;
    Ok((to_vec(&b[8..off]), to_vec(&b[off..b.len()])))
}

/// A member's answer to a proposal: one signature, or none and the reason for
/// abstaining. Abstaining is a normal outcome, and the quorum goes on without it.
#[derive(Debug)]
pub struct SignatureReply {
    pub signature: Vec<XmssSignature>,
    pub reason: Vec<u8>,
}

/// The encoding of an answer.
pub open spec fn reply_bytes(signatures: Seq<Seq<u8>>, reason: Seq<u8>) -> Seq<u8> {
    pair_bytes(concat(signatures), reason)
}

/// The encoding of an answer that gives one signature.
pub open spec fn signed_reply(signature: Seq<u8>) -> Seq<u8> {
    reply_bytes(seq![signature], Seq::empty())
}

/// The encoding of an answer that abstains.
pub open spec fn abstained_reply(reason: Seq<char>) -> Seq<u8> {
    reply_bytes(Seq::empty(), encode_utf8(reason))
}

/// Whether `b` is the encoding of an answer.
pub open spec fn reply_framed(b: Seq<u8>) -> bool {
    pair_framed(b) && pair_first(b).len() % (SIGNATURE_SSZ_LEN as nat) == 0
}

/// What is wrong with bytes that should be the encoding of an answer. The signatures have
/// a format of their own.
pub open spec fn reply_refusal(b: Seq<u8>) -> Option<SszError> {
    first_of(
        pair_refusal(b),
        blocks_refusal(pair_first(b).len() as int, SIGNATURE_SSZ_LEN as int, true),
    )
}

/// The signatures in an encoded answer.
pub open spec fn reply_signatures(b: Seq<u8>) -> Seq<Seq<u8>> {
    blocks_of(pair_first(b), SIGNATURE_SSZ_LEN as int)
}

impl SignatureReply {
    /// An answer that gives one signature.
    pub fn signed(signature: &XmssSignature) -> (bytes: Vec<u8>)
        ensures
            bytes@ == signed_reply(signature@),
    {
        let empty: Vec<u8> = Vec::new();
        proof {
            crate::bytes::lemma_concat_push(Seq::empty(), signature@);
            assert(Seq::<Seq<u8>>::empty().push(signature@) =~= seq![signature@]);
            assert(concat(Seq::empty()) =~= Seq::<u8>::empty());
            assert(concat(seq![signature@]) =~= signature@);
        }
        let plain: &[u8] = signature.as_bytes();
        pair(plain, empty.as_slice())
    }

    /// An answer that abstains.
    pub fn abstain(reason: &str) -> (bytes: Vec<u8>)
        ensures
            bytes@ == abstained_reply(reason@),
    {
        let empty: Vec<u8> = Vec::new();
        let plain = text_bytes(reason);
        assert(concat(Seq::empty()) =~= empty@);
        pair(empty.as_slice(), plain.as_slice())
    }

    /// Decodes an answer.
    pub fn from_ssz_bytes(bytes: &[u8]) -> (r: Result<SignatureReply, SszError>)
        ensures
            match r {
                Ok(m) => {
                    &&& reply_framed(bytes@)
                    &&& signature_views(m.signature@) == reply_signatures(bytes@)
                    &&& m.reason@ == pair_second(bytes@)
                },
                Err(e) => !reply_framed(bytes@) && reply_refusal(bytes@) == Some(e),
            },
    {
        let (first, reason) = match unpair(bytes) {
            Ok(parts) => parts,
            Err(e) => {
                return Err(e);
            },
        };
        if let Some(e) = check_blocks(first.len(), SIGNATURE_SSZ_LEN, true) {
            return Err(e);
        }
        let plain = crate::bytes::split_vecs(first.as_slice(), SIGNATURE_SSZ_LEN);
        let mut signature: Vec<XmssSignature> = Vec::new();
        let mut k: usize = 0;
        while k < plain.len()
            invariant
                k <= plain@.len(),
                crate::bytes::vec_views(plain@) == blocks_of(first@, SIGNATURE_SSZ_LEN as int),
                first@.len() % (SIGNATURE_SSZ_LEN as nat) == 0,
                signature@.len() == k,
                forall|j: int|
                    0 <= j < k ==> (#[trigger] signature@[j])@ == plain@[j]@,
            decreases plain@.len() - k,
        {
            proof {
                let blocks = blocks_of(first@, SIGNATURE_SSZ_LEN as int);
                lemma_concat_blocks_of(first@, SIGNATURE_SSZ_LEN as int);
                assert(blocks[k as int] == plain@[k as int]@);
                assert(blocks[k as int].len() == SIGNATURE_SSZ_LEN);
            }
            match XmssSignature::from_bytes(plain[k].as_slice()) {
                Some(s) => {
                    signature.push(s);
                },
                None => {
                    assert(false);
                },
            }
            k = k + 1;
        }
        assert(signature_views(signature@) =~= crate::bytes::vec_views(plain@));
        Ok(SignatureReply { signature, reason })
    }
}

/// A member's answer under the stateless scheme.
#[derive(Debug)]
pub struct MlDsaSignatureReply {
    pub signature: Option<Vec<u8>>,
    pub reason: Vec<u8>,
}

/// Whether `b` is the encoding of an answer with at most one signature.
pub open spec fn ml_dsa_reply_framed(b: Seq<u8>) -> bool {
    pair_framed(b) && (pair_first(b).len() == 0 || tail_framed(pair_first(b), 0))
}

/// The signature in an encoded answer.
pub open spec fn ml_dsa_reply_signature(b: Seq<u8>) -> Option<Seq<u8>> {
    if pair_first(b).len() == 0 {
        None
    } else {
        Some(tail(pair_first(b), 0))
    }
}

/// The encoding of an answer that gives one signature.
pub open spec fn ml_dsa_signed_reply(signature: Seq<u8>) -> Seq<u8> {
    pair_bytes(single_bytes(signature), Seq::empty())
}

impl MlDsaSignatureReply {
    /// An answer that gives one signature.
    pub fn signed(signature: &[u8]) -> (bytes: Vec<u8>)
        requires
            signature@.len() <= 65536,
        ensures
            bytes@ == ml_dsa_signed_reply(signature@),
    {
        let empty: Vec<u8> = Vec::new();
        let item = single(signature);
        proof {
            law_a_tail_is_read_back(Seq::empty(), signature@);
        }
        pair(item.as_slice(), empty.as_slice())
    }

    /// Decodes an answer with at most one signature.
    pub fn from_ssz_bytes(bytes: &[u8]) -> (r: Option<MlDsaSignatureReply>)
        ensures
            match r {
                Some(m) => {
                    &&& ml_dsa_reply_framed(bytes@)
                    &&& m.reason@ == pair_second(bytes@)
                    &&& match m.signature {
                        Some(s) => ml_dsa_reply_signature(bytes@) == Some(s@),
                        None => ml_dsa_reply_signature(bytes@) is None,
                    }
                },
                None => !ml_dsa_reply_framed(bytes@),
            },
    {
        let (first, reason) = match unpair(bytes) {
            Ok(parts) => parts,
            Err(_) => {
                return None;
            },
        };
        if first.len() == 0 {
            return Some(MlDsaSignatureReply { signature: None, reason });
        }
        if check_tail(first.as_slice(), 0).is_none() {
            let item = to_vec(&first.as_slice()[4..first.len()]);
            Some(MlDsaSignatureReply { signature: Some(item), reason })
        } else {
            None
        }
    }
}

/// A signature that a member gives is the one the aggregator reads.
pub proof fn law_a_signature_is_read_back(signature: Seq<u8>)
    requires
        signature.len() == SIGNATURE_SSZ_LEN,
    ensures
        reply_framed(signed_reply(signature)),
        reply_signatures(signed_reply(signature)) == seq![signature],
{
    let list = seq![signature];
    assert(all_width(list, SIGNATURE_SSZ_LEN as int));
    lemma_concat_len(list, SIGNATURE_SSZ_LEN as int);
    lemma_blocks_of_concat(list, SIGNATURE_SSZ_LEN as int);
    law_a_pair_is_read_back(concat(list), Seq::empty());
}

/// A member that abstains gives no signature, and its reason is read back.
pub proof fn law_an_abstention_carries_no_signature(reason: Seq<char>)
    ensures
        reply_framed(abstained_reply(reason)),
        reply_signatures(abstained_reply(reason)).len() == 0,
        pair_second(abstained_reply(reason)) == encode_utf8(reason),
{
    law_a_pair_is_read_back(concat(Seq::empty()), encode_utf8(reason));
}

/// A signature that a member gives under the stateless scheme is the one that is read, and
/// an answer without one carries none.
pub proof fn law_a_stateless_signature_is_read_back(signature: Seq<u8>, reason: Seq<u8>)
    requires
        signature.len() <= 65536,
    ensures
        ml_dsa_reply_framed(ml_dsa_signed_reply(signature)),
        ml_dsa_reply_signature(ml_dsa_signed_reply(signature)) == Some(signature),
        ml_dsa_reply_framed(pair_bytes(Seq::empty(), reason)),
        ml_dsa_reply_signature(pair_bytes(Seq::empty(), reason)) is None,
{
    law_a_tail_is_read_back(Seq::empty(), signature);
    law_a_pair_is_read_back(single_bytes(signature), Seq::empty());
    law_a_pair_is_read_back(Seq::empty(), reason);
}

/// A frame announces its own kind and length: its first five bytes are read as the kind and
/// the length of the payload it was made for, and what is over the ceiling is neither sent
/// nor announced.
pub proof fn law_a_frame_announces_itself(
    kind: u8,
    payload: &[u8],
    framed: Result<Vec<u8>, FrameError>,
    header: &[u8; 5],
    announced: Result<(u8, usize), FrameError>,
)
    requires
        call_ensures(frame, (kind, payload), framed),
        call_ensures(frame_header, (header,), announced),
    ensures
        framed is Ok <==> payload@.len() <= 8388608,
        framed is Ok && header@ == framed->Ok_0@.subrange(0, 5) ==> announced == Ok::<
            (u8, usize),
            FrameError,
        >((kind, payload@.len() as usize)),
        framed is Ok ==> framed->Ok_0@.subrange(5, framed->Ok_0@.len() as int) == payload@,
        announced is Ok ==> (announced->Ok_0).1 <= 8388608,
{
    if framed is Ok {
        law_a_frame_is_read_back(kind, payload@);
        let b = framed->Ok_0@;
        assert(b.subrange(0, 5)[0] == b[0]);
        assert(b.subrange(0, 5).subrange(1, 5) =~= b.subrange(1, 5));
    }
}

} // verus!

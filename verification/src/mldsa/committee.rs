//! Canonical ML-DSA-65 committee trust anchor: the fixed public keys, the
//! threshold and the statement members sign.
use crate::bytes::{
    all_width, blocks_of, concat, from_le32, from_le64, le32, le64, lemma_blocks_of_concat,
    lemma_concat_blocks_of, lemma_concat_len, lemma_concat_push, lemma_from_le32, lemma_from_le64, lemma_le32,
    lemma_le64, push_all, push_le32, push_le64, read_le32, read_le64, views,
};
use crate::framing::{
    blocks_refusal, check_blocks, check_fixed, check_offset, check_start, first_of, fixed_refusal,
    offset_refusal, start_refusal, SszError,
};
use crate::hash::{sha3_384, sha3_384_digest};
use crate::mldsa::signer::{
    canonical_key, decode_public_key, public_key_views, PublicKey, PUBLIC_KEY_BYTES,
};
use crate::mldsa::status_list::{law_statement_is_unambiguous, statement_bytes, statement_of};
use crate::protocol::MAX_COMMITTEE_SIZE;
use crate::protocol::committee::distinct;
use crate::text::{decimal, joined, push_decimal};
use vstd::prelude::*;
use vstd::string::*;

verus! {

/// How many bytes an anchor identifier has.
pub const ANCHOR_ID_BYTES: usize = 48;

/// The most bytes an encoded anchor can have.
pub const MAX_COMMITTEE_WIRE_BYTES: usize = 3997708;

/// Why keys and a threshold, or bytes, make no anchor.
#[derive(Clone, Copy, PartialEq, Eq, Structural, Debug)]
pub enum CommitteeError {
    /// More bytes than the largest anchor has.
    TooLong { len: usize },
    /// The bytes are not the anchor's container.
    NotSsz(SszError),
    /// The threshold does not fit a machine word.
    ThresholdTooLarge { threshold: u64 },
    /// A member's key is not in its canonical encoding.
    NonCanonicalKey,
    /// There are no members.
    NoMembers,
    /// There are more members than the ceiling.
    TooManyMembers { members: usize },
    /// A public key occurs twice.
    DuplicateMembers,
    /// The threshold is zero or above the number of members.
    ThresholdOutside { t: usize, members: usize },
}

/// What an anchor says.
#[verifier::ext_equal]
pub struct MlDsaAnchor {
    pub members: Seq<Seq<u8>>,
    pub threshold: nat,
}

/// Whether every member is a key in its canonical encoding.
pub open spec fn all_canonical(keys: Seq<Seq<u8>>) -> bool {
    forall|i: int| 0 <= i < keys.len() ==> canonical_key(#[trigger] keys[i])
}

/// What is wrong with the members and the threshold of an anchor, in the order in
/// which it is looked at.
pub open spec fn anchor_fault(members: Seq<Seq<u8>>, threshold: nat) -> Option<CommitteeError> {
    if members.len() == 0 {
        Some(CommitteeError::NoMembers)
    } else if members.len() > MAX_COMMITTEE_SIZE {
        Some(CommitteeError::TooManyMembers { members: members.len() as usize })
    } else if !distinct(members) {
        Some(CommitteeError::DuplicateMembers)
    } else if !(1 <= threshold <= members.len()) {
        Some(
            CommitteeError::ThresholdOutside {
                t: threshold as usize,
                members: members.len() as usize,
            },
        )
    } else {
        None
    }
}

impl MlDsaAnchor {
    /// Whether the members are canonical keys, each occurring once, within the
    /// ceiling, and the threshold is between one and their number.
    pub open spec fn wf(self) -> bool {
        all_canonical(self.members) && anchor_fault(self.members, self.threshold) is None
    }

    /// The container: offset of the members, threshold, and then the members.
    pub open spec fn encode(self) -> Seq<u8> {
        le32(12) + le64(self.threshold as u64) + concat(self.members)
    }

    /// The fixed identifier bound into every statement.
    pub open spec fn id(self) -> Seq<u8> {
        sha3_384(
            "decentralized-root-of-trust/ml-dsa-65/anchor-id/v1\0".spec_bytes() + self.encode(),
        )
    }

    /// What members sign for a list at a version.
    pub open spec fn statement(self, list: Seq<Seq<u8>>, version: u32) -> Seq<u8> {
        statement_of(self.id(), list, version)
    }
}

/// Whether `b` is cut into the fields of the anchor's container.
pub open spec fn anchor_framed(b: Seq<u8>) -> bool {
    &&& b.len() >= 12
    &&& from_le32(b.subrange(0, 4)) == 12
    &&& (b.len() - 12) % 1952 == 0
}

/// What is wrong with bytes that should be the anchor's container.
pub open spec fn anchor_refusal(b: Seq<u8>) -> Option<SszError> {
    first_of(
        offset_refusal(b, 0, None),
        first_of(
            fixed_refusal(b, 12),
            first_of(start_refusal(b, 0, 12), blocks_refusal(b.len() - 12, 1952, false)),
        ),
    )
}

/// Bytes are refused exactly when they are not cut into the fields of the container.
pub proof fn law_a_refused_anchor_is_not_framed(b: Seq<u8>)
    ensures
        anchor_refusal(b) is None <==> anchor_framed(b),
{
}

fn check_anchor(b: &[u8]) -> (r: Option<SszError>)
    ensures
        r == anchor_refusal(b@),
{
    if let Some(e) = check_offset(b, 0, None) {
        return Some(e);
    }
    if let Some(e) = check_fixed(b, 12) {
        return Some(e);
    }
    if let Some(e) = check_start(b, 0, 12) {
        return Some(e);
    }
    check_blocks(b.len() - 12, PUBLIC_KEY_BYTES, false)
}

/// The anchor that `b` is the wire form of, or why it is none.
pub open spec fn decode_anchor(b: Seq<u8>) -> Result<MlDsaAnchor, CommitteeError> {
    let members = blocks_of(b.subrange(12, b.len() as int), 1952);
    let threshold = from_le64(b.subrange(4, 12));
    if b.len() > MAX_COMMITTEE_WIRE_BYTES {
        Err(CommitteeError::TooLong { len: b.len() as usize })
    } else if !anchor_framed(b) {
        Err(CommitteeError::NotSsz(anchor_refusal(b)->0))
    } else if threshold > usize::MAX {
        Err(CommitteeError::ThresholdTooLarge { threshold })
    } else if !all_canonical(members) {
        Err(CommitteeError::NonCanonicalKey)
    } else {
        match anchor_fault(members, threshold as nat) {
            Some(e) => Err(e),
            None => Ok(MlDsaAnchor { members, threshold: threshold as nat }),
        }
    }
}

/// Decoding what was encoded gives the anchor back.
pub proof fn law_anchor_round_trip(a: MlDsaAnchor)
    requires
        a.wf(),
    ensures
        decode_anchor(a.encode()) == Ok::<MlDsaAnchor, CommitteeError>(a),
{
    let b = a.encode();
    assert(all_width(a.members, 1952));
    lemma_blocks_of_concat(a.members, 1952);
    let (f1, f2, body) = (le32(12), le64(a.threshold as u64), concat(a.members));
    lemma_le32(12);
    lemma_le64(a.threshold as u64);
    assert(b == f1 + f2 + body);
    assert(b.subrange(0, 4) =~= f1);
    assert(b.subrange(4, 12) =~= f2);
    assert(b.subrange(12, b.len() as int) =~= body);
}

/// An anchor has exactly one wire form: whatever decodes to it is its own encoding.
pub proof fn law_anchor_has_one_form(b: Seq<u8>, a: MlDsaAnchor)
    requires
        decode_anchor(b) == Ok::<MlDsaAnchor, CommitteeError>(a),
    ensures
        a.wf(),
        a.encode() == b,
{
    lemma_from_le32(b.subrange(0, 4));
    lemma_from_le64(b.subrange(4, 12));
    lemma_concat_blocks_of(b.subrange(12, b.len() as int), 1952);
    let (f1, f2, body) = (le32(12), le64(a.threshold as u64), concat(a.members));
    assert(f1 + f2 + body =~= b);
}

fn has_duplicate(members: &[PublicKey]) -> (r: bool)
    ensures
        r == !distinct(public_key_views(members@)),
{
    let ghost keys = public_key_views(members@);
    let mut i: usize = 0;
    while i < members.len()
        invariant
            i <= members@.len(),
            keys == public_key_views(members@),
            forall|a: int, b: int|
                0 <= a < i && a < b < keys.len() ==> #[trigger] keys[a] != #[trigger] keys[b],
        decreases members@.len() - i,
    {
        let mut j: usize = i + 1;
        while j < members.len()
            invariant
                i < j <= members@.len(),
                keys == public_key_views(members@),
                forall|b: int| i < b < j ==> keys[i as int] != #[trigger] keys[b],
            decreases members@.len() - j,
        {
            assert(keys[i as int] == members@[i as int]@);
            assert(keys[j as int] == members@[j as int]@);
            if members[i].same(&members[j]) {
                return true;
            }
            j = j + 1;
        }
        i = i + 1;
    }
    false
}

/// Refuses an empty committee, one over the ceiling and one with a repeated key.
pub fn validate_members(members: &[PublicKey]) -> (r: Result<(), CommitteeError>)
    ensures
        match r {
            Ok(_) => 0 < members@.len() <= MAX_COMMITTEE_SIZE && distinct(
                public_key_views(members@),
            ),
            Err(CommitteeError::NoMembers) => members@.len() == 0,
            Err(CommitteeError::TooManyMembers { members: n }) => n == members@.len()
                > MAX_COMMITTEE_SIZE,
            Err(CommitteeError::DuplicateMembers) => 0 < members@.len() <= MAX_COMMITTEE_SIZE
                && !distinct(public_key_views(members@)),
            Err(_) => false,
        },
{
    if members.len() == 0 {
        return Err(CommitteeError::NoMembers);
    }
    if members.len() > MAX_COMMITTEE_SIZE {
        return Err(CommitteeError::TooManyMembers { members: members.len() });
    }
    if has_duplicate(members) {
        return Err(CommitteeError::DuplicateMembers);
    }
    Ok(())
}

/// Refuses a threshold of zero and one above the number of members.
pub fn validate_threshold(threshold: usize, member_count: usize) -> (r: Result<(), CommitteeError>)
    ensures
        r == if 1 <= threshold <= member_count {
            Ok::<(), CommitteeError>(())
        } else {
            Err(CommitteeError::ThresholdOutside { t: threshold, members: member_count })
        },
{
    if threshold < 1 || threshold > member_count {
        Err(CommitteeError::ThresholdOutside { t: threshold, members: member_count })
    } else {
        Ok(())
    }
}

fn wire_bytes(members: &[PublicKey], threshold: usize) -> (bytes: Vec<u8>)
    ensures
        bytes@ == (MlDsaAnchor {
            members: public_key_views(members@),
            threshold: threshold as nat,
        }).encode(),
{
    let mut bytes: Vec<u8> = Vec::new();
    push_le32(&mut bytes, 12);
    push_le64(&mut bytes, threshold as u64);
    let ghost head = bytes@;
    let mut i: usize = 0;
    assert(concat(public_key_views(members@.subrange(0, 0))) =~= Seq::<u8>::empty());
    assert(bytes@ =~= head + concat(public_key_views(members@.subrange(0, 0))));
    while i < members.len()
        invariant
            i <= members@.len(),
            bytes@ == head + concat(public_key_views(members@.subrange(0, i as int))),
        decreases members@.len() - i,
    {
        push_all(&mut bytes, members[i].as_bytes());
        proof {
            let before = public_key_views(members@.subrange(0, i as int));
            assert(public_key_views(members@.subrange(0, i + 1)) =~= before.push(
                members@[i as int]@,
            ));
            lemma_concat_push(before, members@[i as int]@);
            assert(bytes@ =~= head + concat(public_key_views(members@.subrange(0, i + 1))));
        }
        i = i + 1;
    }
    assert(members@.subrange(0, i as int) =~= members@);
    assert(bytes@ =~= (MlDsaAnchor {
        members: public_key_views(members@),
        threshold: threshold as nat,
    }).encode());
    bytes
}

fn anchor_id_of(encoded: &[u8]) -> (id: [u8; 48])
    ensures
        id@ == sha3_384(
            "decentralized-root-of-trust/ml-dsa-65/anchor-id/v1\0".spec_bytes() + encoded@,
        ),
{
    let mut preimage: Vec<u8> = Vec::new();
    push_all(
        &mut preimage,
        "decentralized-root-of-trust/ml-dsa-65/anchor-id/v1\0".as_bytes(),
    );
    push_all(&mut preimage, encoded);
    assert(preimage@ =~= "decentralized-root-of-trust/ml-dsa-65/anchor-id/v1\0".spec_bytes()
        + encoded@);
    sha3_384_digest(preimage.as_slice())
}

/// Cuts `bytes` into public keys; nothing when one of them is not canonical.
fn split_keys(bytes: &[u8]) -> (keys: Option<Vec<PublicKey>>)
    requires
        bytes@.len() % 1952 == 0,
    ensures
        match keys {
            Some(list) => public_key_views(list@) == blocks_of(bytes@, 1952) && all_canonical(
                blocks_of(bytes@, 1952),
            ),
            None => !all_canonical(blocks_of(bytes@, 1952)),
        },
{
    let mut list: Vec<PublicKey> = Vec::new();
    let mut at: usize = 0;
    let ghost blocks = blocks_of(bytes@, 1952);
    while at < bytes.len()
        invariant
            at <= bytes@.len(),
            bytes@.len() % 1952 == 0,
            at == list@.len() * 1952,
            blocks == blocks_of(bytes@, 1952),
            forall|k: int|
                0 <= k < list@.len() ==> (#[trigger] list@[k])@ == blocks[k] && canonical_key(
                    blocks[k],
                ),
        decreases bytes@.len() - at,
    {
        let ghost k = list@.len() as int;
        assert(blocks[k] == bytes@.subrange(k * 1952, k * 1952 + 1952));
        match decode_public_key(&bytes[at..at + PUBLIC_KEY_BYTES]) {
            Ok(key) => {
                list.push(key);
            },
            Err(_) => {
                assert(!canonical_key(blocks[k]));
                return None;
            },
        }
        at = at + PUBLIC_KEY_BYTES;
    }
    assert(public_key_views(list@) =~= blocks);
    Some(list)
}

/// A fixed committee of ML-DSA-65 public keys and its threshold. Member order is
/// part of the anchor and gives every member a stable index.
#[derive(Debug)]
pub struct Committee {
    members: Vec<PublicKey>,
    threshold: usize,
    anchor_id: [u8; 48],
}

impl View for Committee {
    type V = MlDsaAnchor;

    closed spec fn view(&self) -> MlDsaAnchor {
        MlDsaAnchor {
            members: public_key_views(self.members@),
            threshold: self.threshold as nat,
        }
    }
}

fn learn_canonical(members: &[PublicKey])
    ensures
        all_canonical(public_key_views(members@)),
{
    let mut i: usize = 0;
    while i < members.len()
        invariant
            i <= members@.len(),
            forall|k: int| 0 <= k < i ==> canonical_key((#[trigger] members@[k])@),
        decreases members@.len() - i,
    {
        let bytes = members[i].as_bytes();
        i = i + 1;
    }
    assert forall|k: int| 0 <= k < members@.len() implies canonical_key(
        #[trigger] public_key_views(members@)[k],
    ) by {
        assert(canonical_key(members@[k]@));
    }
}

impl Committee {
    #[verifier::type_invariant]
    pub(crate) closed spec fn inv(self) -> bool {
        self@.wf() && self.anchor_id@ == self@.id()
    }

    /// Creates a checked anchor from ordered public keys. A repeated key is refused:
    /// one key must never hold several identities.
    pub fn new(members: Vec<PublicKey>, threshold: usize) -> (r: Result<Committee, CommitteeError>)
        ensures
            match r {
                Ok(c) => anchor_fault(public_key_views(members@), threshold as nat) is None && c@
                    == (MlDsaAnchor {
                    members: public_key_views(members@),
                    threshold: threshold as nat,
                }) && c@.wf(),
                Err(e) => anchor_fault(public_key_views(members@), threshold as nat) == Some(e),
            },
    {
        match validate_members(members.as_slice()) {
            Err(e) => {
                return Err(e);
            },
            Ok(_) => {},
        }
        match validate_threshold(threshold, members.len()) {
            Err(e) => {
                return Err(e);
            },
            Ok(_) => {},
        }
        learn_canonical(members.as_slice());
        let bytes = wire_bytes(members.as_slice(), threshold);
        let anchor_id = anchor_id_of(bytes.as_slice());
        Ok(Committee { members, threshold, anchor_id })
    }

    /// Decodes a bounded, canonical anchor and rechecks its invariants.
    pub fn from_bytes(bytes: &[u8]) -> (r: Result<Committee, CommitteeError>)
        ensures
            match r {
                Ok(c) => decode_anchor(bytes@) == Ok::<MlDsaAnchor, CommitteeError>(c@),
                Err(e) => decode_anchor(bytes@) == Err::<MlDsaAnchor, CommitteeError>(e),
            },
    {
        let len: usize = bytes.len();
        if len > MAX_COMMITTEE_WIRE_BYTES {
            return Err(CommitteeError::TooLong { len });
        }
        proof {
            law_a_refused_anchor_is_not_framed(bytes@);
        }
        if let Some(e) = check_anchor(bytes) {
            return Err(CommitteeError::NotSsz(e));
        }
        let threshold: u64 = read_le64(bytes, 4);
        if threshold > usize::MAX as u64 {
            return Err(CommitteeError::ThresholdTooLarge { threshold });
        }
        let members: Vec<PublicKey> = match split_keys(&bytes[12..len]) {
            Some(list) => list,
            None => {
                return Err(CommitteeError::NonCanonicalKey);
            },
        };
        assert(members@.len() == public_key_views(members@).len());
        Committee::new(members, threshold as usize)
    }

    /// Canonical encoding of this anchor, which decodes to it again.
    pub fn to_bytes(&self) -> (bytes: Vec<u8>)
        ensures
            bytes@ == self@.encode(),
            decode_anchor(bytes@) == Ok::<MlDsaAnchor, CommitteeError>(self@),
    {
        proof {
            use_type_invariant(self);
            law_anchor_round_trip(self@);
        }
        wire_bytes(self.members.as_slice(), self.threshold)
    }

    /// Ordered public keys embedded by a verifier.
    pub fn members(&self) -> (members: &[PublicKey])
        ensures
            public_key_views(members@) == self@.members,
    {
        self.members.as_slice()
    }

    /// The `t` in this `t`-of-`N` committee.
    pub fn threshold(&self) -> (t: usize)
        ensures
            t == self@.threshold,
            1 <= t <= self@.members.len(),
    {
        proof {
            use_type_invariant(self);
        }
        self.threshold
    }

    /// The committee size.
    pub fn member_count(&self) -> (n: usize)
        ensures
            n == self@.members.len(),
            1 <= n <= MAX_COMMITTEE_SIZE,
    {
        proof {
            use_type_invariant(self);
        }
        self.members.len()
    }

    /// The index of a public key in this anchor, if the key is a member.
    pub fn index_of(&self, member: &PublicKey) -> (index: Option<usize>)
        ensures
            match index {
                Some(i) => i < self@.members.len() && self@.members[i as int] == member@ && forall|
                    j: int,
                |
                    0 <= j < self@.members.len() && self@.members[j] == member@ ==> j == i,
                None => !self@.members.contains(member@),
            },
    {
        proof {
            use_type_invariant(self);
        }
        let mut i: usize = 0;
        while i < self.members.len()
            invariant
                i <= self.members@.len(),
                distinct(self@.members),
                forall|j: int| 0 <= j < i ==> #[trigger] self@.members[j] != member@,
            decreases self.members@.len() - i,
        {
            assert(self@.members[i as int] == self.members@[i as int]@);
            if self.members[i].same(member) {
                return Some(i);
            }
            i = i + 1;
        }
        None
    }

    /// The fixed identifier bound into every statement.
    pub fn anchor_id(&self) -> (id: &[u8; 48])
        ensures
            id@ == self@.id(),
    {
        proof {
            use_type_invariant(self);
        }
        &self.anchor_id
    }

    /// The bytes a committee member signs for `status_list` at `version`: a protocol
    /// domain, the algorithm tag, the anchor identifier, the version and the ordered
    /// list.
    pub fn statement_for(&self, status_list: &[[u8; 32]], version: u32) -> (statement: Vec<u8>)
        ensures
            statement@ == self@.statement(views(status_list@), version),
    {
        proof {
            use_type_invariant(self);
        }
        statement_bytes(&self.anchor_id, status_list, version)
    }
}

impl Clone for Committee {
    fn clone(&self) -> (copy: Self)
        ensures
            copy@ == self@,
    {
        proof {
            use_type_invariant(self);
        }
        let mut members: Vec<PublicKey> = Vec::new();
        let mut i: usize = 0;
        while i < self.members.len()
            invariant
                i <= self.members@.len(),
                members@.len() == i,
                forall|k: int| 0 <= k < i ==> (#[trigger] members@[k])@ == self.members@[k]@,
            decreases self.members@.len() - i,
        {
            members.push(self.members[i].clone());
            i = i + 1;
        }
        assert(public_key_views(members@) =~= public_key_views(self.members@));
        Committee { members, threshold: self.threshold, anchor_id: self.anchor_id }
    }
}

impl CommitteeError {
    /// The refusal in words.
    pub open spec fn message(self) -> Seq<char> {
        match self {
            CommitteeError::TooLong { len } => "committee wire size "@ + decimal(len as nat)
                + " B is above the ceiling of 3997708 B"@,
            CommitteeError::NotSsz(e) => "invalid ML-DSA committee SSZ: "@ + e.message(),
            CommitteeError::ThresholdTooLarge { threshold } => "committee threshold "@ + decimal(
                threshold as nat,
            ) + " is too large"@,
            CommitteeError::NonCanonicalKey => "non-canonical ML-DSA-65 public key"@,
            CommitteeError::NoMembers => "committee must contain at least one member"@,
            CommitteeError::TooManyMembers { members } => "committee names "@ + decimal(
                members as nat,
            ) + " members, above the ceiling of 2048"@,
            CommitteeError::DuplicateMembers => "committee contains duplicate member public keys"@,
            CommitteeError::ThresholdOutside { t, members } => "committee threshold "@ + decimal(
                t as nat,
            ) + " outside 1..="@ + decimal(members as nat),
        }
    }

    /// The refusal in words.
    pub fn text(&self) -> (text: String)
        ensures
            text@ == self.message(),
    {
        match self {
            CommitteeError::TooLong { len } => {
                let mut text: String = "committee wire size ".to_owned();
                push_decimal(&mut text, *len as u64);
                text.append(" B is above the ceiling of 3997708 B");
                text
            },
            CommitteeError::NotSsz(e) => {
                joined("invalid ML-DSA committee SSZ: ", e.text().as_str())
            },
            CommitteeError::ThresholdTooLarge { threshold } => {
                let mut text: String = "committee threshold ".to_owned();
                push_decimal(&mut text, *threshold);
                text.append(" is too large");
                text
            },
            CommitteeError::NonCanonicalKey => "non-canonical ML-DSA-65 public key".to_owned(),
            CommitteeError::NoMembers => "committee must contain at least one member".to_owned(),
            CommitteeError::TooManyMembers { members } => {
                let mut text: String = "committee names ".to_owned();
                push_decimal(&mut text, *members as u64);
                text.append(" members, above the ceiling of 2048");
                text
            },
            CommitteeError::DuplicateMembers => {
                "committee contains duplicate member public keys".to_owned()
            },
            CommitteeError::ThresholdOutside { t, members } => {
                let mut text: String = "committee threshold ".to_owned();
                push_decimal(&mut text, *t as u64);
                text.append(" outside 1..=");
                push_decimal(&mut text, *members as u64);
                text
            },
        }
    }
}

/// Evidence does not move between anchors: two statements are equal only when the whole
/// anchor, the list and the version are, or the hash behind the identifier gives one
/// digest for two anchors.
pub proof fn law_evidence_does_not_transfer_between_anchors(
    a: MlDsaAnchor,
    b: MlDsaAnchor,
    lists: (Seq<Seq<u8>>, Seq<Seq<u8>>),
    versions: (u32, u32),
)
    requires
        a.wf(),
        b.wf(),
        all_width(lists.0, 32),
        all_width(lists.1, 32),
        a.statement(lists.0, versions.0) == b.statement(lists.1, versions.1),
        a.id() == b.id() ==> a.encode() == b.encode(),
    ensures
        a == b,
        lists.0 == lists.1,
        versions.0 == versions.1,
{
    law_statement_is_unambiguous(a.id(), lists.0, versions.0, b.id(), lists.1, versions.1);
    law_anchor_round_trip(a);
    law_anchor_round_trip(b);
}

/// Members and a threshold make an anchor exactly when there are between one and 2048
/// members, no two of them equal, and the threshold is between one and their number; what
/// makes none is told by the first of these that does not hold.
pub proof fn law_what_makes_an_anchor(members: Seq<Seq<u8>>, threshold: nat)
    ensures
        ({
            let fault = anchor_fault(members, threshold);
            let n = members.len();
            let repeated = exists|i: int, j: int|
                0 <= i < j < n && #[trigger] members[i] == #[trigger] members[j];
            &&& fault is None <==> 1 <= n <= 2048 && !repeated && 1 <= threshold <= n
            &&& fault == Some(CommitteeError::NoMembers) <==> n == 0
            &&& fault == Some(
                CommitteeError::TooManyMembers { members: n as usize },
            ) <==> n > 2048
            &&& fault == Some(CommitteeError::DuplicateMembers) <==> 1 <= n <= 2048 && repeated
            &&& fault == Some(
                CommitteeError::ThresholdOutside { t: threshold as usize, members: n as usize },
            ) <==> 1 <= n <= 2048 && !repeated && !(1 <= threshold <= n)
        }),
{
}

/// Whatever has the layout of an anchor but is none is refused for what is wrong with it:
/// bytes over the limit, a threshold that fits no machine word, or members and a threshold
/// that make no anchor.
pub proof fn law_an_encoded_fault_is_told(a: MlDsaAnchor)
    requires
        all_width(a.members, 1952),
        a.members.len() <= 2048,
        a.threshold <= u64::MAX,
    ensures
        a.threshold > usize::MAX ==> decode_anchor(a.encode()) == Err::<
            MlDsaAnchor,
            CommitteeError,
        >(CommitteeError::ThresholdTooLarge { threshold: a.threshold as u64 }),
        a.threshold <= usize::MAX && anchor_fault(a.members, a.threshold) is Some ==> decode_anchor(
            a.encode(),
        ) == Err::<MlDsaAnchor, CommitteeError>(anchor_fault(a.members, a.threshold)->0),
        a.threshold <= usize::MAX && anchor_fault(a.members, a.threshold) is None ==> decode_anchor(
            a.encode(),
        ) == Ok::<MlDsaAnchor, CommitteeError>(a),
{
    let b = a.encode();
    lemma_blocks_of_concat(a.members, 1952);
    lemma_concat_len(a.members, 1952);
    let (f1, f2, body) = (le32(12), le64(a.threshold as u64), concat(a.members));
    lemma_le32(12);
    lemma_le64(a.threshold as u64);
    assert(b == f1 + f2 + body);
    assert(b.subrange(0, 4) =~= f1);
    assert(b.subrange(4, 12) =~= f2);
    assert(b.subrange(12, b.len() as int) =~= body);
}

/// Bytes over the limit are refused before anything of them is looked at.
pub proof fn law_an_anchor_over_the_limit_is_refused(b: Seq<u8>)
    ensures
        b.len() > 12 + 2048 * 1952 <==> decode_anchor(b) == Err::<MlDsaAnchor, CommitteeError>(
            CommitteeError::TooLong { len: b.len() as usize },
        ),
{
}

} // verus!

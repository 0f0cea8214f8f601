//! The trust anchor, and nothing else: who the members are, what the threshold
//! is, and the one derivation of a slot from a version.
use crate::bytes::{
    all_width, blocks_of, concat, from_le32, from_le64, le32, le64, lemma_blocks_of_concat,
    lemma_concat_blocks_of, lemma_concat_push, lemma_from_le32, lemma_from_le64, lemma_le32,
    lemma_le64, push_all, push_le32, push_le64, read_le32, read_le64, views,
};
use crate::framing::{
    blocks_refusal, check_blocks, check_fixed, check_offset, check_start, first_of, fixed_refusal,
    offset_refusal, start_refusal, SszError,
};
use crate::hash::{blake2s_256, sha3_256, sha3_256_digest};
use crate::protocol::MAX_COMMITTEE_SIZE;
use crate::protocol::status_list::{
    domain_preimage, law_domain_preimage_is_unambiguous, law_message_preimage_is_unambiguous,
    message_of, message_preimage, status_list_message, Algorithms, Domain,
};
use crate::protocol::xmss::{is_key, key_views, XmssPublicKey};
use crate::text::{decimal, joined, push_decimal};
use vstd::prelude::*;
use vstd::string::*;

verus! {

/// Why bytes are not an anchor.
#[derive(Clone, Copy, PartialEq, Eq, Structural, Debug)]
pub enum CommitteeError {
    /// The bytes are not the anchor's container.
    NotSsz(SszError),
    /// There are more members than a record can name.
    TooManyMembers { members: usize },
    /// The threshold does not fit a machine word.
    ThresholdTooLarge { threshold: u64 },
    /// The threshold is zero or above the number of members.
    ThresholdOutside { t: usize, members: usize },
    /// A public key occurs twice.
    DuplicateMembers,
}

/// What an anchor says.
#[verifier::ext_equal]
pub struct Anchor {
    pub members: Seq<Seq<u8>>,
    pub t: nat,
    pub genesis_slot: u32,
}

/// Whether no key occurs twice.
pub open spec fn distinct(keys: Seq<Seq<u8>>) -> bool {
    forall|i: int, j: int| 0 <= i < j < keys.len() ==> #[trigger] keys[i] != #[trigger] keys[j]
}

/// Whether every member is a public key.
pub open spec fn all_keys(keys: Seq<Seq<u8>>) -> bool {
    forall|i: int| 0 <= i < keys.len() ==> is_key(#[trigger] keys[i])
}

impl Anchor {
    /// Whether the members are keys, each occurring once and no more of them than a
    /// record can name, and the threshold is between one and their number.
    pub open spec fn wf(self) -> bool {
        &&& all_keys(self.members)
        &&& distinct(self.members)
        &&& 1 <= self.t <= self.members.len()
        &&& self.members.len() <= MAX_COMMITTEE_SIZE
    }

    /// The container: offset of the members, threshold, genesis slot, and then
    /// the members.
    pub open spec fn encode(self) -> Seq<u8> {
        le32(16) + le64(self.t as u64) + le32(self.genesis_slot) + concat(self.members)
    }

    /// The anchor's identity.
    pub open spec fn fingerprint(self) -> Seq<u8> {
        sha3_256(self.encode())
    }

    /// The domain of the messages this committee signs.
    pub open spec fn domain(self, alg: Algorithms) -> Seq<u8> {
        blake2s_256(domain_preimage(self.fingerprint(), alg))
    }

    /// The message this committee signs for a list at a version.
    pub open spec fn message(self, alg: Algorithms, list: Seq<Seq<u8>>, version: u32) -> Seq<u8> {
        message_of(self.domain(alg), list, version)
    }

    /// The slot this committee signs a version at.
    pub open spec fn slot(self, version: u32) -> Option<u32> {
        if self.genesis_slot + version <= u32::MAX {
            Some((self.genesis_slot + version) as u32)
        } else {
            None
        }
    }
}

/// Whether `b` is cut into the fields of the anchor's container.
pub open spec fn anchor_framed(b: Seq<u8>) -> bool {
    &&& b.len() >= 16
    &&& from_le32(b.subrange(0, 4)) == 16
    &&& (b.len() - 16) % 32 == 0
    &&& all_keys(blocks_of(b.subrange(16, b.len() as int), 32))
}

/// What is wrong with bytes that should be the anchor's container.
pub open spec fn anchor_refusal(b: Seq<u8>) -> Option<SszError> {
    first_of(
        head_refusal(b),
        first_of(
            blocks_refusal(b.len() - 16, 32, true),
            if all_keys(blocks_of(b.subrange(16, b.len() as int), 32)) {
                None
            } else {
                Some(SszError::Item)
            },
        ),
    )
}

/// What is wrong with the fixed part of the anchor's container.
pub open spec fn head_refusal(b: Seq<u8>) -> Option<SszError> {
    first_of(
        offset_refusal(b, 0, None),
        first_of(
            fixed_refusal(b, 12),
            first_of(fixed_refusal(b, 16), start_refusal(b, 0, 16)),
        ),
    )
}

/// Bytes are refused exactly when they are not cut into the fields of the container.
pub proof fn law_a_refused_anchor_is_not_framed(b: Seq<u8>)
    ensures
        anchor_refusal(b) is None <==> anchor_framed(b),
{
}

fn check_head(b: &[u8]) -> (r: Option<SszError>)
    ensures
        r == head_refusal(b@),
{
    if let Some(e) = check_offset(b, 0, None) {
        return Some(e);
    }
    if let Some(e) = check_fixed(b, 12) {
        return Some(e);
    }
    if let Some(e) = check_fixed(b, 16) {
        return Some(e);
    }
    check_start(b, 0, 16)
}

/// The anchor that `b` is the wire form of, or why it is none.
pub open spec fn decode_anchor(b: Seq<u8>) -> Result<Anchor, CommitteeError> {
    if !anchor_framed(b) {
        Err(CommitteeError::NotSsz(anchor_refusal(b)->0))
    } else {
        let members = blocks_of(b.subrange(16, b.len() as int), 32);
        let t = from_le64(b.subrange(4, 12));
        if members.len() > MAX_COMMITTEE_SIZE {
            Err(CommitteeError::TooManyMembers { members: members.len() as usize })
        } else if t > usize::MAX {
            Err(CommitteeError::ThresholdTooLarge { threshold: t })
        } else if !(1 <= t <= members.len()) {
            Err(
                CommitteeError::ThresholdOutside {
                    t: t as usize,
                    members: members.len() as usize,
                },
            )
        } else if !distinct(members) {
            Err(CommitteeError::DuplicateMembers)
        } else {
            Ok(Anchor { members, t: t as nat, genesis_slot: from_le32(b.subrange(12, 16)) })
        }
    }
}

/// Decoding what was encoded gives the anchor back.
pub proof fn law_anchor_round_trip(a: Anchor)
    requires
        a.wf(),
    ensures
        decode_anchor(a.encode()) == Ok::<Anchor, CommitteeError>(a),
{
    let b = a.encode();
    assert(all_width(a.members, 32));
    lemma_blocks_of_concat(a.members, 32);
    let (f1, f2, f3, body) = (le32(16), le64(a.t as u64), le32(a.genesis_slot), concat(a.members));
    lemma_le32(16);
    lemma_le64(a.t as u64);
    lemma_le32(a.genesis_slot);
    assert(b == f1 + f2 + f3 + body);
    assert(b.subrange(0, 4) =~= f1);
    assert(b.subrange(4, 12) =~= f2);
    assert(b.subrange(12, 16) =~= f3);
    assert(b.subrange(16, b.len() as int) =~= body);
}

/// An anchor has exactly one wire form: whatever decodes to it is its own
/// encoding, so its fingerprint identifies it.
pub proof fn law_anchor_has_one_form(b: Seq<u8>, a: Anchor)
    requires
        decode_anchor(b) == Ok::<Anchor, CommitteeError>(a),
        b.len() <= usize::MAX,
    ensures
        a.wf(),
        a.encode() == b,
        a.fingerprint() == sha3_256(b),
{
    lemma_from_le32(b.subrange(0, 4));
    lemma_from_le64(b.subrange(4, 12));
    lemma_from_le32(b.subrange(12, 16));
    lemma_concat_blocks_of(b.subrange(16, b.len() as int), 32);
    let (f1, f2, f3, body) = (le32(16), le64(a.t as u64), le32(a.genesis_slot), concat(a.members));
    assert(f1 + f2 + f3 + body =~= b);
}

/// Different versions are signed at different slots, later ones at later slots.
pub proof fn law_each_version_has_its_own_slot(a: Anchor, v: u32, w: u32)
    requires
        v < w,
        a.slot(w) is Some,
    ensures
        a.slot(v) is Some,
        a.slot(v)->0 < a.slot(w)->0,
{
}

/// The fixed trust anchor, embedded once in every verifier. Member order is part
/// of it, so an index is a stable, authenticated identifier.
#[derive(Debug)]
pub struct Committee {
    members: Vec<XmssPublicKey>,
    t: usize,
    genesis_slot: u32,
    fingerprint: [u8; 32],
}

impl View for Committee {
    type V = Anchor;

    closed spec fn view(&self) -> Anchor {
        Anchor {
            members: key_views(self.members@),
            t: self.t as nat,
            genesis_slot: self.genesis_slot,
        }
    }
}

fn has_duplicate_members(members: &[XmssPublicKey]) -> (r: bool)
    ensures
        r == !distinct(key_views(members@)),
{
    let ghost keys = key_views(members@);
    let mut i: usize = 0;
    while i < members.len()
        invariant
            i <= members@.len(),
            keys == key_views(members@),
            forall|a: int, b: int|
                0 <= a < i && a < b < keys.len() ==> #[trigger] keys[a] != #[trigger] keys[b],
        decreases members@.len() - i,
    {
        let mut j: usize = i + 1;
        while j < members.len()
            invariant
                i < j <= members@.len(),
                keys == key_views(members@),
                forall|b: int| i < b < j ==> keys[i as int] != #[trigger] keys[b],
            decreases members@.len() - j,
        {
            assert(keys[i as int] == members@[i as int]@);
            assert(keys[j as int] == members@[j as int]@);
            if members[i].same(&members[j]) {
                return true;
            }
            j = j + 1;
        }
        i = i + 1;
    }
    false
}

fn anchor_bytes(members: &[XmssPublicKey], t: usize, genesis_slot: u32) -> (bytes: Vec<u8>)
    ensures
        bytes@ == (Anchor { members: key_views(members@), t: t as nat, genesis_slot }).encode(),
        all_keys(key_views(members@)),
{
    let mut bytes: Vec<u8> = Vec::new();
    push_le32(&mut bytes, 16);
    push_le64(&mut bytes, t as u64);
    push_le32(&mut bytes, genesis_slot);
    let ghost head = bytes@;
    let mut i: usize = 0;
    assert(concat(key_views(members@.subrange(0, 0))) =~= Seq::<u8>::empty());
    assert(bytes@ =~= head + concat(key_views(members@.subrange(0, 0))));
    while i < members.len()
        invariant
            i <= members@.len(),
            bytes@ == head + concat(key_views(members@.subrange(0, i as int))),
            forall|k: int| 0 <= k < i ==> is_key((#[trigger] members@[k])@),
        decreases members@.len() - i,
    {
        push_all(&mut bytes, members[i].as_bytes().as_slice());
        proof {
            let before = key_views(members@.subrange(0, i as int));
            assert(key_views(members@.subrange(0, i + 1)) =~= before.push(members@[i as int]@));
            lemma_concat_push(before, members@[i as int]@);
            assert(bytes@ =~= head + concat(key_views(members@.subrange(0, i + 1))));
        }
        i = i + 1;
    }
    assert(members@.subrange(0, i as int) =~= members@);
    assert(bytes@ =~= (Anchor {
        members: key_views(members@),
        t: t as nat,
        genesis_slot,
    }).encode());
    bytes
}

/// Cuts `bytes` into public keys; nothing when one of them is none.
fn split_keys(bytes: &[u8]) -> (keys: Option<Vec<XmssPublicKey>>)
    requires
        bytes@.len() % 32 == 0,
    ensures
        match keys {
            Some(list) => key_views(list@) == blocks_of(bytes@, 32) && all_keys(
                blocks_of(bytes@, 32),
            ),
            None => !all_keys(blocks_of(bytes@, 32)),
        },
{
    let mut list: Vec<XmssPublicKey> = Vec::new();
    let mut at: usize = 0;
    let ghost blocks = blocks_of(bytes@, 32);
    while at < bytes.len()
        invariant
            at <= bytes@.len(),
            bytes@.len() % 32 == 0,
            at == list@.len() * 32,
            blocks == blocks_of(bytes@, 32),
            forall|k: int|
                0 <= k < list@.len() ==> (#[trigger] list@[k])@ == blocks[k] && is_key(blocks[k]),
        decreases bytes@.len() - at,
    {
        let ghost k = list@.len() as int;
        assert(blocks[k] == bytes@.subrange(k * 32, k * 32 + 32));
        match XmssPublicKey::from_bytes(&bytes[at..at + 32]) {
            Some(key) => {
                list.push(key);
            },
            None => {
                return None;
            },
        }
        at = at + 32;
    }
    assert(key_views(list@) =~= blocks);
    Some(list)
}

impl Committee {
    /// The cached fingerprint is that of the anchor, and the members are keys.
    #[verifier::type_invariant]
    closed spec fn consistent(self) -> bool {
        self.fingerprint@ == self@.fingerprint() && all_keys(self@.members)
    }

    /// Builds the committee from its members' public keys, the threshold and the
    /// slot round zero is signed at.
    ///
    /// Both threshold bounds carry weight: a threshold of zero lets a record
    /// without signatures reach quorum, and one above the number of members is
    /// never met. Duplicate keys would let one key hold several identities, and
    /// members above the ceiling could not be named in a raw record.
    pub fn new(members: Vec<XmssPublicKey>, t: usize, genesis_slot: u32) -> (c: Committee)
        requires
            1 <= t <= members@.len() <= MAX_COMMITTEE_SIZE,
            distinct(key_views(members@)),
        ensures
            c@ == (Anchor { members: key_views(members@), t: t as nat, genesis_slot }),
            c@.wf(),
    {
        Committee::new_unchecked(members, t, genesis_slot)
    }

    /// The committee with these parts, or nothing where they are no anchor.
    pub fn checked(members: Vec<XmssPublicKey>, t: usize, genesis_slot: u32) -> (c: Option<Committee>)
        ensures
            match c {
                Some(c) => c@.wf() && c@ == (Anchor {
                    members: key_views(members@),
                    t: t as nat,
                    genesis_slot,
                }),
                None => !(1 <= t <= members@.len() <= MAX_COMMITTEE_SIZE) || !distinct(
                    key_views(members@),
                ),
            },
    {
        if t < 1 || t > members.len() || members.len() > MAX_COMMITTEE_SIZE
            || has_duplicate_members(members.as_slice()) {
            None
        } else {
            Some(Committee::new(members, t, genesis_slot))
        }
    }

    /// [`Committee::new`] without its demands on the threshold and on the members. A verifier refuses every record under a threshold
    /// of zero, however the anchor came about.
    pub fn new_unchecked(members: Vec<XmssPublicKey>, t: usize, genesis_slot: u32) -> (c: Committee)
        ensures
            c@ == (Anchor { members: key_views(members@), t: t as nat, genesis_slot }),
            all_keys(c@.members),
            c@.members.len() <= usize::MAX,
    {
        let bytes = anchor_bytes(members.as_slice(), t, genesis_slot);
        let fingerprint = sha3_256_digest(bytes.as_slice());
        assert(members.len() <= usize::MAX);
        Committee { members, t, genesis_slot, fingerprint }
    }

    pub fn members(&self) -> (members: &[XmssPublicKey])
        ensures
            key_views(members@) == self@.members,
    {
        self.members.as_slice()
    }

    /// How many members there are.
    pub fn size(&self) -> (n: usize)
        ensures
            n == self@.members.len(),
    {
        self.members.len()
    }

    /// Where this key sits in the anchor, or nothing if it is not a member.
    pub fn index_of(&self, member: &XmssPublicKey) -> (index: Option<usize>)
        ensures
            match index {
                Some(i) => i < self@.members.len() && self@.members[i as int] == member@ && forall|
                    j: int,
                |
                    0 <= j < i ==> #[trigger] self@.members[j] != member@,
                None => !self@.members.contains(member@),
            },
    {
        let mut i: usize = 0;
        while i < self.members.len()
            invariant
                i <= self.members@.len(),
                forall|j: int| 0 <= j < i ==> #[trigger] self@.members[j] != member@,
            decreases self.members@.len() - i,
        {
            assert(self@.members[i as int] == self.members@[i as int]@);
            if self.members[i].same(member) {
                return Some(i);
            }
            i = i + 1;
        }
        None
    }

    pub fn threshold(&self) -> (t: usize)
        ensures
            t == self@.t,
    {
        self.t
    }

    /// The slot round zero is signed at. Every later round is derived from it.
    pub fn genesis_slot(&self) -> (slot: u32)
        ensures
            slot == self@.genesis_slot,
    {
        self.genesis_slot
    }

    /// The slot the whole committee signs round `version` at; nothing past the
    /// last slot there is. No member negotiates it, so no two disagree.
    pub fn slot_for(&self, version: u32) -> (slot: Option<u32>)
        ensures
            slot == self@.slot(version),
    {
        self.genesis_slot.checked_add(version)
    }

    /// Wire encoding of the anchor.
    pub fn to_bytes(&self) -> (bytes: Vec<u8>)
        ensures
            bytes@ == self@.encode(),
    {
        anchor_bytes(self.members.as_slice(), self.t, self.genesis_slot)
    }

    /// Inverse of [`Committee::to_bytes`]. Too many members, a threshold outside the
    /// bounds and duplicate keys are refused, as [`Committee::new`] does not admit them.
    pub fn from_bytes(bytes: &[u8]) -> (r: Result<Committee, CommitteeError>)
        ensures
            match r {
                Ok(c) => decode_anchor(bytes@) == Ok::<Anchor, CommitteeError>(c@) && c@.wf(),
                Err(e) => decode_anchor(bytes@) == Err::<Anchor, CommitteeError>(e),
            },
    {
        proof {
            law_a_refused_anchor_is_not_framed(bytes@);
        }
        if let Some(e) = check_head(bytes) {
            return Err(CommitteeError::NotSsz(e));
        }
        let len: usize = bytes.len();
        if let Some(e) = check_blocks(len - 16, 32, true) {
            return Err(CommitteeError::NotSsz(e));
        }
        let members: Vec<XmssPublicKey> = match split_keys(&bytes[16..len]) {
            Some(list) => list,
            None => {
                return Err(CommitteeError::NotSsz(SszError::Item));
            },
        };
        let n: usize = members.len();
        assert(n == key_views(members@).len());
        if n > MAX_COMMITTEE_SIZE {
            return Err(CommitteeError::TooManyMembers { members: n });
        }
        let t: u64 = read_le64(bytes, 4);
        if t > usize::MAX as u64 {
            return Err(CommitteeError::ThresholdTooLarge { threshold: t });
        }
        if t < 1 || t > n as u64 {
            return Err(CommitteeError::ThresholdOutside { t: t as usize, members: n });
        }
        if has_duplicate_members(members.as_slice()) {
            return Err(CommitteeError::DuplicateMembers);
        }
        let genesis_slot: u32 = read_le32(bytes, 12);
        let ghost anchor = Anchor { members: key_views(members@), t: t as nat, genesis_slot };
        proof {
            assert(decode_anchor(bytes@) == Ok::<Anchor, CommitteeError>(anchor));
            law_anchor_has_one_form(bytes@, anchor);
        }
        let fingerprint = sha3_256_digest(bytes);
        Ok(Committee { members, t: t as usize, genesis_slot, fingerprint })
    }

    /// This anchor's identity, as the signed message and the freshness mark both
    /// use it.
    pub fn fingerprint(&self) -> (fingerprint: &[u8; 32])
        ensures
            fingerprint@ == self@.fingerprint(),
    {
        proof {
            use_type_invariant(self);
        }
        &self.fingerprint
    }

    /// The domain of the messages this committee signs under `alg`.
    pub fn domain(&self, alg: Algorithms) -> (domain: Domain)
        ensures
            domain@ == self@.domain(alg),
    {
        proof {
            use_type_invariant(self);
        }
        Domain::new(&self.fingerprint, alg)
    }

    /// The message this committee signs for `list` at `version`.
    pub fn message_for(&self, alg: Algorithms, list: &[[u8; 32]], version: u32) -> (message: [u8; 32])
        ensures
            message@ == self@.message(alg, views(list@), version),
    {
        let domain = self.domain(alg);
        status_list_message(&domain, list, version)
    }
}

impl Clone for Committee {
    fn clone(&self) -> (copy: Self)
        ensures
            copy@ == self@,
    {
        let mut members: Vec<XmssPublicKey> = Vec::new();
        let mut i: usize = 0;
        while i < self.members.len()
            invariant
                i <= self.members@.len(),
                members@ == self.members@.subrange(0, i as int),
            decreases self.members@.len() - i,
        {
            members.push(self.members[i]);
            i = i + 1;
            assert(members@ =~= self.members@.subrange(0, i as int));
        }
        assert(members@ =~= self.members@);
        proof {
            use_type_invariant(self);
        }
        Committee {
            members,
            t: self.t,
            genesis_slot: self.genesis_slot,
            fingerprint: self.fingerprint,
        }
    }
}

/// Looking a member up by its key gives the index the anchor lists it at.
pub proof fn law_index_of_inverts_members(a: Anchor, i: int, found: int)
    requires
        a.wf(),
        0 <= i < a.members.len(),
        0 <= found < a.members.len(),
        a.members[found] == a.members[i],
    ensures
        found == i,
{
    if found < i {
        assert(a.members[found] != a.members[i]);
    }
    if i < found {
        assert(a.members[i] != a.members[found]);
    }
}

impl CommitteeError {
    /// The refusal in words.
    pub open spec fn message(self) -> Seq<char> {
        match self {
            CommitteeError::NotSsz(e) => "committee is not valid SSZ: "@ + e.message(),
            CommitteeError::TooManyMembers { members } => "anchor has "@ + decimal(members as nat)
                + " members, maximum is 2048"@,
            CommitteeError::ThresholdTooLarge { threshold } => "anchor threshold "@ + decimal(
                threshold as nat,
            )
                + " too large"@,
            CommitteeError::ThresholdOutside { t, members } => "anchor threshold "@ + decimal(
                t as nat,
            ) + " outside 1..="@ + decimal(members as nat),
            CommitteeError::DuplicateMembers => "anchor contains duplicate member public keys"@,
        }
    }

    /// The refusal in words.
    pub fn text(&self) -> (text: String)
        ensures
            text@ == self.message(),
    {
        match self {
            CommitteeError::NotSsz(e) => {
                joined("committee is not valid SSZ: ", e.text().as_str())
            },
            CommitteeError::TooManyMembers { members } => {
                let mut text: String = "anchor has ".to_owned();
                push_decimal(&mut text, *members as u64);
                text.append(" members, maximum is 2048");
                text
            },
            CommitteeError::ThresholdTooLarge { threshold } => {
                let mut text: String = "anchor threshold ".to_owned();
                push_decimal(&mut text, *threshold);
                text.append(" too large");
                text
            },
            CommitteeError::ThresholdOutside { t, members } => {
                let mut text: String = "anchor threshold ".to_owned();
                push_decimal(&mut text, *t as u64);
                text.append(" outside 1..=");
                push_decimal(&mut text, *members as u64);
                text
            },
            CommitteeError::DuplicateMembers => {
                "anchor contains duplicate member public keys".to_owned()
            },
        }
    }
}

/// Evidence does not move between anchors: two messages are equal only when the whole
/// anchor, the algorithm, the list and the version are, or one of the three hashes
/// behind a message gives one digest for two inputs.
pub proof fn law_evidence_does_not_transfer_between_anchors(
    a: Anchor,
    b: Anchor,
    under: (Algorithms, Algorithms),
    lists: (Seq<Seq<u8>>, Seq<Seq<u8>>),
    versions: (u32, u32),
)
    requires
        a.wf(),
        b.wf(),
        all_width(lists.0, 32),
        all_width(lists.1, 32),
        a.message(under.0, lists.0, versions.0) == b.message(under.1, lists.1, versions.1),
        ({
            let (x, y) = (
                message_preimage(a.domain(under.0), lists.0, versions.0),
                message_preimage(b.domain(under.1), lists.1, versions.1),
            );
            blake2s_256(x) == blake2s_256(y) ==> x == y
        }),
        ({
            let (x, y) = (
                domain_preimage(a.fingerprint(), under.0),
                domain_preimage(b.fingerprint(), under.1),
            );
            blake2s_256(x) == blake2s_256(y) ==> x == y
        }),
        sha3_256(a.encode()) == sha3_256(b.encode()) ==> a.encode() == b.encode(),
    ensures
        a == b,
        under.0 == under.1,
        lists.0 == lists.1,
        versions.0 == versions.1,
{
    law_message_preimage_is_unambiguous(
        a.domain(under.0),
        lists.0,
        versions.0,
        b.domain(under.1),
        lists.1,
        versions.1,
    );
    law_domain_preimage_is_unambiguous(a.fingerprint(), under.0, b.fingerprint(), under.1);
    law_anchor_round_trip(a);
    law_anchor_round_trip(b);
}

/// A version is signed at the genesis slot plus its number, and has no slot exactly when
/// that does not fit in 32 bits.
pub proof fn law_a_version_is_signed_at_genesis_plus_its_number(a: Anchor, version: u32, slot: u32)
    ensures
        a.slot(version) == Some(slot) <==> slot == a.genesis_slot + version,
        a.slot(version) is None <==> a.genesis_slot + version > u32::MAX,
{
}

/// Whatever has the layout of an anchor but is none is refused for the first thing that is
/// wrong with it: more than 2048 members, a threshold that fits no machine word or lies
/// outside one to the number of members, or a key that occurs twice.
pub proof fn law_an_encoded_fault_is_told(a: Anchor)
    requires
        all_keys(a.members),
        a.t <= u64::MAX,
        16 + 32 * a.members.len() <= u32::MAX,
    ensures
        ({
            let r = decode_anchor(a.encode());
            let n = a.members.len();
            let repeated = exists|i: int, j: int|
                0 <= i < j < n && #[trigger] a.members[i] == #[trigger] a.members[j];
            &&& n > 2048 ==> r == Err::<Anchor, CommitteeError>(
                CommitteeError::TooManyMembers { members: n as usize },
            )
            &&& n <= 2048 && a.t > usize::MAX ==> r == Err::<Anchor, CommitteeError>(
                CommitteeError::ThresholdTooLarge { threshold: a.t as u64 },
            )
            &&& n <= 2048 && a.t <= usize::MAX && !(1 <= a.t <= n) ==> r == Err::<
                Anchor,
                CommitteeError,
            >(CommitteeError::ThresholdOutside { t: a.t as usize, members: n as usize })
            &&& n <= 2048 && 1 <= a.t <= n && repeated ==> r == Err::<Anchor, CommitteeError>(
                CommitteeError::DuplicateMembers,
            )
            &&& n <= 2048 && 1 <= a.t <= n && !repeated ==> r == Ok::<Anchor, CommitteeError>(a)
        }),
{
    let b = a.encode();
    assert(all_width(a.members, 32));
    lemma_blocks_of_concat(a.members, 32);
    crate::bytes::lemma_concat_len(a.members, 32);
    let (f1, f2, f3, body) = (le32(16), le64(a.t as u64), le32(a.genesis_slot), concat(a.members));
    lemma_le32(16);
    lemma_le64(a.t as u64);
    lemma_le32(a.genesis_slot);
    assert(b == f1 + f2 + f3 + body);
    assert(b.subrange(0, 4) =~= f1);
    assert(b.subrange(4, 12) =~= f2);
    assert(b.subrange(12, 16) =~= f3);
    assert(b.subrange(16, b.len() as int) =~= body);
}

/// A committee is made of exactly the parts that make an anchor: between one and 2048
/// different keys, and a threshold between one and their number. It holds those parts as they
/// were given.
pub proof fn law_a_committee_is_made_of_an_anchors_parts(
    members: Vec<XmssPublicKey>,
    t: usize,
    genesis_slot: u32,
    c: Option<Committee>,
)
    requires
        call_ensures(Committee::checked, (members, t, genesis_slot), c),
    ensures
        c is Some <==> {
            &&& 1 <= t <= members@.len()
            &&& members@.len() <= 2048
            &&& forall|i: int, j: int|
                0 <= i < j < members@.len() ==> (#[trigger] members@[i])@ != (
                #[trigger] members@[j])@
        },
        c is Some ==> {
            &&& (c->0)@.t == t
            &&& (c->0)@.genesis_slot == genesis_slot
            &&& (c->0)@.members.len() == members@.len()
            &&& forall|i: int|
                0 <= i < members@.len() ==> #[trigger] (c->0)@.members[i] == members@[i]@
        },
{
    let keys = key_views(members@);
    assert forall|i: int| 0 <= i < members@.len() implies #[trigger] keys[i] == members@[i]@ by {}
    if forall|i: int, j: int|
        0 <= i < j < members@.len() ==> (#[trigger] members@[i])@ != (#[trigger] members@[j])@ {
        assert forall|i: int, j: int| 0 <= i < j < keys.len() implies #[trigger] keys[i]
            != #[trigger] keys[j] by {
            assert(members@[i]@ != members@[j]@);
        }
    }
    if distinct(keys) {
        assert forall|i: int, j: int| 0 <= i < j < members@.len() implies (#[trigger] members@[i])@
            != (#[trigger] members@[j])@ by {
            assert(keys[i] != keys[j]);
        }
    }
}

/// A committee that is written and read again is the same committee, and a key is looked up
/// at the place where the anchor lists it.
pub proof fn law_a_committee_is_read_back(
    c: &Committee,
    written: Vec<u8>,
    bytes: &[u8],
    read: Result<Committee, CommitteeError>,
    key: &XmssPublicKey,
    index: Option<usize>,
    i: int,
)
    requires
        c@.wf(),
        call_ensures(Committee::to_bytes, (c,), written),
        bytes@ == written@,
        call_ensures(Committee::from_bytes, (bytes,), read),
        call_ensures(Committee::index_of, (c, key), index),
    ensures
        read is Ok,
        (read->Ok_0)@ == c@,
        0 <= i < c@.members.len() && c@.members[i] == key@ ==> index is Some && index->0 == i,
        index is Some ==> index->0 < c@.members.len() && c@.members[index->0 as int] == key@,
{
    law_anchor_round_trip(c@);
    if 0 <= i < c@.members.len() && c@.members[i] == key@ {
        assert(c@.members.contains(key@));
        law_index_of_inverts_members(c@, i, index->0 as int);
    }
}

} // verus!

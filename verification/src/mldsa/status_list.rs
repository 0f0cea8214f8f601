//! Canonical record for the raw ML-DSA-65 quorum form, and the statement its
//! signatures are over.
//!
//! Structural validity is not authorization: that takes a committee.
use crate::bitlist::{as_ints, bitlist_bytes, count_set, set_indices};
use crate::bytes::{
    all_width, concat, le32, lemma_concat_injective, lemma_concat_len, lemma_le32,
    lemma_same_split, push_all, push_arrays, push_le32, to_vec, vec_views, views,
};
use crate::framing::SszError;
use crate::mldsa::signer::{
    canonical_signature, ml_dsa_65_signature_decodes, ml_dsa_signature_views, Signature,
    SignatureError, SIGNATURE_BYTES,
};
use crate::protocol::MAX_COMMITTEE_SIZE;
use crate::protocol::record::{
    assembled, body_of, distinct_indices, framed, indices_below, law_every_signature_is_counted,
    lemma_body_one_form, lemma_body_round_trip, named, pair_views, pairs_width, record_refusal,
    AssembleError, Body, SignedBody,
};
use crate::text::{decimal, joined, push_decimal};
use vstd::prelude::*;
use vstd::string::*;

verus! {

/// The most bytes a record can have.
pub const MAX_RECORD_BYTES: usize = 67108864;

/// The wire tag of this form. The XMSS record has another.
pub const ALGORITHM_TAG: u8 = 2;

// ---- what is signed ----------------------------------------------------------

/// What members sign: a domain, and then a container with the algorithm tag, the
/// anchor identifier, the version, the offset of the list and the list.
pub open spec fn statement_of(anchor_id: Seq<u8>, list: Seq<Seq<u8>>, version: u32) -> Seq<u8> {
    "decentralized-root-of-trust/ml-dsa-65/status-list/v1\0".spec_bytes() + seq![ALGORITHM_TAG]
        + anchor_id + le32(version) + le32(57) + concat(list)
}

/// The bytes all members sign for one update. Only a committee's own identifier
/// goes in: callers take them from [`crate::mldsa::committee::Committee`].
pub fn statement_bytes(anchor_id: &[u8; 48], list: &[[u8; 32]], version: u32) -> (bytes: Vec<u8>)
    ensures
        bytes@ == statement_of(anchor_id@, views(list@), version),
{
    let mut bytes: Vec<u8> = Vec::new();
    push_all(&mut bytes, "decentralized-root-of-trust/ml-dsa-65/status-list/v1\0".as_bytes());
    bytes.push(ALGORITHM_TAG);
    push_all(&mut bytes, anchor_id.as_slice());
    push_le32(&mut bytes, version);
    push_le32(&mut bytes, 57);
    push_arrays(&mut bytes, list);
    assert(bytes@ =~= statement_of(anchor_id@, views(list@), version));
    bytes
}

/// A statement says everything: two of them are equal only when anchor, list, order
/// of the list and version all are.
pub proof fn law_statement_is_unambiguous(
    a1: Seq<u8>,
    l1: Seq<Seq<u8>>,
    v1: u32,
    a2: Seq<u8>,
    l2: Seq<Seq<u8>>,
    v2: u32,
)
    requires
        a1.len() == 48,
        a2.len() == 48,
        all_width(l1, 32),
        all_width(l2, 32),
        statement_of(a1, l1, v1) == statement_of(a2, l2, v2),
    ensures
        a1 == a2,
        l1 == l2,
        v1 == v2,
{
    let head = "decentralized-root-of-trust/ml-dsa-65/status-list/v1\0".spec_bytes() + seq![
        ALGORITHM_TAG,
    ];
    lemma_le32(v1);
    lemma_le32(v2);
    lemma_le32(57);
    lemma_same_split(
        head + a1 + le32(v1) + le32(57),
        concat(l1),
        head + a2 + le32(v2) + le32(57),
        concat(l2),
    );
    lemma_same_split(head + a1 + le32(v1), le32(57), head + a2 + le32(v2), le32(57));
    lemma_same_split(head + a1, le32(v1), head + a2, le32(v2));
    lemma_same_split(head, a1, head, a2);
    lemma_concat_injective(l1, l2, 32);
}

// ---- the record --------------------------------------------------------------

/// Why a record could not be built or decoded.
#[derive(Clone, Copy, PartialEq, Eq, Structural, Debug)]
pub enum MlDsaStatusListError {
    /// The committee size is zero or over the ceiling.
    CommitteeSize { members: usize },
    /// There are more signatures than members.
    TooManySignatures,
    /// The record has more bytes than any may have.
    TooLong,
    /// One member is named twice.
    DuplicateSigner,
    /// A member index is not below the committee size.
    SignerOutside { index: usize },
    /// The bytes are not the record's container.
    NotSsz(SszError),
    /// The algorithm tag is not this form's.
    WrongTag(u8),
    /// The bitmap names another number of signers than there are signatures.
    Population,
    /// A signature does not decode.
    MalformedSignature,
    /// A signature is not in its canonical encoding.
    NonCanonicalSignature,
}

/// How many bytes a record has, if a machine word can hold that.
pub open spec fn record_size(members: nat, entries: nat, signatures: nat) -> nat {
    17 + entries * 32 + (members + 8) / 8 + signatures * 3309
}

/// How many bytes a record has, unless a machine word cannot hold that.
pub fn record_len(n_members: usize, list_len: usize, signature_count: usize) -> (len: Option<usize>)
    requires
        n_members + 8 <= usize::MAX,
    ensures
        len == if record_size(n_members as nat, list_len as nat, signature_count as nat)
            <= usize::MAX {
            Some(
                record_size(n_members as nat, list_len as nat, signature_count as nat) as usize,
            )
        } else {
            None
        },
{
    let entries: usize = match list_len.checked_mul(32) {
        Some(n) => n,
        None => {
            return None;
        },
    };
    let fixed: usize = match (17usize).checked_add(entries) {
        Some(n) => n,
        None => {
            return None;
        },
    };
    let marked: usize = match fixed.checked_add((n_members + 8) / 8) {
        Some(n) => n,
        None => {
            return None;
        },
    };
    let evidence: usize = match signature_count.checked_mul(SIGNATURE_BYTES) {
        Some(n) => n,
        None => {
            return None;
        },
    };
    marked.checked_add(evidence)
}

/// Refuses a committee size that no anchor has.
pub fn check_member_count(n_members: usize) -> (r: Result<(), MlDsaStatusListError>)
    ensures
        r == if 1 <= n_members <= MAX_COMMITTEE_SIZE {
            Ok::<(), MlDsaStatusListError>(())
        } else {
            Err(MlDsaStatusListError::CommitteeSize { members: n_members })
        },
{
    if n_members >= 1 && n_members <= MAX_COMMITTEE_SIZE {
        Ok(())
    } else {
        Err(MlDsaStatusListError::CommitteeSize { members: n_members })
    }
}

/// Whether every signature of a record is in its canonical encoding.
pub open spec fn all_canonical_signatures(signatures: Seq<Seq<u8>>) -> bool {
    forall|k: int| 0 <= k < signatures.len() ==> canonical_signature(#[trigger] signatures[k])
}

/// Whether a body is a record: its fields have their widths, it names a committee
/// within the bounds, there is one canonical signature for each signer, and its
/// encoding is within the byte limit.
pub open spec fn record_wf(r: Body) -> bool {
    &&& r.wf(3309)
    &&& r.balanced()
    &&& 1 <= r.bits.len() <= MAX_COMMITTEE_SIZE
    &&& all_canonical_signatures(r.signatures)
    &&& record_size(r.bits.len(), r.list.len(), r.signatures.len()) <= MAX_RECORD_BYTES
}

/// What is wrong with the first signature that is not canonical.
pub open spec fn signature_fault(signature: Seq<u8>) -> MlDsaStatusListError {
    if !ml_dsa_65_signature_decodes(signature) {
        MlDsaStatusListError::MalformedSignature
    } else {
        MlDsaStatusListError::NonCanonicalSignature
    }
}

/// Whether `k` is the place of the first signature that is not canonical.
pub open spec fn first_fault(signatures: Seq<Seq<u8>>, k: int) -> bool {
    &&& 0 <= k < signatures.len()
    &&& !canonical_signature(signatures[k])
    &&& forall|j: int| 0 <= j < k ==> canonical_signature(#[trigger] signatures[j])
}

/// Whether `r` is what decoding `b` comes to: the record it is the wire form of, or
/// what is wrong with it. The checks come in this order.
pub open spec fn decodes_to(b: Seq<u8>, r: Result<Body, MlDsaStatusListError>) -> bool {
    let body = body_of(b, 3309);
    if b.len() > MAX_RECORD_BYTES {
        r == Err::<Body, MlDsaStatusListError>(MlDsaStatusListError::TooLong)
    } else if !framed(b, 3309) {
        r == Err::<Body, MlDsaStatusListError>(
            MlDsaStatusListError::NotSsz(record_refusal(b, 3309, false)->0),
        )
    } else if b[0] != ALGORITHM_TAG {
        r == Err::<Body, MlDsaStatusListError>(MlDsaStatusListError::WrongTag(b[0]))
    } else if !(1 <= body.bits.len() <= MAX_COMMITTEE_SIZE) {
        r == Err::<Body, MlDsaStatusListError>(
            MlDsaStatusListError::CommitteeSize { members: body.bits.len() as usize },
        )
    } else if !body.balanced() {
        r == Err::<Body, MlDsaStatusListError>(MlDsaStatusListError::Population)
    } else if all_canonical_signatures(body.signatures) {
        r == Ok::<Body, MlDsaStatusListError>(body)
    } else {
        exists|k: int|
            #[trigger] first_fault(body.signatures, k) && r == Err::<Body, MlDsaStatusListError>(
                signature_fault(body.signatures[k]),
            )
    }
}

proof fn lemma_record_size(r: Body, tag: u8)
    requires
        r.wf(3309),
    ensures
        bitlist_bytes(r.bits).len() == (r.bits.len() + 8) / 8,
        r.encode(tag).len() == record_size(r.bits.len(), r.list.len(), r.signatures.len()),
{
    lemma_concat_len(r.list, 32);
    lemma_concat_len(r.signatures, 3309);
    lemma_le32(17);
    lemma_le32(r.version);
    lemma_le32((17 + 32 * r.list.len()) as u32);
    lemma_le32((17 + 32 * r.list.len() + bitlist_bytes(r.bits).len()) as u32);
}

/// Decoding what was encoded gives the record back.
pub proof fn law_record_round_trip(r: Body)
    requires
        record_wf(r),
    ensures
        decodes_to(r.encode(ALGORITHM_TAG), Ok(r)),
{
    lemma_record_size(r, ALGORITHM_TAG);
    lemma_body_round_trip(r, ALGORITHM_TAG, 3309);
}

/// A record has exactly one wire form: whatever decodes to it is its own encoding.
pub proof fn law_record_has_one_form(b: Seq<u8>, r: Body)
    requires
        decodes_to(b, Ok(r)),
    ensures
        record_wf(r),
        r.encode(ALGORITHM_TAG) == b,
{
    lemma_body_one_form(b, 3309);
    lemma_record_size(r, ALGORITHM_TAG);
}

/// Pairs of member index and signature, as they were collected.
pub open spec fn signer_pairs(pairs: Seq<(usize, Signature)>) -> Seq<(int, Seq<u8>)> {
    pairs.map_values(|p: (usize, Signature)| (p.0 as int, p.1@))
}

fn signature_bytes(pairs: &[(usize, Signature)]) -> (plain: Vec<(usize, Vec<u8>)>)
    ensures
        pair_views(plain@) == signer_pairs(pairs@),
        forall|k: int| 0 <= k < pairs@.len() ==> canonical_signature((#[trigger] pairs@[k]).1@),
{
    let mut plain: Vec<(usize, Vec<u8>)> = Vec::new();
    let mut k: usize = 0;
    while k < pairs.len()
        invariant
            k <= pairs@.len(),
            plain@.len() == k,
            forall|j: int|
                0 <= j < k ==> (#[trigger] plain@[j]).0 == pairs@[j].0 && plain@[j].1@
                    == pairs@[j].1@,
            forall|j: int| 0 <= j < k ==> canonical_signature((#[trigger] pairs@[j]).1@),
        decreases pairs@.len() - k,
    {
        plain.push((pairs[k].0, to_vec(pairs[k].1.as_bytes())));
        k = k + 1;
    }
    assert(pair_views(plain@) =~= signer_pairs(pairs@));
    plain
}

/// Raw ML-DSA-65 signatures plus the bitmap naming their owners. A value may still
/// have too few signatures or invalid ones.
pub struct MlDsaStatusList {
    body: SignedBody,
}

impl View for MlDsaStatusList {
    type V = Body;

    closed spec fn view(&self) -> Body {
        self.body@
    }
}

impl MlDsaStatusList {
    #[verifier::type_invariant]
    pub(crate) closed spec fn inv(self) -> bool {
        record_wf(self.body@)
    }

    /// Builds a canonical record from `(member index, signature)` pairs. The list may
    /// be empty; its order is kept.
    pub fn new(
        status_list: Vec<[u8; 32]>,
        version: u32,
        n_members: usize,
        signatures: Vec<(usize, Signature)>,
    ) -> (r: Result<MlDsaStatusList, MlDsaStatusListError>)
        ensures
            ({
                let pairs = signer_pairs(signatures@);
                let n = n_members as int;
                let sized = 1 <= n <= MAX_COMMITTEE_SIZE && pairs.len() <= n;
                let short = record_size(n as nat, status_list@.len(), pairs.len())
                    <= MAX_RECORD_BYTES;
                match r {
                    Ok(record) => {
                        &&& sized && short && distinct_indices(pairs) && indices_below(pairs, n)
                        &&& record@ == assembled(views(status_list@), version, pairs, n)
                        &&& record_wf(record@)
                    },
                    Err(MlDsaStatusListError::CommitteeSize { members }) => members == n && !(1 <= n
                        <= MAX_COMMITTEE_SIZE),
                    Err(MlDsaStatusListError::TooManySignatures) => 1 <= n <= MAX_COMMITTEE_SIZE
                        && pairs.len() > n,
                    Err(MlDsaStatusListError::TooLong) => sized && !short,
                    Err(MlDsaStatusListError::DuplicateSigner) => sized && short
                        && !distinct_indices(pairs),
                    Err(MlDsaStatusListError::SignerOutside { index }) => {
                        &&& sized && short && distinct_indices(pairs)
                        &&& n <= index
                        &&& named(pairs, index as int)
                        &&& indices_below(pairs, index + 1)
                    },
                    Err(_) => false,
                }
            }),
    {
        match check_member_count(n_members) {
            Err(e) => {
                return Err(e);
            },
            Ok(_) => {},
        }
        if signatures.len() > n_members {
            return Err(MlDsaStatusListError::TooManySignatures);
        }
        match record_len(n_members, status_list.len(), signatures.len()) {
            None => {
                return Err(MlDsaStatusListError::TooLong);
            },
            Some(len) => {
                if len > MAX_RECORD_BYTES {
                    return Err(MlDsaStatusListError::TooLong);
                }
            },
        }
        let ghost pairs = signer_pairs(signatures@);
        let plain = signature_bytes(signatures.as_slice());
        assert(pairs_width(pairs, 3309)) by {
            assert forall|k: int| 0 <= k < pairs.len() implies (#[trigger] pairs[k]).1.len()
                == 3309 by {
                assert(canonical_signature(signatures@[k].1@));
            }
        }
        match SignedBody::assemble(status_list, version, n_members, plain) {
            Ok(body) => {
                proof {
                    law_every_signature_is_counted(pairs, n_members as int);
                    assert forall|k: int| 0 <= k < body@.signatures.len() implies canonical_signature(
                        #[trigger] body@.signatures[k],
                    ) by {
                        let i = set_indices(body@.bits)[k];
                        crate::bitlist::lemma_set_indices(body@.bits);
                        let p = crate::protocol::record::place_of(pairs, i);
                        assert(named(pairs, i));
                        assert(body@.signatures[k] == pairs[p].1);
                        assert(canonical_signature(signatures@[p].1@));
                    }
                }
                Ok(MlDsaStatusList { body })
            },
            Err(AssembleError::DuplicateSigner) => Err(MlDsaStatusListError::DuplicateSigner),
            Err(AssembleError::SignerOutside { index }) => {
                Err(MlDsaStatusListError::SignerOutside { index })
            },
            Err(AssembleError::CommitteeTooLarge) => {
                assert(false);
                Err(MlDsaStatusListError::CommitteeSize { members: n_members })
            },
        }
    }

    pub fn list(&self) -> (list: &[[u8; 32]])
        ensures
            views(list@) == self@.list,
    {
        self.body.list()
    }

    pub fn version(&self) -> (version: u32)
        ensures
            version == self@.version,
    {
        self.body.version()
    }

    /// How many members the bitmap is sized for.
    pub fn signer_slots(&self) -> (n: usize)
        ensures
            n == self@.bits.len(),
    {
        self.body.signer_slots()
    }

    /// How many members signed.
    pub fn signer_count(&self) -> (n: usize)
        ensures
            n == count_set(self@.bits),
    {
        self.body.signer_count()
    }

    /// Ascending signer indices, one for each of the signatures.
    pub fn signer_indices(&self) -> (indices: Vec<usize>)
        ensures
            as_ints(indices@) == set_indices(self@.bits),
    {
        self.body.signer_indices()
    }

    /// How many signatures there are.
    pub fn signature_count(&self) -> (n: usize)
        ensures
            n == self@.signatures.len(),
    {
        let plain = self.body.signatures();
        assert(plain@.len() == self@.signatures.len());
        plain.len()
    }

    /// The signatures, in the order of their signers.
    pub fn signatures(&self) -> (signatures: Vec<Signature>)
        ensures
            ml_dsa_signature_views(signatures@) == self@.signatures,
            record_wf(self@),
    {
        proof {
            use_type_invariant(self);
        }
        let plain = self.body.signatures();
        let mut signatures: Vec<Signature> = Vec::new();
        let mut k: usize = 0;
        while k < plain.len()
            invariant
                k <= plain@.len(),
                vec_views(plain@) == self@.signatures,
                all_canonical_signatures(self@.signatures),
                signatures@.len() == k,
                forall|j: int| 0 <= j < k ==> (#[trigger] signatures@[j])@ == plain@[j]@,
            decreases plain@.len() - k,
        {
            assert(self@.signatures[k as int] == plain@[k as int]@);
            match Signature::from_bytes(plain[k].as_slice()) {
                Ok(signature) => {
                    signatures.push(signature);
                },
                Err(_) => {
                    assert(false);
                },
            }
            k = k + 1;
        }
        assert(ml_dsa_signature_views(signatures@) =~= self@.signatures);
        signatures
    }

    /// The entire published record, which decodes to it again.
    pub fn to_bytes(&self) -> (bytes: Vec<u8>)
        ensures
            bytes@ == self@.encode(ALGORITHM_TAG),
            decodes_to(bytes@, Ok(self@)),
    {
        proof {
            use_type_invariant(self);
            lemma_record_size(self@, ALGORITHM_TAG);
            law_record_round_trip(self@);
        }
        self.body.to_bytes(ALGORITHM_TAG)
    }

    /// Decodes one bounded, canonical record and each of its signatures. Whether
    /// they verify is not looked at.
    pub fn from_bytes(bytes: &[u8]) -> (r: Result<MlDsaStatusList, MlDsaStatusListError>)
        ensures
            decodes_to(bytes@, body_view(r)),
    {
        if bytes.len() > MAX_RECORD_BYTES {
            return Err(MlDsaStatusListError::TooLong);
        }
        let body: SignedBody = match SignedBody::from_bytes(bytes, SIGNATURE_BYTES, false) {
            Ok(body) => body,
            Err(e) => {
                return Err(MlDsaStatusListError::NotSsz(e));
            },
        };
        if bytes[0] != ALGORITHM_TAG {
            return Err(MlDsaStatusListError::WrongTag(bytes[0]));
        }
        proof {
            lemma_body_one_form(bytes@, 3309);
            lemma_record_size(body@, ALGORITHM_TAG);
        }
        match check_member_count(body.signer_slots()) {
            Err(e) => {
                return Err(e);
            },
            Ok(_) => {},
        }
        let plain = body.signatures();
        assert(plain@.len() == body@.signatures.len());
        if plain.len() != body.signer_count() {
            return Err(MlDsaStatusListError::Population);
        }
        let mut k: usize = 0;
        while k < plain.len()
            invariant
                k <= plain@.len(),
                vec_views(plain@) == body@.signatures,
                body@ == body_of(bytes@, 3309),
                body@.wf(3309),
                bytes@.len() <= MAX_RECORD_BYTES,
                framed(bytes@, 3309),
                bytes@[0] == ALGORITHM_TAG,
                1 <= body@.bits.len() <= MAX_COMMITTEE_SIZE,
                body@.balanced(),
                forall|j: int|
                    0 <= j < k ==> canonical_signature(#[trigger] body@.signatures[j]),
            decreases plain@.len() - k,
        {
            assert(body@.signatures[k as int] == plain@[k as int]@);
            match Signature::from_bytes(plain[k].as_slice()) {
                Ok(_) => {},
                Err(SignatureError::Malformed) => {
                    assert(first_fault(body@.signatures, k as int));
                    return Err(MlDsaStatusListError::MalformedSignature);
                },
                Err(SignatureError::NonCanonical) => {
                    assert(first_fault(body@.signatures, k as int));
                    return Err(MlDsaStatusListError::NonCanonicalSignature);
                },
            }
            k = k + 1;
        }
        Ok(MlDsaStatusList { body })
    }
}

/// The view of a decoded record.
pub open spec fn body_view(r: Result<MlDsaStatusList, MlDsaStatusListError>) -> Result<
    Body,
    MlDsaStatusListError,
> {
    match r {
        Ok(record) => Ok(record@),
        Err(e) => Err(e),
    }
}

impl MlDsaStatusListError {
    /// The refusal in words.
    pub open spec fn message(self) -> Seq<char> {
        match self {
            MlDsaStatusListError::CommitteeSize { members } => "committee size "@ + decimal(
                members as nat,
            ) + " outside 1..=2048"@,
            MlDsaStatusListError::TooManySignatures => "more signatures than committee members"@,
            MlDsaStatusListError::TooLong => "ML-DSA status list exceeds the record byte limit"@,
            MlDsaStatusListError::DuplicateSigner => "duplicate signer index"@,
            MlDsaStatusListError::SignerOutside { index } => "signer index "@ + decimal(
                index as nat,
            ) + " outside committee"@,
            MlDsaStatusListError::NotSsz(e) => "invalid ML-DSA status-list SSZ: "@ + e.message(),
            MlDsaStatusListError::WrongTag(tag) => "unexpected status-list algorithm tag "@
                + decimal(tag as nat),
            MlDsaStatusListError::Population => "bitmap population differs from signature count"@,
            MlDsaStatusListError::MalformedSignature => "malformed ML-DSA signature"@,
            MlDsaStatusListError::NonCanonicalSignature => "non-canonical ML-DSA signature"@,
        }
    }

    /// The refusal in words.
    pub fn text(&self) -> (text: String)
        ensures
            text@ == self.message(),
    {
        match self {
            MlDsaStatusListError::CommitteeSize { members } => {
                let mut text: String = "committee size ".to_owned();
                push_decimal(&mut text, *members as u64);
                text.append(" outside 1..=2048");
                text
            },
            MlDsaStatusListError::TooManySignatures => {
                "more signatures than committee members".to_owned()
            },
            MlDsaStatusListError::TooLong => {
                "ML-DSA status list exceeds the record byte limit".to_owned()
            },
            MlDsaStatusListError::DuplicateSigner => "duplicate signer index".to_owned(),
            MlDsaStatusListError::SignerOutside { index } => {
                let mut text: String = "signer index ".to_owned();
                push_decimal(&mut text, *index as u64);
                text.append(" outside committee");
                text
            },
            MlDsaStatusListError::NotSsz(e) => {
                joined("invalid ML-DSA status-list SSZ: ", e.text().as_str())
            },
            MlDsaStatusListError::WrongTag(tag) => {
                let mut text: String = "unexpected status-list algorithm tag ".to_owned();
                push_decimal(&mut text, *tag as u64);
                text
            },
            MlDsaStatusListError::Population => {
                "bitmap population differs from signature count".to_owned()
            },
            MlDsaStatusListError::MalformedSignature => "malformed ML-DSA signature".to_owned(),
            MlDsaStatusListError::NonCanonicalSignature => {
                "non-canonical ML-DSA signature".to_owned()
            },
        }
    }
}

/// Bytes decode to one thing: a record, or one refusal.
pub proof fn law_decoding_has_one_result(
    b: Seq<u8>,
    x: Result<Body, MlDsaStatusListError>,
    y: Result<Body, MlDsaStatusListError>,
)
    requires
        decodes_to(b, x),
        decodes_to(b, y),
    ensures
        x == y,
{
    let signatures = body_of(b, 3309).signatures;
    if x is Err && framed(b, 3309) && !all_canonical_signatures(signatures) && x != y {
        let j = choose|k: int|
            #[trigger] first_fault(signatures, k) && x == Err::<Body, MlDsaStatusListError>(
                signature_fault(signatures[k]),
            );
        let k = choose|k: int|
            #[trigger] first_fault(signatures, k) && y == Err::<Body, MlDsaStatusListError>(
                signature_fault(signatures[k]),
            );
        if j < k {
            assert(canonical_signature(signatures[j]));
        } else if k < j {
            assert(canonical_signature(signatures[k]));
        }
    }
}

/// The length of a record is known before it is encoded.
pub proof fn law_the_size_is_the_encoded_length(r: Body, tag: u8)
    requires
        r.wf(3309),
    ensures
        r.encode(tag).len() == record_size(r.bits.len(), r.list.len(), r.signatures.len()),
{
    lemma_record_size(r, tag);
}

/// Whatever has the layout of a record but is none is refused for the first thing that is
/// wrong with it: its tag, the size of the committee it is for, a bitmap that does not name
/// as many members as there are signatures, or a signature that is not canonical.
pub proof fn law_an_encoded_fault_is_told(
    r: Body,
    tag: u8,
    d: Result<Body, MlDsaStatusListError>,
)
    requires
        r.wf(3309),
        r.encode(tag).len() <= 67108864,
        decodes_to(r.encode(tag), d),
    ensures
        ({
            let n = r.bits.len();
            let sized = tag == 2 && 1 <= n <= 2048;
            let even = sized && count_set(r.bits) == r.signatures.len();
            &&& tag != 2 ==> d == Err::<Body, MlDsaStatusListError>(
                MlDsaStatusListError::WrongTag(tag),
            )
            &&& tag == 2 && !sized ==> d == Err::<Body, MlDsaStatusListError>(
                MlDsaStatusListError::CommitteeSize { members: n as usize },
            )
            &&& sized && !even ==> d == Err::<Body, MlDsaStatusListError>(
                MlDsaStatusListError::Population,
            )
            &&& even && all_canonical_signatures(r.signatures) ==> d == Ok::<
                Body,
                MlDsaStatusListError,
            >(r)
            &&& even && !all_canonical_signatures(r.signatures) ==> exists|k: int|
                {
                    &&& 0 <= k < r.signatures.len()
                    &&& !canonical_signature(#[trigger] r.signatures[k])
                    &&& forall|j: int| 0 <= j < k ==> canonical_signature(r.signatures[j])
                    &&& d == Err::<Body, MlDsaStatusListError>(
                        if ml_dsa_65_signature_decodes(r.signatures[k]) {
                            MlDsaStatusListError::NonCanonicalSignature
                        } else {
                            MlDsaStatusListError::MalformedSignature
                        },
                    )
                }
        }),
{
    lemma_record_size(r, tag);
    lemma_body_round_trip(r, tag, 3309);
    if tag == 2 && 1 <= r.bits.len() <= 2048 && r.balanced() && !all_canonical_signatures(
        r.signatures,
    ) {
        let k = choose|k: int|
            #[trigger] first_fault(r.signatures, k) && d == Err::<Body, MlDsaStatusListError>(
                signature_fault(r.signatures[k]),
            );
        assert(first_fault(r.signatures, k));
        assert(!canonical_signature(r.signatures[k]));
    }
}

/// Bytes over the limit are refused before anything of them is looked at.
pub proof fn law_a_record_over_the_limit_is_refused(
    b: Seq<u8>,
    d: Result<Body, MlDsaStatusListError>,
)
    requires
        decodes_to(b, d),
    ensures
        b.len() > 67108864 <==> d == Err::<Body, MlDsaStatusListError>(
            MlDsaStatusListError::TooLong,
        ),
{
}

} // verus!

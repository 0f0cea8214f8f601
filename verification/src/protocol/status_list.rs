//! Published status-list records.
//!
//! [`StatusList`] carries raw signatures and a bitmap of their signers;
//! [`SnarkStatusList`] carries one aggregate. Both bind the same list and version
//! to a committee anchor.
use crate::bitlist::{as_ints, count_set, set_indices, MAX_BITS};
use crate::bytes::{
    all_width, blocks_of, concat, from_le32, le32, le64, lemma_blocks_of_concat,
    lemma_concat_blocks_of, lemma_concat_injective, lemma_concat_len, lemma_from_le32, lemma_le32,
    lemma_le64, lemma_same_split, push_all, push_arrays, push_le32, push_le64, read_le32,
    split_arrays, to_vec, vec_views, views,
};
use crate::framing::{
    blocks_refusal, check_blocks, check_fixed, check_offset, check_start, first_of, fixed_refusal,
    offset_at, offset_refusal, start_refusal, SszError,
};
use crate::hash::{blake2s_256, blake2s_256_digest};
use crate::protocol::record::{
    assembled, body_of, distinct_indices, framed, indices_below, lemma_body_one_form,
    lemma_body_round_trip, named, pair_views, pairs_width, record_refusal, AssembleError, Body,
    SignedBody,
};
use crate::protocol::xmss::{signature_views, XmssSignature, SIGNATURE_SSZ_LEN};
use crate::text::{decimal, hex_text, joined, push_decimal, push_hex};
use vstd::prelude::*;
use vstd::string::*;

verus! {

/// The signature scheme a record's evidence belongs to.
#[derive(Clone, Copy, PartialEq, Eq, Structural, Debug)]
pub enum Algorithms {
    WotsXmss,
}

/// Why a record could not be built or decoded.
#[derive(Clone, Copy, PartialEq, Eq, Structural, Debug)]
pub enum StatusListError {
    /// The bytes are not the raw container.
    RawNotSsz(SszError),
    /// The bytes are not the SNARK container.
    SnarkNotSsz(SszError),
    /// The algorithm tag belongs to a construction that is no longer read.
    RetiredTag,
    /// The algorithm tag belongs to no construction.
    UnknownTag(u8),
    /// The bitmap names another number of signers than there are signatures.
    Population { named: usize, present: usize },
    /// One member is named twice.
    DuplicateSigner,
    /// A member index is not below the committee size.
    SignerOutside { index: usize, members: usize },
    /// The committee is over the ceiling.
    CommitteeTooLarge { members: usize },
}

/// The wire tag of an algorithm. Tag 0 named an incompatible construction and is
/// never given out again.
pub open spec fn tag_of(alg: Algorithms) -> u8 {
    match alg {
        Algorithms::WotsXmss => 1,
    }
}

/// The algorithm a wire tag names.
pub open spec fn algorithm_of(tag: u8) -> Result<Algorithms, StatusListError> {
    if tag == 1 {
        Ok(Algorithms::WotsXmss)
    } else if tag == 0 {
        Err(StatusListError::RetiredTag)
    } else {
        Err(StatusListError::UnknownTag(tag))
    }
}

/// The wire tag of `alg`.
pub fn algorithm_tag(alg: Algorithms) -> (tag: u8)
    ensures
        tag == tag_of(alg),
{
    match alg {
        Algorithms::WotsXmss => 1,
    }
}

/// The algorithm that `tag` names, unless it is retired or unknown.
pub fn algorithm_from_tag(tag: u8) -> (alg: Result<Algorithms, StatusListError>)
    ensures
        alg == algorithm_of(tag),
{
    if tag == 1 {
        Ok(Algorithms::WotsXmss)
    } else if tag == 0 {
        Err(StatusListError::RetiredTag)
    } else {
        Err(StatusListError::UnknownTag(tag))
    }
}

// ---- what is signed ----------------------------------------------------------

/// Generation of the signed-message construction. It is not a wire version: it is
/// the epoch of what a signature means.
pub const MESSAGE_FORMAT: u32 = 2;

/// What the domain hash is taken of: its context, the construction generation,
/// the algorithm tag and the fingerprint of the anchor.
pub open spec fn domain_preimage(fingerprint: Seq<u8>, alg: Algorithms) -> Seq<u8> {
    "decentralized-root-of-trust/status-list-domain".spec_bytes() + le32(MESSAGE_FORMAT)
        + seq![tag_of(alg)] + fingerprint
}

/// What a signed message is the hash of: its context, the domain, the version,
/// the number of entries and the entries in order.
pub open spec fn message_preimage(domain: Seq<u8>, list: Seq<Seq<u8>>, version: u32) -> Seq<u8> {
    "decentralized-root-of-trust/status-list-message".spec_bytes() + domain + le32(version) + le64(
        list.len() as u64,
    ) + concat(list)
}

/// The message that members sign for `list` at `version`.
pub open spec fn message_of(domain: Seq<u8>, list: Seq<Seq<u8>>, version: u32) -> Seq<u8> {
    blake2s_256(message_preimage(domain, list, version))
}

/// The trust domain a signed message belongs to: one anchor under one algorithm.
#[derive(Clone, Copy, Debug)]
pub struct Domain {
    digest: [u8; 32],
}

impl View for Domain {
    type V = Seq<u8>;

    closed spec fn view(&self) -> Seq<u8> {
        self.digest@
    }
}

impl Domain {
    /// The domain of the anchor with this fingerprint.
    pub fn new(anchor_fingerprint: &[u8; 32], alg: Algorithms) -> (domain: Domain)
        ensures
            domain@ == blake2s_256(domain_preimage(anchor_fingerprint@, alg)),
            domain@.len() == 32,
    {
        let mut preimage: Vec<u8> = Vec::new();
        push_all(&mut preimage, "decentralized-root-of-trust/status-list-domain".as_bytes());
        push_le32(&mut preimage, MESSAGE_FORMAT);
        preimage.push(algorithm_tag(alg));
        push_all(&mut preimage, anchor_fingerprint.as_slice());
        assert(preimage@ =~= domain_preimage(anchor_fingerprint@, alg));
        let digest = blake2s_256_digest(preimage.as_slice());
        Domain { digest }
    }

    /// The digest that stands for the domain.
    pub fn as_bytes(&self) -> (bytes: &[u8; 32])
        ensures
            bytes@ == self@,
    {
        &self.digest
    }
}

/// Hashes the complete, unambiguous status-list statement.
pub fn status_list_message(domain: &Domain, list: &[[u8; 32]], version: u32) -> (message: [u8; 32])
    ensures
        message@ == message_of(domain@, views(list@), version),
{
    let mut preimage: Vec<u8> = Vec::new();
    push_all(&mut preimage, "decentralized-root-of-trust/status-list-message".as_bytes());
    push_all(&mut preimage, domain.digest.as_slice());
    push_le32(&mut preimage, version);
    push_le64(&mut preimage, list.len() as u64);
    push_arrays(&mut preimage, list);
    assert(preimage@ =~= message_preimage(domain@, views(list@), version));
    blake2s_256_digest(preimage.as_slice())
}

/// The statement that is hashed says everything: two of them are equal only when
/// domain, list, order of the list and version all are.
pub proof fn law_message_preimage_is_unambiguous(
    d1: Seq<u8>,
    l1: Seq<Seq<u8>>,
    v1: u32,
    d2: Seq<u8>,
    l2: Seq<Seq<u8>>,
    v2: u32,
)
    requires
        d1.len() == 32,
        d2.len() == 32,
        all_width(l1, 32),
        all_width(l2, 32),
        message_preimage(d1, l1, v1) == message_preimage(d2, l2, v2),
    ensures
        d1 == d2,
        l1 == l2,
        v1 == v2,
{
    let context = "decentralized-root-of-trust/status-list-message".spec_bytes();
    let (n1, n2) = (le64(l1.len() as u64), le64(l2.len() as u64));
    lemma_le64(l1.len() as u64);
    lemma_le64(l2.len() as u64);
    lemma_le32(v1);
    lemma_le32(v2);
    lemma_same_split(
        context + d1 + le32(v1) + n1,
        concat(l1),
        context + d2 + le32(v2) + n2,
        concat(l2),
    );
    lemma_same_split(context + d1 + le32(v1), n1, context + d2 + le32(v2), n2);
    lemma_same_split(context + d1, le32(v1), context + d2, le32(v2));
    lemma_same_split(context, d1, context, d2);
    lemma_concat_injective(l1, l2, 32);
}

/// The statement behind a domain names its anchor and its algorithm.
pub proof fn law_domain_preimage_is_unambiguous(
    f1: Seq<u8>,
    a1: Algorithms,
    f2: Seq<u8>,
    a2: Algorithms,
)
    requires
        domain_preimage(f1, a1) == domain_preimage(f2, a2),
    ensures
        f1 == f2,
        a1 == a2,
{
    let context = "decentralized-root-of-trust/status-list-domain".spec_bytes();
    let k = context.len() as int + 5;
    let a = domain_preimage(f1, a1);
    let b = domain_preimage(f2, a2);
    assert(a.subrange(k, a.len() as int) =~= f1);
    assert(b.subrange(k, b.len() as int) =~= f2);
    assert(a[k - 1] == tag_of(a1));
    assert(b[k - 1] == tag_of(a2));
}

/// A domain statement is never a message statement: the contexts differ before
/// either ends.
pub proof fn law_domain_and_message_statements_differ(
    fingerprint: Seq<u8>,
    alg: Algorithms,
    domain: Seq<u8>,
    list: Seq<Seq<u8>>,
    version: u32,
)
    ensures
        domain_preimage(fingerprint, alg) != message_preimage(domain, list, version),
{
    reveal_strlit("decentralized-root-of-trust/status-list-domain");
    reveal_strlit("decentralized-root-of-trust/status-list-message");
    broadcast use is_ascii_spec_bytes;

    let d = "decentralized-root-of-trust/status-list-domain";
    let m = "decentralized-root-of-trust/status-list-message";
    assert(is_ascii(d));
    assert(is_ascii(m));
    let a = domain_preimage(fingerprint, alg);
    let b = message_preimage(domain, list, version);
    assert(d@[40] == 'd' && m@[40] == 'm');
    assert(d.spec_bytes()[40] == d@[40] as u8);
    assert(m.spec_bytes()[40] == m@[40] as u8);
    assert(a[40] == d.spec_bytes()[40]);
    assert(b[40] == m.spec_bytes()[40]);
}

// ---- the SNARK form ----------------------------------------------------------

/// What a record of the SNARK form says.
#[verifier::ext_equal]
pub struct SnarkRecord {
    pub alg: Algorithms,
    pub list: Seq<Seq<u8>>,
    pub version: u32,
    pub proof: Seq<u8>,
}

impl SnarkRecord {
    /// Whether the entries have their width and the offsets fit the container.
    pub open spec fn wf(self) -> bool {
        &&& all_width(self.list, 32)
        &&& 13 + 32 * self.list.len() <= u32::MAX
    }

    /// The container: algorithm tag, offset of the list, version, offset of the
    /// proof, and then the two in turn.
    pub open spec fn encode(self) -> Seq<u8> {
        seq![tag_of(self.alg)] + le32(13) + le32(self.version) + le32((13 + 32 * self.list.len()) as u32)
            + concat(self.list) + self.proof
    }
}

/// Whether the offsets in `b` cut it into the fields of the SNARK container.
pub open spec fn snark_framed(b: Seq<u8>) -> bool {
    &&& b.len() >= 13
    &&& from_le32(b.subrange(1, 5)) == 13
    &&& 13 <= from_le32(b.subrange(9, 13)) <= b.len()
    &&& (from_le32(b.subrange(9, 13)) - 13) % 32 == 0
}

/// What is wrong with bytes that should be the SNARK container.
pub open spec fn snark_refusal(b: Seq<u8>) -> Option<SszError> {
    first_of(
        fixed_refusal(b, 1),
        first_of(
            offset_refusal(b, 1, None),
            first_of(
                fixed_refusal(b, 9),
                first_of(
                    offset_refusal(b, 9, Some(1usize)),
                    first_of(
                        start_refusal(b, 1, 13),
                        blocks_refusal(offset_at(b, 9) - 13, 32, false),
                    ),
                ),
            ),
        ),
    )
}

/// Bytes are refused exactly when they are not cut into the fields of the container.
pub proof fn law_a_refused_snark_record_is_not_framed(b: Seq<u8>)
    ensures
        snark_refusal(b) is None <==> snark_framed(b),
{
}

fn check_snark(b: &[u8]) -> (r: Option<SszError>)
    ensures
        r == snark_refusal(b@),
{
    if let Some(e) = check_fixed(b, 1) {
        return Some(e);
    }
    if let Some(e) = check_offset(b, 1, None) {
        return Some(e);
    }
    if let Some(e) = check_fixed(b, 9) {
        return Some(e);
    }
    if let Some(e) = check_offset(b, 9, Some(1)) {
        return Some(e);
    }
    if let Some(e) = check_start(b, 1, 13) {
        return Some(e);
    }
    check_blocks(read_le32(b, 9) as usize - 13, 32, false)
}

/// The record that `b` is the wire form of, or why it is none.
pub open spec fn decode_snark(b: Seq<u8>) -> Result<SnarkRecord, StatusListError> {
    if !snark_framed(b) {
        Err(StatusListError::SnarkNotSsz(snark_refusal(b)->0))
    } else {
        match algorithm_of(b[0]) {
            Err(e) => Err(e),
            Ok(alg) => {
                let off = from_le32(b.subrange(9, 13)) as int;
                Ok(
                    SnarkRecord {
                        alg,
                        list: blocks_of(b.subrange(13, off), 32),
                        version: from_le32(b.subrange(5, 9)),
                        proof: b.subrange(off, b.len() as int),
                    },
                )
            },
        }
    }
}

proof fn lemma_snark_layout(r: SnarkRecord)
    requires
        r.wf(),
    ensures
        ({
            let b = r.encode();
            let off = 13 + 32 * r.list.len();
            &&& b.len() == off + r.proof.len()
            &&& b[0] == tag_of(r.alg)
            &&& b.subrange(1, 5) == le32(13)
            &&& b.subrange(5, 9) == le32(r.version)
            &&& b.subrange(9, 13) == le32(off as u32)
            &&& b.subrange(13, off as int) == concat(r.list)
            &&& b.subrange(off as int, b.len() as int) == r.proof
        }),
{
    let b = r.encode();
    let off = 13 + 32 * r.list.len();
    lemma_concat_len(r.list, 32);
    let (f1, f2, f3) = (le32(13), le32(r.version), le32(off as u32));
    lemma_le32(13);
    lemma_le32(r.version);
    lemma_le32(off as u32);
    let body = concat(r.list);
    assert(b == seq![tag_of(r.alg)] + f1 + f2 + f3 + body + r.proof);
    assert(b.subrange(1, 5) =~= f1);
    assert(b.subrange(5, 9) =~= f2);
    assert(b.subrange(9, 13) =~= f3);
    assert(b.subrange(13, off as int) =~= body);
    assert(b.subrange(off as int, b.len() as int) =~= r.proof);
}

/// Decoding what was encoded gives the record back.
pub proof fn law_snark_round_trip(r: SnarkRecord)
    requires
        r.wf(),
    ensures
        decode_snark(r.encode()) == Ok::<SnarkRecord, StatusListError>(r),
{
    lemma_snark_layout(r);
    let off = (13 + 32 * r.list.len()) as u32;
    lemma_le32(13);
    lemma_le32(r.version);
    lemma_le32(off);
    lemma_blocks_of_concat(r.list, 32);
}

/// A SNARK record has exactly one wire form: whatever decodes to it is its own
/// encoding.
pub proof fn law_snark_has_one_form(b: Seq<u8>, r: SnarkRecord)
    requires
        decode_snark(b) == Ok::<SnarkRecord, StatusListError>(r),
    ensures
        r.wf(),
        r.encode() == b,
{
    let off = from_le32(b.subrange(9, 13)) as int;
    lemma_from_le32(b.subrange(1, 5));
    lemma_from_le32(b.subrange(5, 9));
    lemma_from_le32(b.subrange(9, 13));
    lemma_concat_blocks_of(b.subrange(13, off), 32);
    assert(13 + 32 * r.list.len() == off);
    let (f1, f2, f3) = (le32(13), le32(r.version), le32(off as u32));
    let body = concat(r.list);
    assert(seq![tag_of(r.alg)] + f1 + f2 + f3 + body + r.proof =~= b);
}

/// The SNARK-attested form: one succinct proof in place of the signatures.
pub struct SnarkStatusList {
    alg: Algorithms,
    status_list: Vec<[u8; 32]>,
    version: u32,
    zk_proof: Vec<u8>,
}

impl View for SnarkStatusList {
    type V = SnarkRecord;

    closed spec fn view(&self) -> SnarkRecord {
        SnarkRecord {
            alg: self.alg,
            list: views(self.status_list@),
            version: self.version,
            proof: self.zk_proof@,
        }
    }
}

impl SnarkStatusList {
    pub fn new(alg: Algorithms, status_list: Vec<[u8; 32]>, version: u32, zk_proof: Vec<u8>) -> (r:
        SnarkStatusList)
        ensures
            r@ == (SnarkRecord { alg, list: views(status_list@), version, proof: zk_proof@ }),
    {
        SnarkStatusList { alg, status_list, version, zk_proof }
    }

    pub fn alg(&self) -> (alg: Algorithms)
        ensures
            alg == self@.alg,
    {
        self.alg
    }

    pub fn version(&self) -> (version: u32)
        ensures
            version == self@.version,
    {
        self.version
    }

    /// Raw bytes of the aggregated proof, in its own encoding.
    pub fn proof_bytes(&self) -> (bytes: &[u8])
        ensures
            bytes@ == self@.proof,
    {
        self.zk_proof.as_slice()
    }

    pub fn list(&self) -> (list: &[[u8; 32]])
        ensures
            views(list@) == self@.list,
    {
        self.status_list.as_slice()
    }

    pub fn list_cloned(&self) -> (list: Vec<[u8; 32]>)
        ensures
            views(list@) == self@.list,
    {
        copy_entries(self.status_list.as_slice())
    }

    /// Canonical wire encoding of the published object. The container counts in
    /// 32 bits, which bounds the list.
    pub fn to_bytes(&self) -> (bytes: Vec<u8>)
        requires
            13 + 32 * self@.list.len() <= u32::MAX,
        ensures
            bytes@ == self@.encode(),
            self@.wf(),
    {
        let mut bytes: Vec<u8> = Vec::new();
        bytes.push(algorithm_tag(self.alg));
        push_le32(&mut bytes, 13);
        push_le32(&mut bytes, self.version);
        push_le32(&mut bytes, 13 + 32 * (self.status_list.len() as u32));
        push_arrays(&mut bytes, self.status_list.as_slice());
        push_all(&mut bytes, self.zk_proof.as_slice());
        assert(bytes@ =~= self@.encode());
        bytes
    }

    /// Decodes the canonical container. What the proof inside is worth is not
    /// looked at here.
    pub fn from_bytes(bytes: &[u8]) -> (r: Result<SnarkStatusList, StatusListError>)
        ensures
            match r {
                Ok(record) => decode_snark(bytes@) == Ok::<SnarkRecord, StatusListError>(record@),
                Err(e) => decode_snark(bytes@) == Err::<SnarkRecord, StatusListError>(e),
            },
    {
        proof {
            law_a_refused_snark_record_is_not_framed(bytes@);
        }
        if let Some(e) = check_snark(bytes) {
            return Err(StatusListError::SnarkNotSsz(e));
        }
        let len: usize = bytes.len();
        let off: usize = read_le32(bytes, 9) as usize;
        match algorithm_from_tag(bytes[0]) {
            Err(e) => Err(e),
            Ok(alg) => {
                let list = split_arrays(&bytes[13..off]);
                let version: u32 = read_le32(bytes, 5);
                let proof = to_vec(&bytes[off..len]);
                Ok(SnarkStatusList { alg, status_list: list, version, zk_proof: proof })
            },
        }
    }
}

/// A copy of a list of entries.
pub(crate) fn copy_entries(list: &[[u8; 32]]) -> (copy: Vec<[u8; 32]>)
    ensures
        copy@ == list@,
{
    let mut copy: Vec<[u8; 32]> = Vec::new();
    let mut i: usize = 0;
    while i < list.len()
        invariant
            i <= list@.len(),
            copy@ == list@.subrange(0, i as int),
        decreases list@.len() - i,
    {
        copy.push(list[i]);
        i = i + 1;
        assert(copy@ =~= list@.subrange(0, i as int));
    }
    assert(copy@ =~= list@);
    copy
}

// ---- the raw form ------------------------------------------------------------

/// What a record of the raw form says.
#[verifier::ext_equal]
pub struct RawRecord {
    pub alg: Algorithms,
    pub list: Seq<Seq<u8>>,
    pub version: u32,
    /// One bit per member; its length is checked against the anchor.
    pub bits: Seq<bool>,
    /// One signature per set bit, in ascending index order.
    pub signatures: Seq<Seq<u8>>,
}

impl RawRecord {
    /// The record without its algorithm.
    pub open spec fn body(self) -> Body {
        Body {
            list: self.list,
            version: self.version,
            bits: self.bits,
            signatures: self.signatures,
        }
    }

    /// Whether the fields have their widths and the bitmap names as many signers as
    /// there are signatures.
    pub open spec fn wf(self) -> bool {
        self.body().wf(SIGNATURE_SSZ_LEN as int) && self.body().balanced()
    }

    /// Whether the offsets fit the container.
    pub open spec fn fits(self) -> bool {
        self.body().fits()
    }

    /// The container under the tag of the algorithm.
    pub open spec fn encode(self) -> Seq<u8> {
        self.body().encode(tag_of(self.alg))
    }
}

/// The raw record of an algorithm and a body.
pub open spec fn raw_record(alg: Algorithms, body: Body) -> RawRecord {
    RawRecord {
        alg,
        list: body.list,
        version: body.version,
        bits: body.bits,
        signatures: body.signatures,
    }
}

/// The record that `b` is the wire form of, or why it is none.
pub open spec fn decode_raw(b: Seq<u8>) -> Result<RawRecord, StatusListError> {
    if !framed(b, SIGNATURE_SSZ_LEN as int) {
        Err(StatusListError::RawNotSsz(record_refusal(b, SIGNATURE_SSZ_LEN as int, true)->0))
    } else {
        match algorithm_of(b[0]) {
            Err(e) => Err(e),
            Ok(alg) => {
                let body = body_of(b, SIGNATURE_SSZ_LEN as int);
                if body.balanced() {
                    Ok(raw_record(alg, body))
                } else {
                    Err(
                        StatusListError::Population {
                            named: count_set(body.bits) as usize,
                            present: body.signatures.len() as usize,
                        },
                    )
                }
            },
        }
    }
}

/// Decoding what was encoded gives the record back.
pub proof fn law_raw_round_trip(r: RawRecord)
    requires
        r.wf(),
        r.fits(),
    ensures
        decode_raw(r.encode()) == Ok::<RawRecord, StatusListError>(r),
{
    lemma_body_round_trip(r.body(), tag_of(r.alg), SIGNATURE_SSZ_LEN as int);
}

/// A raw record has exactly one wire form: whatever decodes to it is its own
/// encoding.
pub proof fn law_raw_has_one_form(b: Seq<u8>, r: RawRecord)
    requires
        decode_raw(b) == Ok::<RawRecord, StatusListError>(r),
    ensures
        r.wf(),
        r.fits(),
        r.encode() == b,
{
    lemma_body_one_form(b, SIGNATURE_SSZ_LEN as int);
    assert(r.body() == body_of(b, SIGNATURE_SSZ_LEN as int));
}

/// Pairs of member index and signature, as they were collected.
pub open spec fn signer_pairs(pairs: Seq<(usize, XmssSignature)>) -> Seq<(int, Seq<u8>)> {
    pairs.map_values(|p: (usize, XmssSignature)| (p.0 as int, p.1@))
}

/// Raw evidence: signatures paired with a bitmap of anchor indices.
pub struct StatusList {
    alg: Algorithms,
    body: SignedBody,
}

impl View for StatusList {
    type V = RawRecord;

    closed spec fn view(&self) -> RawRecord {
        raw_record(self.alg, self.body@)
    }
}

fn signature_bytes(pairs: &[(usize, XmssSignature)]) -> (plain: Vec<(usize, Vec<u8>)>)
    ensures
        pair_views(plain@) == signer_pairs(pairs@),
        pairs_width(signer_pairs(pairs@), SIGNATURE_SSZ_LEN as int),
{
    let mut plain: Vec<(usize, Vec<u8>)> = Vec::new();
    let mut k: usize = 0;
    while k < pairs.len()
        invariant
            k <= pairs@.len(),
            plain@.len() == k,
            forall|j: int|
                0 <= j < k ==> (#[trigger] plain@[j]).0 == pairs@[j].0 && plain@[j].1@
                    == pairs@[j].1@ && plain@[j].1@.len() == SIGNATURE_SSZ_LEN,
        decreases pairs@.len() - k,
    {
        plain.push((pairs[k].0, to_vec(pairs[k].1.as_bytes())));
        k = k + 1;
    }
    assert(pair_views(plain@) =~= signer_pairs(pairs@));
    assert(pairs_width(signer_pairs(pairs@), SIGNATURE_SSZ_LEN as int)) by {
        let width = SIGNATURE_SSZ_LEN;
        assert forall|j: int| 0 <= j < pairs@.len() implies (#[trigger] signer_pairs(
            pairs@,
        )[j]).1.len() == width by {
            assert(plain@[j].1@.len() == width);
        }
    }
    plain
}

impl StatusList {
    /// The fields have their widths and the bitmap names as many signers as there
    /// are signatures.
    #[verifier::type_invariant]
    closed spec fn inv(self) -> bool {
        self@.wf()
    }

    /// Builds a canonical record from `(member index, signature)` pairs in any
    /// order; a repeated or out-of-range index is refused.
    pub fn new(
        alg: Algorithms,
        status_list: Vec<[u8; 32]>,
        version: u32,
        n_members: usize,
        signatures: Vec<(usize, XmssSignature)>,
    ) -> (r: Result<StatusList, StatusListError>)
        ensures
            ({
                let pairs = signer_pairs(signatures@);
                match r {
                    Ok(record) => {
                        &&& distinct_indices(pairs)
                        &&& indices_below(pairs, n_members as int)
                        &&& n_members <= MAX_BITS
                        &&& record@ == raw_record(
                            alg,
                            assembled(views(status_list@), version, pairs, n_members as int),
                        )
                        &&& record@.wf()
                    },
                    Err(StatusListError::DuplicateSigner) => !distinct_indices(pairs),
                    Err(StatusListError::SignerOutside { index, members }) => {
                        &&& distinct_indices(pairs)
                        &&& members == n_members <= index
                        &&& named(pairs, index as int)
                        &&& indices_below(pairs, index + 1)
                    },
                    Err(StatusListError::CommitteeTooLarge { members }) => {
                        &&& distinct_indices(pairs)
                        &&& indices_below(pairs, n_members as int)
                        &&& members == n_members > MAX_BITS
                    },
                    Err(_) => false,
                }
            }),
    {
        let plain = signature_bytes(signatures.as_slice());
        let ghost pairs = signer_pairs(signatures@);
        match SignedBody::assemble(status_list, version, n_members, plain) {
            Ok(body) => Ok(StatusList { alg, body }),
            Err(AssembleError::DuplicateSigner) => Err(StatusListError::DuplicateSigner),
            Err(AssembleError::SignerOutside { index }) => {
                Err(StatusListError::SignerOutside { index, members: n_members })
            },
            Err(AssembleError::CommitteeTooLarge) => {
                Err(StatusListError::CommitteeTooLarge { members: n_members })
            },
        }
    }

    pub fn alg(&self) -> (alg: Algorithms)
        ensures
            alg == self@.alg,
    {
        self.alg
    }

    pub fn version(&self) -> (version: u32)
        ensures
            version == self@.version,
    {
        self.body.version()
    }

    pub fn list(&self) -> (list: &[[u8; 32]])
        ensures
            views(list@) == self@.list,
    {
        self.body.list()
    }

    pub fn list_cloned(&self) -> (list: Vec<[u8; 32]>)
        ensures
            views(list@) == self@.list,
    {
        copy_entries(self.body.list())
    }

    /// How many members the bitmap is sized for: the committee this record
    /// claims to target.
    pub fn signer_slots(&self) -> (n: usize)
        ensures
            n == self@.bits.len(),
            n <= MAX_BITS,
    {
        self.body.signer_slots()
    }

    /// How many members signed.
    pub fn signer_count(&self) -> (n: usize)
        ensures
            n == count_set(self@.bits),
    {
        self.body.signer_count()
    }

    /// The signing members' indices, ascending: the order of the signatures.
    pub fn signer_indices(&self) -> (indices: Vec<usize>)
        ensures
            as_ints(indices@) == set_indices(self@.bits),
    {
        self.body.signer_indices()
    }

    /// The signatures, in the order of their signers.
    pub fn signatures(&self) -> (signatures: Vec<XmssSignature>)
        ensures
            signature_views(signatures@) == self@.signatures,
            self@.wf(),
    {
        proof {
            use_type_invariant(self);
        }
        let plain = self.body.signatures();
        let mut signatures: Vec<XmssSignature> = Vec::new();
        let mut k: usize = 0;
        while k < plain.len()
            invariant
                k <= plain@.len(),
                vec_views(plain@) == self@.signatures,
                all_width(self@.signatures, SIGNATURE_SSZ_LEN as int),
                signatures@.len() == k,
                forall|j: int|
                    0 <= j < k ==> (#[trigger] signatures@[j])@ == plain@[j]@,
            decreases plain@.len() - k,
        {
            assert(self@.signatures[k as int] == plain@[k as int]@);
            match XmssSignature::from_bytes(plain[k].as_slice()) {
                Some(signature) => {
                    signatures.push(signature);
                },
                None => {
                    assert(false);
                },
            }
            k = k + 1;
        }
        assert(signature_views(signatures@) =~= self@.signatures);
        signatures
    }

    /// Canonical wire encoding of the published object. The container counts in
    /// 32 bits, which bounds the list.
    pub fn to_bytes(&self) -> (bytes: Vec<u8>)
        requires
            self@.fits(),
        ensures
            bytes@ == self@.encode(),
    {
        assert(self@.body() == self.body@);
        self.body.to_bytes(algorithm_tag(self.alg))
    }

    /// Inverse of [`StatusList::to_bytes`]. A bitmap whose population does not
    /// match the number of signatures is refused.
    pub fn from_bytes(bytes: &[u8]) -> (r: Result<StatusList, StatusListError>)
        ensures
            match r {
                Ok(record) => decode_raw(bytes@) == Ok::<RawRecord, StatusListError>(record@)
                    && record@.wf(),
                Err(e) => decode_raw(bytes@) == Err::<RawRecord, StatusListError>(e),
            },
    {
        let body: SignedBody = match SignedBody::from_bytes(bytes, SIGNATURE_SSZ_LEN, true) {
            Ok(body) => body,
            Err(e) => {
                return Err(StatusListError::RawNotSsz(e));
            },
        };
        let alg: Algorithms = match algorithm_from_tag(bytes[0]) {
            Ok(alg) => alg,
            Err(e) => {
                return Err(e);
            },
        };
        proof {
            lemma_body_one_form(bytes@, SIGNATURE_SSZ_LEN as int);
        }
        let counted: usize = body.signer_count();
        let present: usize = body.signatures().len();
        assert(present == body@.signatures.len());
        if counted != present {
            return Err(StatusListError::Population { named: counted, present });
        }
        let record = StatusList { alg, body };
        assert(record@.body() == body@);
        Ok(record)
    }
}

// ---- in words ----------------------------------------------------------------

impl StatusListError {
    /// The refusal in words.
    pub open spec fn message(self) -> Seq<char> {
        match self {
            StatusListError::RawNotSsz(e) => "raw status list is not valid SSZ: "@ + e.message(),
            StatusListError::SnarkNotSsz(e) => "SNARK status list is not valid SSZ: "@
                + e.message(),
            StatusListError::RetiredTag => "status-list algorithm tag 0 is retired"@,
            StatusListError::UnknownTag(tag) => "unknown status-list algorithm tag "@ + decimal(
                tag as nat,
            ),
            StatusListError::Population { named, present } => "bitmap names "@ + decimal(
                named as nat,
            ) + " signers but "@ + decimal(present as nat) + " signatures are present"@,
            StatusListError::DuplicateSigner => "duplicate signer index"@,
            StatusListError::SignerOutside { index, members } => "signer index "@ + decimal(
                index as nat,
            ) + " outside a committee of "@ + decimal(members as nat),
            StatusListError::CommitteeTooLarge { members } => "committee of "@ + decimal(
                members as nat,
            ) + " exceeds the ceiling of 2048"@,
        }
    }

    /// The refusal in words.
    pub fn text(&self) -> (text: String)
        ensures
            text@ == self.message(),
    {
        match self {
            StatusListError::RawNotSsz(e) => {
                joined("raw status list is not valid SSZ: ", e.text().as_str())
            },
            StatusListError::SnarkNotSsz(e) => {
                joined("SNARK status list is not valid SSZ: ", e.text().as_str())
            },
            StatusListError::RetiredTag => "status-list algorithm tag 0 is retired".to_owned(),
            StatusListError::UnknownTag(tag) => {
                let mut text: String = "unknown status-list algorithm tag ".to_owned();
                push_decimal(&mut text, *tag as u64);
                text
            },
            StatusListError::Population { named, present } => {
                let mut text: String = "bitmap names ".to_owned();
                push_decimal(&mut text, *named as u64);
                text.append(" signers but ");
                push_decimal(&mut text, *present as u64);
                text.append(" signatures are present");
                text
            },
            StatusListError::DuplicateSigner => "duplicate signer index".to_owned(),
            StatusListError::SignerOutside { index, members } => {
                let mut text: String = "signer index ".to_owned();
                push_decimal(&mut text, *index as u64);
                text.append(" outside a committee of ");
                push_decimal(&mut text, *members as u64);
                text
            },
            StatusListError::CommitteeTooLarge { members } => {
                let mut text: String = "committee of ".to_owned();
                push_decimal(&mut text, *members as u64);
                text.append(" exceeds the ceiling of 2048");
                text
            },
        }
    }
}

/// The name of an algorithm.
pub open spec fn algorithm_name(alg: Algorithms) -> Seq<char> {
    match alg {
        Algorithms::WotsXmss => "WOTS-XMSS-BLAKE2s"@,
    }
}

impl Algorithms {
    /// The name of the algorithm.
    pub fn name(&self) -> (name: String)
        ensures
            name@ == algorithm_name(*self),
    {
        match self {
            Algorithms::WotsXmss => "WOTS-XMSS-BLAKE2s".to_owned(),
        }
    }
}

/// One line for each of the first `n` entries.
pub open spec fn entry_lines(list: Seq<Seq<u8>>, n: int) -> Seq<char>
    decreases n,
{
    if n <= 0 {
        Seq::empty()
    } else {
        entry_lines(list, n - 1) + "      ["@ + decimal((n - 1) as nat) + "] 0x"@ + hex_text(
            list[n - 1],
        ) + "\n"@
    }
}

/// The header both records share: algorithm, version, then the entries.
pub open spec fn common_text(alg: Algorithms, version: u32, list: Seq<Seq<u8>>) -> Seq<char> {
    "  alg        : "@ + algorithm_name(alg) + "\n  version    : "@ + decimal(version as nat)
        + "\n  status_list: "@ + decimal(list.len()) + if list.len() == 1 {
        " entry\n"@
    } else {
        " entries\n"@
    } + entry_lines(list, list.len() as int)
}

fn push_common(text: &mut String, alg: Algorithms, version: u32, list: &[[u8; 32]])
    ensures
        final(text)@ == old(text)@ + common_text(alg, version, views(list@)),
{
    let ghost before = text@;
    text.append("  alg        : ");
    text.append(alg.name().as_str());
    text.append("\n  version    : ");
    push_decimal(text, version as u64);
    text.append("\n  status_list: ");
    push_decimal(text, list.len() as u64);
    if list.len() == 1 {
        text.append(" entry\n");
    } else {
        text.append(" entries\n");
    }
    let ghost head = text@;
    let mut i: usize = 0;
    assert(text@ =~= head + entry_lines(views(list@), 0));
    while i < list.len()
        invariant
            i <= list@.len(),
            text@ == head + entry_lines(views(list@), i as int),
        decreases list@.len() - i,
    {
        text.append("      [");
        push_decimal(text, i as u64);
        text.append("] 0x");
        push_hex(text, list[i].as_slice());
        text.append("\n");
        i = i + 1;
        assert(text@ =~= head + entry_lines(views(list@), i as int));
    }
    assert(text@ =~= before + common_text(alg, version, views(list@)));
}

/// The first `n` indices, separated by commas.
pub open spec fn index_text(indices: Seq<int>, n: int) -> Seq<char>
    decreases n,
{
    if n <= 0 {
        Seq::empty()
    } else if n == 1 {
        decimal(indices[0] as nat)
    } else {
        index_text(indices, n - 1) + ", "@ + decimal(indices[n - 1] as nat)
    }
}

impl SnarkStatusList {
    /// The record as it is shown to a reader.
    pub fn to_text(&self) -> (text: String)
        ensures
            text@ == "SnarkStatusList {\n"@ + common_text(
                self@.alg,
                self@.version,
                self@.list,
            ) + "  proof      : "@ + decimal(self@.proof.len()) + " bytes 0x"@ + hex_text(
                self@.proof,
            ) + "\n}"@,
    {
        let mut text: String = "SnarkStatusList {\n".to_owned();
        push_common(&mut text, self.alg, self.version, self.status_list.as_slice());
        text.append("  proof      : ");
        push_decimal(&mut text, self.zk_proof.len() as u64);
        text.append(" bytes 0x");
        push_hex(&mut text, self.zk_proof.as_slice());
        text.append("\n}");
        text
    }
}

impl StatusList {
    /// The record as it is shown to a reader.
    pub fn to_text(&self) -> (text: String)
        ensures
            text@ == "StatusList {\n"@ + common_text(self@.alg, self@.version, self@.list)
                + "  signers    : "@ + decimal(count_set(self@.bits)) + " of "@ + decimal(
                self@.bits.len(),
            ) + " members [\n      "@ + index_text(
                set_indices(self@.bits),
                set_indices(self@.bits).len() as int,
            ) + "\n  ]\n  signatures : "@ + decimal(self@.signatures.len()) + "\n}"@,
    {
        let mut text: String = "StatusList {\n".to_owned();
        push_common(&mut text, self.alg, self.version(), self.list());
        text.append("  signers    : ");
        push_decimal(&mut text, self.signer_count() as u64);
        text.append(" of ");
        push_decimal(&mut text, self.signer_slots() as u64);
        text.append(" members [\n      ");
        let indices = self.signer_indices();
        let ghost head = text@;
        let ghost ints = set_indices(self@.bits);
        let mut n: usize = 0;
        assert(text@ =~= head + index_text(ints, 0));
        while n < indices.len()
            invariant
                n <= indices@.len(),
                as_ints(indices@) == ints,
                text@ == head + index_text(ints, n as int),
            decreases indices@.len() - n,
        {
            if n > 0 {
                text.append(", ");
            }
            assert(ints[n as int] == indices@[n as int]);
            push_decimal(&mut text, indices[n] as u64);
            n = n + 1;
            assert(text@ =~= head + index_text(ints, n as int));
        }
        assert(ints.len() == indices@.len());
        text.append("\n  ]\n  signatures : ");
        let present: usize = self.body.signatures().len();
        assert(present == self@.signatures.len());
        push_decimal(&mut text, present as u64);
        text.append("\n}");
        text
    }
}

/// Whatever has the layout of a raw record but is none is refused for the first thing that
/// is wrong with it: a tag that is retired or unknown, or a bitmap that does not name as many
/// members as there are signatures.
pub proof fn law_an_encoded_fault_is_told(body: Body, tag: u8)
    requires
        body.wf(SIGNATURE_SSZ_LEN as int),
        body.fits(),
    ensures
        ({
            let r = decode_raw(body.encode(tag));
            let named = count_set(body.bits);
            &&& tag == 0 ==> r == Err::<RawRecord, StatusListError>(StatusListError::RetiredTag)
            &&& tag > 1 ==> r == Err::<RawRecord, StatusListError>(StatusListError::UnknownTag(tag))
            &&& tag == 1 && named != body.signatures.len() ==> r == Err::<
                RawRecord,
                StatusListError,
            >(
                StatusListError::Population {
                    named: named as usize,
                    present: body.signatures.len() as usize,
                },
            )
            &&& tag == 1 && named == body.signatures.len() ==> r is Ok && r->Ok_0.list == body.list
                && r->Ok_0.version == body.version && r->Ok_0.bits == body.bits
                && r->Ok_0.signatures == body.signatures
        }),
{
    lemma_body_round_trip(body, tag, SIGNATURE_SSZ_LEN as int);
}

/// A record with a proof is read under the one tag in use: every other tag is refused, the
/// retired one by name.
pub proof fn law_a_proof_record_is_read_under_its_tag(r: SnarkRecord, b: Seq<u8>)
    requires
        r.wf(),
        b.len() == r.encode().len(),
        b.subrange(1, b.len() as int) == r.encode().subrange(1, b.len() as int),
    ensures
        b[0] == 0 ==> decode_snark(b) == Err::<SnarkRecord, StatusListError>(
            StatusListError::RetiredTag,
        ),
        b[0] == 1 ==> decode_snark(b) == Ok::<SnarkRecord, StatusListError>(r),
        b[0] > 1 ==> decode_snark(b) == Err::<SnarkRecord, StatusListError>(
            StatusListError::UnknownTag(b[0]),
        ),
{
    lemma_snark_layout(r);
    law_snark_round_trip(r);
    let e = r.encode();
    let off = (13 + 32 * r.list.len()) as u32;
    lemma_le32(13);
    lemma_le32(off);
    assert(b.subrange(1, 5) =~= b.subrange(1, b.len() as int).subrange(0, 4));
    assert(e.subrange(1, 5) =~= e.subrange(1, e.len() as int).subrange(0, 4));
    assert(b.subrange(9, 13) =~= b.subrange(1, b.len() as int).subrange(8, 12));
    assert(e.subrange(9, 13) =~= e.subrange(1, e.len() as int).subrange(8, 12));
    if b[0] == 1 {
        assert(b =~= seq![b[0]] + b.subrange(1, b.len() as int));
        assert(e =~= seq![e[0]] + e.subrange(1, e.len() as int));
    }
}

} // verus!

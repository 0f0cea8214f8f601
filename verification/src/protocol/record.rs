//! What the two raw record forms share: a list at a version, a bitmap of signers
//! and one signature for each of them.
//!
//! The forms differ in their tag and in how long a signature is.
use crate::bitlist::{
    as_ints, bitlist_bytes, bits_count, bits_from_bytes, bits_indices, bits_len, bits_of, bits_set,
    bits_to_bytes, bits_with_capacity, count_set, lemma_bitlist_injective, lemma_set_indices,
    set_indices, set_indices_below, SignerBits, MAX_BITS,
};
use crate::bytes::{
    all_width, blocks_of, concat, from_le32, le32, lemma_blocks_of_concat, lemma_concat_blocks_of,
    lemma_concat_len, lemma_from_le32, lemma_le32, push_all, push_arrays, push_le32, push_vecs,
    read_le32, split_arrays, split_vecs, to_vec, vec_views, views,
};
use crate::framing::{
    bits_fault, blocks_refusal, check_blocks, check_fixed, check_offset, check_start,
    fault_of_bits, first_of, fixed_refusal, offset_at, offset_refusal, start_refusal, SszError,
};
use vstd::prelude::*;

verus! {

/// What a raw record says, apart from its tag.
#[verifier::ext_equal]
pub struct Body {
    pub list: Seq<Seq<u8>>,
    pub version: u32,
    /// One bit per member; its length is checked against the anchor.
    pub bits: Seq<bool>,
    /// One signature per set bit, in ascending index order.
    pub signatures: Seq<Seq<u8>>,
}

impl Body {
    /// Whether the fields have their widths.
    pub open spec fn wf(self, width: int) -> bool {
        &&& all_width(self.list, 32)
        &&& self.bits.len() <= MAX_BITS
        &&& all_width(self.signatures, width)
    }

    /// Whether the bitmap names as many signers as there are signatures.
    pub open spec fn balanced(self) -> bool {
        count_set(self.bits) == self.signatures.len()
    }

    /// Whether the offsets fit the container.
    pub open spec fn fits(self) -> bool {
        17 + 32 * self.list.len() + bitlist_bytes(self.bits).len() <= u32::MAX
    }

    /// The container: tag, offset of the list, version, offsets of the bitmap and of
    /// the signatures, and then the three in turn.
    pub open spec fn encode(self, tag: u8) -> Seq<u8> {
        let marks = bitlist_bytes(self.bits);
        seq![tag] + le32(17) + le32(self.version) + le32((17 + 32 * self.list.len()) as u32) + le32(
            (17 + 32 * self.list.len() + marks.len()) as u32,
        ) + concat(self.list) + marks + concat(self.signatures)
    }
}

/// Whether a byte string is the wire form of a bit list.
pub open spec fn is_bitlist(s: Seq<u8>) -> bool {
    exists|bits: Seq<bool>| bits.len() <= MAX_BITS && #[trigger] bitlist_bytes(bits) == s
}

/// The bit list that a byte string is the wire form of.
pub open spec fn bitlist_of(s: Seq<u8>) -> Seq<bool> {
    choose|bits: Seq<bool>| bits.len() <= MAX_BITS && #[trigger] bitlist_bytes(bits) == s
}

/// Whether the offsets in `b` cut it into the fields of the container, with
/// signatures of `width` bytes.
pub open spec fn framed(b: Seq<u8>, width: int) -> bool {
    &&& b.len() >= 17
    &&& from_le32(b.subrange(1, 5)) == 17
    &&& 17 <= from_le32(b.subrange(9, 13)) <= from_le32(b.subrange(13, 17)) <= b.len()
    &&& (from_le32(b.subrange(9, 13)) - 17) % 32 == 0
    &&& is_bitlist(
        b.subrange(from_le32(b.subrange(9, 13)) as int, from_le32(b.subrange(13, 17)) as int),
    )
    &&& (b.len() - from_le32(b.subrange(13, 17))) % width == 0
}

/// What is wrong with bytes that should be the wire form of a bit list.
pub open spec fn bits_refusal(s: Seq<u8>) -> Option<SszError> {
    if is_bitlist(s) {
        None
    } else {
        Some(bits_fault(s))
    }
}

/// What is wrong with bytes that should be a record's container. `foreign` says that
/// another format governs the signatures.
pub open spec fn record_refusal(b: Seq<u8>, width: int, foreign: bool) -> Option<SszError> {
    let (marks, evidence) = (offset_at(b, 9), offset_at(b, 13));
    first_of(
        head_refusal(b),
        first_of(
            blocks_refusal(marks - 17, 32, false),
            first_of(
                bits_refusal(b.subrange(marks, evidence)),
                blocks_refusal(b.len() - evidence, width, foreign),
            ),
        ),
    )
}

/// What is wrong with the fixed part of a record's container.
pub open spec fn head_refusal(b: Seq<u8>) -> Option<SszError> {
    first_of(
        fixed_refusal(b, 1),
        first_of(
            offset_refusal(b, 1, None),
            first_of(
                fixed_refusal(b, 9),
                first_of(
                    offset_refusal(b, 9, Some(1usize)),
                    first_of(offset_refusal(b, 13, Some(9usize)), start_refusal(b, 1, 17)),
                ),
            ),
        ),
    )
}

/// Bytes are refused exactly when they are not cut into the fields of a record.
pub proof fn law_a_refused_record_is_not_framed(b: Seq<u8>, width: int, foreign: bool)
    ensures
        record_refusal(b, width, foreign) is None <==> framed(b, width),
{
}

fn check_head(b: &[u8]) -> (r: Option<SszError>)
    ensures
        r == head_refusal(b@),
{
    if let Some(e) = check_fixed(b, 1) {
        return Some(e);
    }
    if let Some(e) = check_offset(b, 1, None) {
        return Some(e);
    }
    if let Some(e) = check_fixed(b, 9) {
        return Some(e);
    }
    if let Some(e) = check_offset(b, 9, Some(1)) {
        return Some(e);
    }
    if let Some(e) = check_offset(b, 13, Some(9)) {
        return Some(e);
    }
    check_start(b, 1, 17)
}

/// The fields that the offsets in `b` cut out.
pub open spec fn body_of(b: Seq<u8>, width: int) -> Body {
    let marks = from_le32(b.subrange(9, 13)) as int;
    let evidence = from_le32(b.subrange(13, 17)) as int;
    Body {
        list: blocks_of(b.subrange(17, marks), 32),
        version: from_le32(b.subrange(5, 9)),
        bits: bitlist_of(b.subrange(marks, evidence)),
        signatures: blocks_of(b.subrange(evidence, b.len() as int), width),
    }
}

proof fn lemma_layout(r: Body, tag: u8, width: int)
    requires
        r.wf(width),
        r.fits(),
        width > 0,
    ensures
        ({
            let b = r.encode(tag);
            let marks = 17 + 32 * r.list.len();
            let evidence = marks + bitlist_bytes(r.bits).len();
            &&& b.len() == evidence + concat(r.signatures).len()
            &&& b[0] == tag
            &&& b.subrange(1, 5) == le32(17)
            &&& b.subrange(5, 9) == le32(r.version)
            &&& b.subrange(9, 13) == le32(marks as u32)
            &&& b.subrange(13, 17) == le32(evidence as u32)
            &&& b.subrange(17, marks as int) == concat(r.list)
            &&& b.subrange(marks as int, evidence as int) == bitlist_bytes(r.bits)
            &&& b.subrange(evidence as int, b.len() as int) == concat(r.signatures)
        }),
{
    let b = r.encode(tag);
    let marks = 17 + 32 * r.list.len();
    let evidence = marks + bitlist_bytes(r.bits).len();
    lemma_concat_len(r.list, 32);
    let (f1, f2, f3, f4) = (le32(17), le32(r.version), le32(marks as u32), le32(evidence as u32));
    lemma_le32(17);
    lemma_le32(r.version);
    lemma_le32(marks as u32);
    lemma_le32(evidence as u32);
    let (p1, p2, p3) = (concat(r.list), bitlist_bytes(r.bits), concat(r.signatures));
    assert(b == seq![tag] + f1 + f2 + f3 + f4 + p1 + p2 + p3);
    assert(b.subrange(1, 5) =~= f1);
    assert(b.subrange(5, 9) =~= f2);
    assert(b.subrange(9, 13) =~= f3);
    assert(b.subrange(13, 17) =~= f4);
    assert(b.subrange(17, marks as int) =~= p1);
    assert(b.subrange(marks as int, evidence as int) =~= p2);
    assert(b.subrange(evidence as int, b.len() as int) =~= p3);
}

/// Cutting up an encoded record gives its fields back.
pub proof fn lemma_body_round_trip(r: Body, tag: u8, width: int)
    requires
        r.wf(width),
        r.fits(),
        width > 0,
    ensures
        framed(r.encode(tag), width),
        r.encode(tag)[0] == tag,
        body_of(r.encode(tag), width) == r,
{
    lemma_layout(r, tag, width);
    let marks = (17 + 32 * r.list.len()) as u32;
    let evidence = (17 + 32 * r.list.len() + bitlist_bytes(r.bits).len()) as u32;
    lemma_le32(17);
    lemma_le32(r.version);
    lemma_le32(marks);
    lemma_le32(evidence);
    lemma_blocks_of_concat(r.list, 32);
    lemma_blocks_of_concat(r.signatures, width);
    let s = bitlist_bytes(r.bits);
    assert(is_bitlist(s));
    lemma_bitlist_injective(bitlist_of(s), r.bits);
}

/// Whatever is cut into a record's fields is that record's own encoding.
pub proof fn lemma_body_one_form(b: Seq<u8>, width: int)
    requires
        framed(b, width),
        width > 0,
    ensures
        body_of(b, width).wf(width),
        body_of(b, width).fits(),
        body_of(b, width).encode(b[0]) == b,
{
    let r = body_of(b, width);
    let marks = from_le32(b.subrange(9, 13)) as int;
    let evidence = from_le32(b.subrange(13, 17)) as int;
    lemma_from_le32(b.subrange(1, 5));
    lemma_from_le32(b.subrange(5, 9));
    lemma_from_le32(b.subrange(9, 13));
    lemma_from_le32(b.subrange(13, 17));
    lemma_concat_blocks_of(b.subrange(17, marks), 32);
    lemma_concat_blocks_of(b.subrange(evidence, b.len() as int), width);
    let (f1, f2, f3, f4) = (le32(17), le32(r.version), le32(marks as u32), le32(evidence as u32));
    let (p1, p2, p3) = (concat(r.list), bitlist_bytes(r.bits), concat(r.signatures));
    assert(p2 == b.subrange(marks, evidence));
    assert(17 + 32 * r.list.len() == marks);
    assert(seq![b[0]] + f1 + f2 + f3 + f4 + p1 + p2 + p3 =~= b);
}

// ---- collected signatures ----------------------------------------------------

/// Pairs of member index and signature, as they were collected.
pub open spec fn pair_views(pairs: Seq<(usize, Vec<u8>)>) -> Seq<(int, Seq<u8>)> {
    pairs.map_values(|p: (usize, Vec<u8>)| (p.0 as int, p.1@))
}

/// Whether member `i` is among the pairs.
pub open spec fn named(pairs: Seq<(int, Seq<u8>)>, i: int) -> bool {
    exists|k: int| 0 <= k < pairs.len() && (#[trigger] pairs[k]).0 == i
}

/// Where the pairs name member `i`.
pub open spec fn place_of(pairs: Seq<(int, Seq<u8>)>, i: int) -> int {
    choose|k: int| 0 <= k < pairs.len() && (#[trigger] pairs[k]).0 == i
}

/// The signature collected from member `i`.
pub open spec fn signature_of(pairs: Seq<(int, Seq<u8>)>, i: int) -> Seq<u8> {
    pairs[place_of(pairs, i)].1
}

/// Whether no member is named twice.
pub open spec fn distinct_indices(pairs: Seq<(int, Seq<u8>)>) -> bool {
    forall|j: int, k: int|
        0 <= j < k < pairs.len() ==> (#[trigger] pairs[j]).0 != (#[trigger] pairs[k]).0
}

/// Whether every named member belongs to a committee of `n`.
pub open spec fn indices_below(pairs: Seq<(int, Seq<u8>)>, n: int) -> bool {
    forall|k: int| 0 <= k < pairs.len() ==> (#[trigger] pairs[k]).0 < n
}

/// Whether every signature has `width` bytes.
pub open spec fn pairs_width(pairs: Seq<(int, Seq<u8>)>, width: int) -> bool {
    forall|k: int| 0 <= k < pairs.len() ==> (#[trigger] pairs[k]).1.len() == width
}

/// One bit for each of `n` members, set for those that signed.
pub open spec fn evidence_bits(pairs: Seq<(int, Seq<u8>)>, n: int) -> Seq<bool> {
    Seq::new(n as nat, |i: int| named(pairs, i))
}

/// The signatures in ascending order of their signers.
pub open spec fn evidence_signatures(pairs: Seq<(int, Seq<u8>)>, n: int) -> Seq<Seq<u8>> {
    set_indices(evidence_bits(pairs, n)).map_values(|i: int| signature_of(pairs, i))
}

/// The record that collected signatures make.
pub open spec fn assembled(
    list: Seq<Seq<u8>>,
    version: u32,
    pairs: Seq<(int, Seq<u8>)>,
    n: int,
) -> Body {
    Body {
        list,
        version,
        bits: evidence_bits(pairs, n),
        signatures: evidence_signatures(pairs, n),
    }
}

/// Why collected signatures make no record.
#[derive(Clone, Copy, PartialEq, Eq, Structural, Debug)]
pub enum AssembleError {
    /// One member is named twice.
    DuplicateSigner,
    /// A member index is not below the committee size; the largest one is given.
    SignerOutside { index: usize },
    /// The committee is over the ceiling.
    CommitteeTooLarge,
}

/// Whether `e` is what is wrong with collected signatures, in the order in which
/// it is looked at.
pub open spec fn unassembled(pairs: Seq<(int, Seq<u8>)>, n: int, e: AssembleError) -> bool {
    match e {
        AssembleError::DuplicateSigner => !distinct_indices(pairs),
        AssembleError::SignerOutside { index } => {
            &&& distinct_indices(pairs)
            &&& n <= index
            &&& named(pairs, index as int)
            &&& indices_below(pairs, index + 1)
        },
        AssembleError::CommitteeTooLarge => {
            &&& distinct_indices(pairs)
            &&& indices_below(pairs, n)
            &&& n > MAX_BITS
        },
    }
}

/// A raw record without its tag.
pub struct SignedBody {
    list: Vec<[u8; 32]>,
    version: u32,
    signers: SignerBits,
    signatures: Vec<Vec<u8>>,
}

impl View for SignedBody {
    type V = Body;

    closed spec fn view(&self) -> Body {
        Body {
            list: views(self.list@),
            version: self.version,
            bits: bits_of(self.signers),
            signatures: vec_views(self.signatures@),
        }
    }
}

fn find_index(pairs: &[(usize, Vec<u8>)], i: usize, upto: usize) -> (found: Option<usize>)
    requires
        upto <= pairs@.len(),
    ensures
        match found {
            Some(k) => k < upto && pairs@[k as int].0 == i,
            None => forall|k: int| 0 <= k < upto ==> (#[trigger] pairs@[k]).0 != i,
        },
{
    let mut k: usize = 0;
    while k < upto
        invariant
            k <= upto <= pairs@.len(),
            forall|m: int| 0 <= m < k ==> (#[trigger] pairs@[m]).0 != i,
        decreases upto - k,
    {
        if pairs[k].0 == i {
            return Some(k);
        }
        k = k + 1;
    }
    None
}

fn largest_index(pairs: &[(usize, Vec<u8>)]) -> (r: Option<usize>)
    ensures
        match r {
            Some(m) => named(pair_views(pairs@), m as int) && indices_below(
                pair_views(pairs@),
                m + 1,
            ),
            None => pairs@.len() == 0,
        },
{
    if pairs.len() == 0 {
        return None;
    }
    let ghost view = pair_views(pairs@);
    let mut best: usize = pairs[0].0;
    let mut k: usize = 1;
    assert(view[0].0 == best);
    while k < pairs.len()
        invariant
            1 <= k <= pairs@.len(),
            view == pair_views(pairs@),
            named(view, best as int),
            forall|m: int| 0 <= m < k ==> (#[trigger] view[m]).0 <= best,
        decreases pairs@.len() - k,
    {
        assert(view[k as int].0 == pairs@[k as int].0);
        if pairs[k].0 > best {
            best = pairs[k].0;
        }
        k = k + 1;
    }
    Some(best)
}

fn has_duplicate(pairs: &[(usize, Vec<u8>)]) -> (r: bool)
    ensures
        r == !distinct_indices(pair_views(pairs@)),
{
    let ghost view = pair_views(pairs@);
    let mut j: usize = 0;
    while j < pairs.len()
        invariant
            j <= pairs@.len(),
            view == pair_views(pairs@),
            forall|a: int, b: int|
                0 <= a < b < j ==> (#[trigger] view[a]).0 != (#[trigger] view[b]).0,
        decreases pairs@.len() - j,
    {
        match find_index(pairs, pairs[j].0, j) {
            Some(k) => {
                assert(view[k as int].0 == view[j as int].0);
                return true;
            },
            None => {
                assert forall|a: int| 0 <= a < j implies (#[trigger] view[a]).0
                    != view[j as int].0 by {
                    assert(pairs@[a].0 != pairs@[j as int].0);
                }
            },
        }
        j = j + 1;
    }
    false
}

impl SignedBody {
    /// Builds a record from `(member index, signature)` pairs in any order; a
    /// repeated or out-of-range index is refused.
    pub fn assemble(
        list: Vec<[u8; 32]>,
        version: u32,
        n_members: usize,
        pairs: Vec<(usize, Vec<u8>)>,
    ) -> (r: Result<SignedBody, AssembleError>)
        ensures
            ({
                let view = pair_views(pairs@);
                match r {
                    Ok(record) => {
                        &&& distinct_indices(view)
                        &&& indices_below(view, n_members as int)
                        &&& n_members <= MAX_BITS
                        &&& record@ == assembled(views(list@), version, view, n_members as int)
                        &&& record@.balanced()
                        &&& forall|width: int| #[trigger]
                            pairs_width(view, width) ==> record@.wf(width)
                    },
                    Err(e) => unassembled(view, n_members as int, e),
                }
            }),
    {
        let ghost view = pair_views(pairs@);
        if has_duplicate(pairs.as_slice()) {
            return Err(AssembleError::DuplicateSigner);
        }
        match largest_index(pairs.as_slice()) {
            Some(index) => {
                if index >= n_members {
                    return Err(AssembleError::SignerOutside { index });
                }
            },
            None => {},
        }
        assert(indices_below(view, n_members as int));
        let ghost bits = evidence_bits(view, n_members as int);
        let mut signers: SignerBits = match bits_with_capacity(n_members) {
            Some(list) => list,
            None => {
                return Err(AssembleError::CommitteeTooLarge);
            },
        };
        let mut ordered: Vec<Vec<u8>> = Vec::new();
        let mut i: usize = 0;
        assert(bits_of(signers) =~= Seq::new(n_members as nat, |m: int| m < 0 && bits[m]));
        assert(vec_views(ordered@) =~= set_indices_below(bits, 0).map_values(
            |m: int| signature_of(view, m),
        ));
        while i < n_members
            invariant
                i <= n_members <= MAX_BITS,
                view == pair_views(pairs@),
                bits == evidence_bits(view, n_members as int),
                distinct_indices(view),
                bits_of(signers) == Seq::new(n_members as nat, |m: int| m < i && bits[m]),
                vec_views(ordered@) == set_indices_below(bits, i as int).map_values(
                    |m: int| signature_of(view, m),
                ),
                forall|width: int| #[trigger]
                    pairs_width(view, width) ==> all_width(vec_views(ordered@), width),
            decreases n_members - i,
        {
            let ghost before = ordered@;
            let ghost below = set_indices_below(bits, i as int);
            match find_index(pairs.as_slice(), i, pairs.len()) {
                Some(k) => {
                    proof {
                        assert(view[k as int].0 == i);
                        assert(named(view, i as int));
                        assert(bits[i as int]);
                        assert(place_of(view, i as int) == k);
                    }
                    bits_set(&mut signers, i, true);
                    let copy = to_vec(pairs[k].1.as_slice());
                    ordered.push(copy);
                    proof {
                        assert(view[k as int].1 == copy@);
                        assert(copy@ == signature_of(view, i as int));
                        assert(vec_views(ordered@) =~= vec_views(before).push(copy@));
                        assert(below.push(i as int).map_values(|m: int| signature_of(view, m))
                            =~= below.map_values(|m: int| signature_of(view, m)).push(
                            signature_of(view, i as int),
                        ));
                        assert forall|width: int| #[trigger]
                            pairs_width(view, width) implies all_width(vec_views(ordered@), width) by {
                            assert(view[k as int].1.len() == width);
                        }
                    }
                },
                None => {
                    proof {
                        if named(view, i as int) {
                            let c = place_of(view, i as int);
                            assert(pairs@[c].0 == i);
                        }
                        assert(!bits[i as int]);
                    }
                },
            }
            i = i + 1;
            assert(bits_of(signers) =~= Seq::new(n_members as nat, |m: int| m < i && bits[m]));
        }
        let record = SignedBody { list, version, signers, signatures: ordered };
        proof {
            assert(bits_of(signers) =~= bits);
            lemma_set_indices(bits);
            assert(vec_views(ordered@) =~= evidence_signatures(view, n_members as int));
        }
        Ok(record)
    }

    pub fn version(&self) -> (version: u32)
        ensures
            version == self@.version,
    {
        self.version
    }

    pub fn list(&self) -> (list: &[[u8; 32]])
        ensures
            views(list@) == self@.list,
    {
        self.list.as_slice()
    }

    /// How many members the bitmap is sized for.
    pub fn signer_slots(&self) -> (n: usize)
        ensures
            n == self@.bits.len(),
            n <= MAX_BITS,
    {
        bits_len(&self.signers)
    }

    /// How many members signed.
    pub fn signer_count(&self) -> (n: usize)
        ensures
            n == count_set(self@.bits),
    {
        bits_count(&self.signers)
    }

    /// The signing members' indices, ascending: the order of the signatures.
    pub fn signer_indices(&self) -> (indices: Vec<usize>)
        ensures
            as_ints(indices@) == set_indices(self@.bits),
    {
        bits_indices(&self.signers)
    }

    pub fn signatures(&self) -> (signatures: &[Vec<u8>])
        ensures
            vec_views(signatures@) == self@.signatures,
    {
        self.signatures.as_slice()
    }

    /// The container under `tag`. It counts in 32 bits, which bounds the list.
    pub fn to_bytes(&self, tag: u8) -> (bytes: Vec<u8>)
        requires
            self@.fits(),
        ensures
            bytes@ == self@.encode(tag),
    {
        let marks = bits_to_bytes(&self.signers);
        let mut bytes: Vec<u8> = Vec::new();
        bytes.push(tag);
        push_le32(&mut bytes, 17);
        push_le32(&mut bytes, self.version);
        let off: u32 = 17 + 32 * (self.list.len() as u32);
        push_le32(&mut bytes, off);
        push_le32(&mut bytes, off + marks.len() as u32);
        push_arrays(&mut bytes, self.list.as_slice());
        push_all(&mut bytes, marks.as_slice());
        push_vecs(&mut bytes, self.signatures.as_slice());
        assert(bytes@ =~= self@.encode(tag));
        bytes
    }

    /// Cuts `bytes` into the fields of a record with signatures of `width` bytes, or
    /// tells what is wrong with them. `foreign` says that another format governs the
    /// signatures.
    pub fn from_bytes(bytes: &[u8], width: usize, foreign: bool) -> (r: Result<
        SignedBody,
        SszError,
    >)
        requires
            width > 0,
        ensures
            match r {
                Ok(record) => framed(bytes@, width as int) && record@ == body_of(
                    bytes@,
                    width as int,
                ),
                Err(e) => !framed(bytes@, width as int) && record_refusal(
                    bytes@,
                    width as int,
                    foreign,
                ) == Some(e),
            },
    {
        proof {
            law_a_refused_record_is_not_framed(bytes@, width as int, foreign);
        }
        if let Some(e) = check_head(bytes) {
            return Err(e);
        }
        let len: usize = bytes.len();
        let marks: usize = read_le32(bytes, 9) as usize;
        let evidence: usize = read_le32(bytes, 13) as usize;
        if let Some(e) = check_blocks(marks - 17, 32, false) {
            return Err(e);
        }
        let ghost field = bytes@.subrange(marks as int, evidence as int);
        let signers: SignerBits = match bits_from_bytes(&bytes[marks..evidence]) {
            Some(list) => list,
            None => {
                return Err(fault_of_bits(&bytes[marks..evidence]));
            },
        };
        proof {
            assert(bitlist_bytes(bits_of(signers)) == field);
            assert(is_bitlist(field));
            lemma_bitlist_injective(bitlist_of(field), bits_of(signers));
        }
        if let Some(e) = check_blocks(len - evidence, width, foreign) {
            return Err(e);
        }
        let list = split_arrays(&bytes[17..marks]);
        let signatures = split_vecs(&bytes[evidence..len], width);
        let version: u32 = read_le32(bytes, 5);
        Ok(SignedBody { list, version, signers, signatures })
    }
}

// ---- laws --------------------------------------------------------------------

proof fn lemma_count_update(bits: Seq<bool>, i: int)
    requires
        0 <= i < bits.len(),
        !bits[i],
    ensures
        count_set(bits.update(i, true)) == count_set(bits) + 1,
    decreases bits.len(),
{
    let after = bits.update(i, true);
    if i == bits.len() - 1 {
        assert(after.drop_last() =~= bits.drop_last());
    } else {
        assert(after.drop_last() =~= bits.drop_last().update(i, true));
        lemma_count_update(bits.drop_last(), i);
    }
}

proof fn lemma_count_clear(n: nat)
    ensures
        count_set(Seq::new(n, |i: int| false)) == 0,
    decreases n,
{
    if n > 0 {
        assert(Seq::new(n, |i: int| false).drop_last() =~= Seq::new(
            (n - 1) as nat,
            |i: int| false,
        ));
        lemma_count_clear((n - 1) as nat);
    }
}

/// A record names exactly as many signers as signatures were collected.
pub proof fn law_every_signature_is_counted(pairs: Seq<(int, Seq<u8>)>, n: int)
    requires
        distinct_indices(pairs),
        indices_below(pairs, n),
        n >= 0,
        forall|k: int| 0 <= k < pairs.len() ==> 0 <= (#[trigger] pairs[k]).0,
    ensures
        count_set(evidence_bits(pairs, n)) == pairs.len(),
        evidence_signatures(pairs, n).len() == pairs.len(),
    decreases pairs.len(),
{
    lemma_set_indices(evidence_bits(pairs, n));
    if pairs.len() == 0 {
        assert(evidence_bits(pairs, n) =~= Seq::new(n as nat, |i: int| false));
        lemma_count_clear(n as nat);
    } else {
        let before = pairs.drop_last();
        let i = pairs.last().0;
        law_every_signature_is_counted(before, n);
        assert forall|m: int| 0 <= m < n implies #[trigger] named(pairs, m) == (named(before, m)
            || m == i) by {
            if named(before, m) {
                let k = choose|k: int| 0 <= k < before.len() && (#[trigger] before[k]).0 == m;
                assert(pairs[k].0 == m);
            }
            if m == i {
                assert(pairs[pairs.len() - 1].0 == m);
            }
            if named(pairs, m) && m != i {
                let k = choose|k: int| 0 <= k < pairs.len() && (#[trigger] pairs[k]).0 == m;
                assert(before[k].0 == m);
            }
        }
        if named(before, i) {
            let k = choose|k: int| 0 <= k < before.len() && (#[trigger] before[k]).0 == i;
            assert(pairs[k].0 == pairs[pairs.len() - 1].0);
        }
        assert(evidence_bits(pairs, n) =~= evidence_bits(before, n).update(i, true));
        lemma_count_update(evidence_bits(before, n), i);
    }
}

/// The order in which signatures were collected does not show in the record: any
/// rearrangement of the pairs gives the same bitmap and the same signatures.
pub proof fn law_collection_order_is_immaterial(
    a: Seq<(int, Seq<u8>)>,
    b: Seq<(int, Seq<u8>)>,
    n: int,
)
    requires
        distinct_indices(a),
        distinct_indices(b),
        forall|p: (int, Seq<u8>)| a.contains(p) <==> b.contains(p),
    ensures
        evidence_bits(a, n) == evidence_bits(b, n),
        evidence_signatures(a, n) == evidence_signatures(b, n),
{
    assert forall|i: int| #[trigger] named(a, i) implies named(b, i) && signature_of(a, i)
        == signature_of(b, i) by {
        lemma_same_signature(a, b, i);
    }
    assert forall|i: int| #[trigger] named(b, i) implies named(a, i) by {
        lemma_same_signature(b, a, i);
    }
    assert(evidence_bits(a, n) =~= evidence_bits(b, n));
    lemma_set_indices(evidence_bits(a, n));
    assert(evidence_signatures(a, n) =~= evidence_signatures(b, n));
}

proof fn lemma_same_signature(a: Seq<(int, Seq<u8>)>, b: Seq<(int, Seq<u8>)>, i: int)
    requires
        distinct_indices(b),
        forall|p: (int, Seq<u8>)| a.contains(p) ==> b.contains(p),
        named(a, i),
    ensures
        named(b, i),
        signature_of(a, i) == signature_of(b, i),
{
    let j = place_of(a, i);
    assert(a.contains(a[j]));
    let k = choose|k: int| 0 <= k < b.len() && b[k] == a[j];
    assert(b[k].0 == i);
    let c = place_of(b, i);
    assert(0 <= c < b.len() && b[c].0 == i);
    assert(c == k);
}

/// Every signer a record names is a member of the committee it targets, and no
/// member is named twice.
pub proof fn law_signers_are_distinct_members(r: Body)
    requires
        r.balanced(),
    ensures
        set_indices(r.bits).len() == r.signatures.len(),
        forall|k: int|
            0 <= k < set_indices(r.bits).len() ==> 0 <= (#[trigger] set_indices(r.bits)[k])
                < r.bits.len(),
        forall|j: int, k: int|
            0 <= j < k < set_indices(r.bits).len() ==> (#[trigger] set_indices(r.bits)[j]) != (
            #[trigger] set_indices(r.bits)[k]),
{
    lemma_set_indices(r.bits);
}

// ---- taking evidence apart ---------------------------------------------------

/// The signatures of a record, each with the index of its signer.
pub open spec fn evidence_of(r: Body) -> Seq<(int, Seq<u8>)> {
    Seq::new(r.signatures.len(), |k: int| (set_indices(r.bits)[k], r.signatures[k]))
}

/// The evidence of a record names distinct members of the committee it is for.
pub proof fn lemma_evidence_of(r: Body)
    requires
        r.balanced(),
    ensures
        evidence_of(r).len() == r.signatures.len(),
        distinct_indices(evidence_of(r)),
        indices_below(evidence_of(r), r.bits.len() as int),
        forall|k: int| 0 <= k < evidence_of(r).len() ==> 0 <= (#[trigger] evidence_of(r)[k]).0,
{
    lemma_set_indices(r.bits);
    let (pairs, s) = (evidence_of(r), set_indices(r.bits));
    assert forall|j: int, k: int| 0 <= j < k < pairs.len() implies (#[trigger] pairs[j]).0 != (
    #[trigger] pairs[k]).0 by {
        assert(s[j] < s[k]);
    }
    assert forall|k: int| 0 <= k < pairs.len() implies (#[trigger] pairs[k]).0 < r.bits.len() by {
        assert(s[k] < r.bits.len());
    }
    assert forall|k: int| 0 <= k < pairs.len() implies 0 <= (#[trigger] pairs[k]).0 by {
        assert(0 <= s[k]);
    }
}

/// Putting a record's evidence together again, under whatever list and version, gives
/// the same bitmap and the same signatures.
pub proof fn law_evidence_is_put_together_again(r: Body, list: Seq<Seq<u8>>, version: u32)
    requires
        r.balanced(),
    ensures
        assembled(list, version, evidence_of(r), r.bits.len() as int) == (Body {
            list,
            version,
            ..r
        }),
{
    lemma_set_indices(r.bits);
    let (pairs, s, n) = (evidence_of(r), set_indices(r.bits), r.bits.len() as int);
    lemma_evidence_of(r);
    let bits = evidence_bits(pairs, n);
    assert forall|i: int| 0 <= i < n implies #[trigger] bits[i] == r.bits[i] by {
        if r.bits[i] {
            assert(s.contains(i));
            let k = choose|k: int| 0 <= k < s.len() && s[k] == i;
            assert(pairs[k].0 == i);
            assert(named(pairs, i));
        }
        if named(pairs, i) {
            let k = choose|k: int| 0 <= k < pairs.len() && (#[trigger] pairs[k]).0 == i;
            assert(r.bits[s[k]]);
        }
    }
    assert(bits =~= r.bits);
    let signatures = evidence_signatures(pairs, n);
    assert forall|k: int| 0 <= k < signatures.len() implies #[trigger] signatures[k]
        == r.signatures[k] by {
        assert(pairs[k].0 == s[k]);
        assert(named(pairs, s[k]));
        let p = place_of(pairs, s[k]);
        assert(pairs[p].0 == s[k]);
        assert(p == k) by {
            if p < k {
                assert(pairs[p].0 != pairs[k].0);
            } else if k < p {
                assert(pairs[k].0 != pairs[p].0);
            }
        }
    }
    assert(signatures =~= r.signatures);
}

} // verus!

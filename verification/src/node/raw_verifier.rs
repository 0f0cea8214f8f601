//! A relying party on the raw path: it holds the anchor and answers the two
//! questions a verifier can ask without a circuit.
//!
//! `verify` asks whether one signature is from some member. `verify_status_list`
//! asks the question that authorizes an update: did at least `t` distinct members
//! sign this list at this version. The check of a single signature is handed in
//! by the caller; what is checked, and what follows, is decided here.
use crate::bitlist::{
    as_ints, count_set, law_a_set_bit_has_its_rank, lemma_set_indices, set_indices,
};
use crate::bytes::all_width;
use crate::protocol::committee::{Anchor, Committee};
use crate::protocol::record::{
    assembled, distinct_indices, evidence_bits, evidence_signatures, indices_below,
    law_every_signature_is_counted, named, place_of,
};
use crate::protocol::status_list::{
    law_message_preimage_is_unambiguous, message_preimage, raw_record, Algorithms, RawRecord,
    StatusList,
};
use crate::protocol::xmss::{key_views, signature_views, XmssPublicKey, XmssSignature};
use vstd::prelude::*;

verus! {

/// Why one signature does not count.
#[derive(Clone, Copy, PartialEq, Eq, Structural, Debug)]
pub enum VerifierError {
    SignatureVerificationError,
    NoCommittee,
    NotAMemberOfCommittee,
}

/// What it takes to check one signature: whose, at which slot, over what.
#[verifier::ext_equal]
pub struct CheckView {
    pub key: Seq<u8>,
    pub slot: u32,
    pub message: Seq<u8>,
    pub signature: Seq<u8>,
}

/// One signature to be checked.
#[derive(Debug)]
pub struct SignatureCheck {
    pub key: XmssPublicKey,
    pub slot: u32,
    pub message: [u8; 32],
    pub signature: XmssSignature,
}

impl View for SignatureCheck {
    type V = CheckView;

    open spec fn view(&self) -> CheckView {
        CheckView {
            key: self.key@,
            slot: self.slot,
            message: self.message@,
            signature: self.signature@,
        }
    }
}

/// Whether `verify` was asked about a check and answered `verdict`.
pub open spec fn answered<V: Fn(&SignatureCheck) -> bool>(
    verify: V,
    check: CheckView,
    verdict: bool,
) -> bool {
    exists|c: &SignatureCheck| c@ == check && #[trigger] call_ensures(verify, (c,), verdict)
}

/// Whether a record reaches quorum as far as it can be told without looking at a
/// signature. All of it carries weight: a threshold of zero authorizes nothing,
/// the bitmap is for exactly this committee, at least `t` members are named, there
/// is one signature for each of them, and the version has a slot.
pub open spec fn quorum_shape(anchor: Anchor, r: RawRecord) -> bool {
    &&& anchor.t != 0
    &&& r.bits.len() == anchor.members.len()
    &&& count_set(r.bits) >= anchor.t
    &&& count_set(r.bits) == r.signatures.len()
    &&& anchor.slot(r.version) is Some
}

/// What has to hold of the `k`-th signature: it is by the member its bit names, at
/// the slot of the version, over the message of this list and version.
pub open spec fn check_of(anchor: Anchor, r: RawRecord, k: int) -> CheckView {
    CheckView {
        key: anchor.members[set_indices(r.bits)[k]],
        slot: anchor.slot(r.version)->0,
        message: anchor.message(r.alg, r.list, r.version),
        signature: r.signatures[k],
    }
}

/// Whether a record is authorized, given what each signature's check came to.
pub open spec fn authorized(anchor: Anchor, r: RawRecord, verdicts: Seq<bool>) -> bool {
    &&& quorum_shape(anchor, r)
    &&& verdicts.len() == r.signatures.len()
    &&& forall|k: int| 0 <= k < verdicts.len() ==> #[trigger] verdicts[k]
}

/// Whether `verify` confirmed every signature of a record that has the shape of a
/// quorum.
pub open spec fn confirmed<V: Fn(&SignatureCheck) -> bool>(
    anchor: Anchor,
    r: RawRecord,
    verify: V,
) -> bool {
    &&& quorum_shape(anchor, r)
    &&& forall|k: int|
        0 <= k < r.signatures.len() ==> answered(verify, #[trigger] check_of(anchor, r, k), true)
}

/// Whether a record lacks the shape of a quorum, or `verify` refuted one of its
/// signatures.
pub open spec fn refuted<V: Fn(&SignatureCheck) -> bool>(
    anchor: Anchor,
    r: RawRecord,
    verify: V,
) -> bool {
    quorum_shape(anchor, r) ==> exists|k: int|
        0 <= k < r.signatures.len() && answered(verify, #[trigger] check_of(anchor, r, k), false)
}

/// A node that verifies against one anchor.
#[derive(Debug)]
pub struct VerifierNode {
    committee: Committee,
}

impl View for VerifierNode {
    type V = Anchor;

    closed spec fn view(&self) -> Anchor {
        self.committee@
    }
}

impl VerifierNode {
    pub fn new(committee: Committee) -> (node: VerifierNode)
        ensures
            node@ == committee@,
    {
        VerifierNode { committee }
    }

    pub fn get_committee(&self) -> (committee: &Committee)
        ensures
            committee@ == self@,
    {
        &self.committee
    }

    /// One signature, against one claimed member. A stranger holding a perfectly
    /// valid signature is refused for membership, not for cryptography.
    pub fn verify<V: Fn(&SignatureCheck) -> bool>(
        &self,
        pub_key: &XmssPublicKey,
        signature: &XmssSignature,
        message: &[u8; 32],
        slot: u32,
        xmss_verify: V,
    ) -> (r: Result<(), VerifierError>)
        requires
            forall|c: &SignatureCheck| call_requires(xmss_verify, (c,)),
        ensures
            ({
                let check = CheckView {
                    key: pub_key@,
                    slot,
                    message: message@,
                    signature: signature@,
                };
                match r {
                    Ok(_) => self@.members.contains(pub_key@) && answered(xmss_verify, check, true),
                    Err(VerifierError::NotAMemberOfCommittee) => !self@.members.contains(pub_key@),
                    Err(VerifierError::SignatureVerificationError) => self@.members.contains(
                        pub_key@,
                    ) && answered(xmss_verify, check, false),
                    Err(VerifierError::NoCommittee) => false,
                }
            }),
    {
        match self.committee.index_of(pub_key) {
            None => Err(VerifierError::NotAMemberOfCommittee),
            Some(i) => {
                assert(self@.members[i as int] == pub_key@);
                let check = SignatureCheck {
                    key: *pub_key,
                    slot,
                    message: *message,
                    signature: signature.clone(),
                };
                if xmss_verify(&check) {
                    Ok(())
                } else {
                    Err(VerifierError::SignatureVerificationError)
                }
            },
        }
    }

    /// The checks that decide about a record, in the order of its signatures, or
    /// nothing when it is refused without looking at one.
    pub fn checks(&self, record: &StatusList) -> (checks: Option<Vec<SignatureCheck>>)
        ensures
            match checks {
                None => !quorum_shape(self@, record@),
                Some(list) => {
                    &&& quorum_shape(self@, record@)
                    &&& list@.len() == record@.signatures.len()
                    &&& forall|k: int|
                        0 <= k < list@.len() ==> (#[trigger] list@[k])@ == check_of(
                            self@,
                            record@,
                            k,
                        )
                },
            },
    {
        let members = self.committee.members();
        if self.committee.threshold() == 0 {
            return None;
        }
        if record.signer_slots() != members.len() {
            return None;
        }
        let count: usize = record.signer_count();
        let signatures = record.signatures();
        assert(signatures@.len() == signature_views(signatures@).len());
        if count < self.committee.threshold() || count != signatures.len() {
            return None;
        }
        let slot: u32 = match self.committee.slot_for(record.version()) {
            Some(slot) => slot,
            None => {
                return None;
            },
        };
        let message = self.committee.message_for(record.alg(), record.list(), record.version());
        let indices = record.signer_indices();
        proof {
            lemma_set_indices(record@.bits);
            assert(as_ints(indices@).len() == indices@.len());
        }
        let mut list: Vec<SignatureCheck> = Vec::new();
        let mut k: usize = 0;
        while k < signatures.len()
            invariant
                k <= signatures@.len(),
                list@.len() == k,
                quorum_shape(self@, record@),
                self@ == self.committee@,
                key_views(members@) == self@.members,
                signature_views(signatures@) == record@.signatures,
                signatures@.len() == record@.signatures.len(),
                as_ints(indices@) == set_indices(record@.bits),
                indices@.len() == signatures@.len(),
                members@.len() == self@.members.len(),
                slot == self@.slot(record@.version)->0,
                message@ == self@.message(record@.alg, record@.list, record@.version),
                forall|j: int|
                    0 <= j < k ==> (#[trigger] list@[j])@ == check_of(self@, record@, j),
            decreases signatures@.len() - k,
        {
            proof {
                lemma_set_indices(record@.bits);
                assert(set_indices(record@.bits)[k as int] == indices@[k as int]);
            }
            let i: usize = indices[k];
            let check = SignatureCheck {
                key: members[i],
                slot,
                message,
                signature: signatures[k].clone(),
            };
            proof {
                assert(key_views(members@)[i as int] == members@[i as int]@);
                assert(signature_views(signatures@)[k as int] == signatures@[k as int]@);
                assert(check@ =~= check_of(self@, record@, k as int));
            }
            list.push(check);
            k = k + 1;
        }
        Some(list)
    }

    /// Whether a record is authorized, where `verdicts` is what came of
    /// [`VerifierNode::checks`], one by one.
    pub fn authorizes(&self, record: &StatusList, verdicts: &[bool]) -> (r: bool)
        ensures
            r == authorized(self@, record@, verdicts@),
    {
        match self.checks(record) {
            None => false,
            Some(list) => {
                if verdicts.len() != list.len() {
                    return false;
                }
                let mut k: usize = 0;
                while k < verdicts.len()
                    invariant
                        k <= verdicts@.len(),
                        forall|j: int| 0 <= j < k ==> #[trigger] verdicts@[j],
                    decreases verdicts@.len() - k,
                {
                    if !verdicts[k] {
                        return false;
                    }
                    k = k + 1;
                }
                true
            },
        }
    }

    /// Verifies a record against this node's anchor: the signatures it carries and
    /// the bitmap naming who produced them. Every answer is relative to the anchor:
    /// bitmap width, which key each bit names, the slot the version derives to and
    /// the threshold all come from it.
    pub fn verify_status_list<V: Fn(&SignatureCheck) -> bool>(
        &self,
        record: &StatusList,
        xmss_verify: V,
    ) -> (r: bool)
        requires
            forall|c: &SignatureCheck| call_requires(xmss_verify, (c,)),
        ensures
            r ==> confirmed(self@, record@, xmss_verify),
            !r ==> refuted(self@, record@, xmss_verify),
    {
        let list = match self.checks(record) {
            None => {
                return false;
            },
            Some(list) => list,
        };
        let mut k: usize = 0;
        while k < list.len()
            invariant
                k <= list@.len(),
                list@.len() == record@.signatures.len(),
                quorum_shape(self@, record@),
                forall|c: &SignatureCheck| call_requires(xmss_verify, (c,)),
                forall|j: int|
                    0 <= j < list@.len() ==> (#[trigger] list@[j])@ == check_of(self@, record@, j),
                forall|j: int|
                    0 <= j < k ==> answered(
                        xmss_verify,
                        #[trigger] check_of(self@, record@, j),
                        true,
                    ),
            decreases list@.len() - k,
        {
            let verdict: bool = xmss_verify(&list[k]);
            assert(list@[k as int]@ == check_of(self@, record@, k as int));
            assert(answered(xmss_verify, check_of(self@, record@, k as int), verdict));
            if !verdict {
                return false;
            }
            k = k + 1;
        }
        true
    }
}

/// A record that is authorized carries confirmed signatures by at least `t`
/// different members of this anchor, each with a key of its own.
pub proof fn law_authority_takes_t_distinct_members(
    anchor: Anchor,
    r: RawRecord,
    verdicts: Seq<bool>,
)
    requires
        anchor.wf(),
        authorized(anchor, r, verdicts),
    ensures
        verdicts.len() >= anchor.t >= 1,
        forall|k: int|
            0 <= k < verdicts.len() ==> anchor.members.contains(
                (#[trigger] check_of(anchor, r, k)).key,
            ) && verdicts[k],
        forall|j: int, k: int|
            0 <= j < k < verdicts.len() ==> (#[trigger] check_of(anchor, r, j)).key != (
            #[trigger] check_of(anchor, r, k)).key,
{
    lemma_set_indices(r.bits);
    let s = set_indices(r.bits);
    assert forall|j: int, k: int| 0 <= j < k < verdicts.len() implies (#[trigger] check_of(
        anchor,
        r,
        j,
    )).key != (#[trigger] check_of(anchor, r, k)).key by {
        assert(s[j] < s[k]);
        assert(anchor.members[s[j]] != anchor.members[s[k]]);
    }
    assert forall|k: int| 0 <= k < verdicts.len() implies anchor.members.contains(
        (#[trigger] check_of(anchor, r, k)).key,
    ) && verdicts[k] by {
        assert(0 <= s[k] < r.bits.len());
    }
}

/// An anchor with a threshold of zero authorizes nothing.
pub proof fn law_a_zero_threshold_authorizes_nothing(
    anchor: Anchor,
    r: RawRecord,
    verdicts: Seq<bool>,
)
    requires
        anchor.t == 0,
    ensures
        !authorized(anchor, r, verdicts),
{
}

/// A record built from at least `t` members' signatures, all of which check out,
/// is authorized.
pub proof fn law_an_honest_quorum_is_authorized(
    anchor: Anchor,
    r: RawRecord,
    pairs: Seq<(int, Seq<u8>)>,
    verdicts: Seq<bool>,
)
    requires
        anchor.wf(),
        distinct_indices(pairs),
        indices_below(pairs, anchor.members.len() as int),
        forall|k: int| 0 <= k < pairs.len() ==> 0 <= (#[trigger] pairs[k]).0,
        pairs.len() >= anchor.t,
        r.bits == evidence_bits(pairs, anchor.members.len() as int),
        r.signatures == evidence_signatures(pairs, anchor.members.len() as int),
        anchor.slot(r.version) is Some,
        verdicts.len() == pairs.len(),
        forall|k: int| 0 <= k < verdicts.len() ==> #[trigger] verdicts[k],
    ensures
        authorized(anchor, r, verdicts),
{
    law_every_signature_is_counted(pairs, anchor.members.len() as int);
}

/// What a signature of a record has to confirm names the list and the version: the
/// statements behind the checks of two records under one anchor are equal only
/// when list and version are.
pub proof fn law_evidence_is_bound_to_list_and_version(anchor: Anchor, a: RawRecord, b: RawRecord)
    requires
        all_width(a.list, 32),
        all_width(b.list, 32),
        message_preimage(anchor.domain(a.alg), a.list, a.version) == message_preimage(
            anchor.domain(b.alg),
            b.list,
            b.version,
        ),
    ensures
        a.list == b.list,
        a.version == b.version,
{
    law_message_preimage_is_unambiguous(
        anchor.domain(a.alg),
        a.list,
        a.version,
        anchor.domain(b.alg),
        b.list,
        b.version,
    );
}

/// Signatures that were confirmed one by one make a record that is confirmed as a whole:
/// it takes the keys of at least `t` different members, the slot that lies as many places
/// behind the first as the version says, and the message of the whole list at that
/// version, however long the list is. A verifier that refutes none of them does not refute
/// the record.
pub proof fn law_confirmed_signatures_make_a_confirmed_record<V: Fn(&SignatureCheck) -> bool>(
    anchor: Anchor,
    alg: Algorithms,
    list: Seq<Seq<u8>>,
    version: u32,
    pairs: Seq<(int, Seq<u8>)>,
    verify: V,
)
    requires
        1 <= anchor.t <= pairs.len(),
        anchor.genesis_slot + version <= u32::MAX,
        forall|j: int, k: int|
            0 <= j < k < pairs.len() ==> (#[trigger] pairs[j]).0 != (#[trigger] pairs[k]).0,
        forall|k: int|
            0 <= k < pairs.len() ==> 0 <= (#[trigger] pairs[k]).0 < anchor.members.len(),
        forall|k: int|
            0 <= k < pairs.len() ==> answered(
                verify,
                CheckView {
                    key: anchor.members[(#[trigger] pairs[k]).0],
                    slot: (anchor.genesis_slot + version) as u32,
                    message: anchor.message(alg, list, version),
                    signature: pairs[k].1,
                },
                true,
            ),
    ensures
        confirmed(
            anchor,
            raw_record(alg, assembled(list, version, pairs, anchor.members.len() as int)),
            verify,
        ),
        (forall|k: int|
            0 <= k < pairs.len() ==> !answered(
                verify,
                CheckView {
                    key: anchor.members[(#[trigger] pairs[k]).0],
                    slot: (anchor.genesis_slot + version) as u32,
                    message: anchor.message(alg, list, version),
                    signature: pairs[k].1,
                },
                false,
            )) ==> !refuted(
            anchor,
            raw_record(alg, assembled(list, version, pairs, anchor.members.len() as int)),
            verify,
        ),
{
    let n = anchor.members.len() as int;
    let r = raw_record(alg, assembled(list, version, pairs, n));
    law_every_signature_is_counted(pairs, n);
    lemma_set_indices(r.bits);
    assert forall|k: int| 0 <= k < r.signatures.len() implies exists|p: int|
        0 <= p < pairs.len() && #[trigger] check_of(anchor, r, k) == (CheckView {
            key: anchor.members[(#[trigger] pairs[p]).0],
            slot: (anchor.genesis_slot + version) as u32,
            message: anchor.message(alg, list, version),
            signature: pairs[p].1,
        }) by {
        let i = set_indices(r.bits)[k];
        assert(r.bits[i]);
        assert(named(pairs, i));
        let p = place_of(pairs, i);
        assert(pairs[p].0 == i);
        assert(r.signatures[k] == pairs[p].1);
    }
}

/// What confirms a record looks at every member it names: under that member's own key, at
/// the slot that lies as many places behind the first as the version says, and over the
/// message of the whole list. The bitmap is for this committee, and it names at least `t`.
pub proof fn law_a_confirmed_record_is_signed_by_all_it_names<V: Fn(&SignatureCheck) -> bool>(
    anchor: Anchor,
    r: RawRecord,
    verify: V,
    i: int,
)
    requires
        confirmed(anchor, r, verify),
        0 <= i < r.bits.len(),
        r.bits[i],
    ensures
        r.bits.len() == anchor.members.len(),
        1 <= anchor.t <= count_set(r.bits),
        count_set(r.bits) == r.signatures.len(),
        anchor.genesis_slot + r.version <= u32::MAX,
        answered(
            verify,
            CheckView {
                key: anchor.members[i],
                slot: (anchor.genesis_slot + r.version) as u32,
                message: anchor.message(r.alg, r.list, r.version),
                signature: r.signatures[count_set(r.bits.subrange(0, i)) as int],
            },
            true,
        ),
{
    law_a_set_bit_has_its_rank(r.bits, i);
    let k = count_set(r.bits.subrange(0, i)) as int;
    assert(answered(verify, check_of(anchor, r, k), true));
}

/// A record is refuted for a reason: it names another committee's size, too few members or
/// not one signature each, its version has no slot, or a member it names did not sign the
/// whole list at that version.
pub proof fn law_a_refuted_record_has_a_fault<V: Fn(&SignatureCheck) -> bool>(
    anchor: Anchor,
    r: RawRecord,
    verify: V,
)
    requires
        refuted(anchor, r, verify),
        r.bits.len() == anchor.members.len(),
        1 <= anchor.t <= count_set(r.bits),
        count_set(r.bits) == r.signatures.len(),
        anchor.genesis_slot + r.version <= u32::MAX,
    ensures
        exists|i: int|
            {
                &&& 0 <= i < r.bits.len()
                &&& #[trigger] r.bits[i]
                &&& answered(
                    verify,
                    CheckView {
                        key: anchor.members[i],
                        slot: (anchor.genesis_slot + r.version) as u32,
                        message: anchor.message(r.alg, r.list, r.version),
                        signature: r.signatures[count_set(r.bits.subrange(0, i)) as int],
                    },
                    false,
                )
            },
{
    let k = choose|k: int|
        0 <= k < r.signatures.len() && answered(verify, #[trigger] check_of(anchor, r, k), false);
    lemma_set_indices(r.bits);
    let i = set_indices(r.bits)[k];
    law_a_set_bit_has_its_rank(r.bits, i);
    let rank = count_set(r.bits.subrange(0, i)) as int;
    assert(rank == k) by {
        if rank < k {
            assert(set_indices(r.bits)[rank] < set_indices(r.bits)[k]);
        } else if k < rank {
            assert(set_indices(r.bits)[k] < set_indices(r.bits)[rank]);
        }
    }
    assert(r.bits[i]);
}

/// A record is authorized exactly when the bitmap is for this committee, it names at least
/// `t` members with one signature each, its version has a slot, and every check came out
/// well.
pub proof fn law_authority_is_a_full_set_of_confirmations(
    anchor: Anchor,
    r: RawRecord,
    verdicts: Seq<bool>,
)
    ensures
        authorized(anchor, r, verdicts) <==> {
            &&& r.bits.len() == anchor.members.len()
            &&& 1 <= anchor.t <= r.signatures.len()
            &&& r.signatures.len() == count_set(r.bits)
            &&& r.signatures.len() == verdicts.len()
            &&& anchor.genesis_slot + r.version <= u32::MAX
            &&& !verdicts.contains(false)
        },
{
    if authorized(anchor, r, verdicts) && verdicts.contains(false) {
        let k = choose|k: int| 0 <= k < verdicts.len() && verdicts[k] == false;
        assert(verdicts[k]);
    }
    if !verdicts.contains(false) {
        assert forall|k: int| 0 <= k < verdicts.len() implies #[trigger] verdicts[k] by {
            if !verdicts[k] {
                assert(verdicts.contains(false));
            }
        }
    }
}

/// The check of each signature is the one that its member had to pass: key by key, at the
/// slot of the version and over the whole list.
pub proof fn law_a_check_is_for_the_member_named(anchor: Anchor, r: RawRecord, i: int)
    requires
        0 <= i < r.bits.len(),
        r.bits[i],
        anchor.genesis_slot + r.version <= u32::MAX,
    ensures
        check_of(anchor, r, count_set(r.bits.subrange(0, i)) as int) == (CheckView {
            key: anchor.members[i],
            slot: (anchor.genesis_slot + r.version) as u32,
            message: anchor.message(r.alg, r.list, r.version),
            signature: r.signatures[count_set(r.bits.subrange(0, i)) as int],
        }),
{
    law_a_set_bit_has_its_rank(r.bits, i);
}

/// An answer belongs to the check that was asked: its key, its slot, its message and its
/// signature are the ones that were handed over.
pub proof fn law_an_answer_is_to_the_check_that_was_asked<V: Fn(&SignatureCheck) -> bool>(
    verify: V,
    check: CheckView,
    verdict: bool,
)
    ensures
        answered(verify, check, verdict) <==> exists|c: &SignatureCheck|
            {
                &&& #[trigger] call_ensures(verify, (c,), verdict)
                &&& c.key@ == check.key
                &&& c.slot == check.slot
                &&& c.message@ == check.message
                &&& c.signature@ == check.signature
            },
{
    if answered(verify, check, verdict) {
        let c = choose|c: &SignatureCheck|
            c@ == check && #[trigger] call_ensures(verify, (c,), verdict);
        assert(call_ensures(verify, (c,), verdict));
    }
    if exists|c: &SignatureCheck|
        {
            &&& #[trigger] call_ensures(verify, (c,), verdict)
            &&& c.key@ == check.key
            &&& c.slot == check.slot
            &&& c.message@ == check.message
            &&& c.signature@ == check.signature
        } {
        let c = choose|c: &SignatureCheck|
            {
                &&& #[trigger] call_ensures(verify, (c,), verdict)
                &&& c.key@ == check.key
                &&& c.slot == check.slot
                &&& c.message@ == check.message
                &&& c.signature@ == check.signature
            };
        assert(c@ =~= check);
    }
}

} // verus!

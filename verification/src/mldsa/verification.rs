//! Stateless authorization predicate for one raw ML-DSA record.
use crate::bitlist::{
    as_ints, count_set, law_a_set_bit_has_its_rank, lemma_set_indices, set_indices,
};
use crate::mldsa::committee::{Committee, MlDsaAnchor};
use crate::mldsa::signer::{
    ml_dsa_65_verifies, ml_dsa_signature_views, public_key_views, verify,
};
use crate::mldsa::status_list::MlDsaStatusList;
use crate::protocol::committee::distinct;
use crate::protocol::record::{
    assembled, distinct_indices, indices_below, law_every_signature_is_counted, named, place_of,
    signature_of, Body,
};
use vstd::prelude::*;

verus! {

/// Whether a record reaches quorum as far as it can be told without looking at a
/// signature: its bitmap is for exactly this committee, at least `t` members are
/// named, and there is one signature for each.
pub open spec fn quorum_shape(anchor: MlDsaAnchor, r: Body) -> bool {
    &&& r.bits.len() == anchor.members.len()
    &&& count_set(r.bits) >= anchor.threshold
    &&& r.balanced()
}

/// Whether the `k`-th signature verifies under the key its bit names, over the
/// statement of this list and version.
pub open spec fn signature_holds(anchor: MlDsaAnchor, r: Body, k: int) -> bool {
    ml_dsa_65_verifies(
        anchor.members[set_indices(r.bits)[k]],
        anchor.statement(r.list, r.version),
        Seq::empty(),
        r.signatures[k],
    )
}

/// Whether a record is authorized under an anchor.
pub open spec fn authorized(anchor: MlDsaAnchor, r: Body) -> bool {
    &&& quorum_shape(anchor, r)
    &&& forall|k: int| 0 <= k < r.signatures.len() ==> #[trigger] signature_holds(anchor, r, k)
}

/// Whether a record is authorized, given what each signature's check came to.
pub open spec fn authorized_given(anchor: MlDsaAnchor, r: Body, verdicts: Seq<bool>) -> bool {
    &&& quorum_shape(anchor, r)
    &&& verdicts.len() == r.signatures.len()
    &&& forall|k: int| 0 <= k < verdicts.len() ==> #[trigger] verdicts[k]
}

/// Verifies records against a locally trusted anchor. Freshness is a separate
/// decision: a version that was valid stays valid.
#[derive(Debug)]
pub struct RawVerifier {
    committee: Committee,
}

impl View for RawVerifier {
    type V = MlDsaAnchor;

    closed spec fn view(&self) -> MlDsaAnchor {
        self.committee@
    }
}

impl RawVerifier {
    pub fn new(committee: Committee) -> (v: RawVerifier)
        ensures
            v@ == committee@,
    {
        RawVerifier { committee }
    }

    pub fn committee(&self) -> (committee: &Committee)
        ensures
            committee@ == self@,
    {
        &self.committee
    }

    /// Whether a record has the shape of a quorum under this anchor.
    pub fn has_quorum_shape(&self, record: &MlDsaStatusList) -> (r: bool)
        ensures
            r == quorum_shape(self@, record@),
    {
        record.signer_slots() == self.committee.member_count() && record.signer_count()
            >= self.committee.threshold() && record.signer_count() == record.signature_count()
    }

    /// Whether a record is authorized, where `verdicts` says of each of its
    /// signatures in turn whether it verified.
    pub fn authorizes(&self, record: &MlDsaStatusList, verdicts: &[bool]) -> (r: bool)
        ensures
            r == authorized_given(self@, record@, verdicts@),
    {
        if !self.has_quorum_shape(record) || verdicts.len() != record.signer_count() {
            return false;
        }
        let mut k: usize = 0;
        while k < verdicts.len()
            invariant
                k <= verdicts@.len(),
                forall|j: int| 0 <= j < k ==> #[trigger] verdicts@[j],
            decreases verdicts@.len() - k,
        {
            if !verdicts[k] {
                return false;
            }
            k = k + 1;
        }
        true
    }

    /// Checks a decoded record: every set bit must name a member of the anchor whose
    /// signature verifies, and there must be enough of them.
    pub fn verify_status_list(&self, record: &MlDsaStatusList) -> (r: bool)
        ensures
            r == authorized(self@, record@),
    {
        if !self.has_quorum_shape(record) {
            return false;
        }
        let statement = self.committee.statement_for(record.list(), record.version());
        let members = self.committee.members();
        let indices = record.signer_indices();
        let signatures = record.signatures();
        proof {
            lemma_set_indices(record@.bits);
            assert(as_ints(indices@).len() == indices@.len());
            assert(signatures@.len() == record@.signatures.len());
        }
        let mut k: usize = 0;
        while k < signatures.len()
            invariant
                k <= signatures@.len(),
                self@ == self.committee@,
                quorum_shape(self@, record@),
                statement@ == self@.statement(record@.list, record@.version),
                public_key_views(members@) == self@.members,
                members@.len() == self@.members.len(),
                as_ints(indices@) == set_indices(record@.bits),
                indices@.len() == signatures@.len(),
                ml_dsa_signature_views(signatures@) == record@.signatures,
                signatures@.len() == record@.signatures.len(),
                forall|j: int|
                    0 <= j < k ==> #[trigger] signature_holds(self@, record@, j),
            decreases signatures@.len() - k,
        {
            proof {
                lemma_set_indices(record@.bits);
                assert(set_indices(record@.bits)[k as int] == indices@[k as int]);
            }
            let i: usize = indices[k];
            assert(public_key_views(members@)[i as int] == members@[i as int]@);
            assert(ml_dsa_signature_views(signatures@)[k as int] == signatures@[k as int]@);
            let valid: bool = verify(&members[i], statement.as_slice(), &signatures[k]);
            assert(valid == signature_holds(self@, record@, k as int));
            if !valid {
                return false;
            }
            k = k + 1;
        }
        true
    }
}

/// A record that is authorized carries verifying signatures by at least `t`
/// different members, each with a key of its own.
pub proof fn law_authority_takes_t_distinct_members(anchor: MlDsaAnchor, r: Body)
    requires
        distinct(anchor.members),
        authorized(anchor, r),
    ensures
        r.signatures.len() >= anchor.threshold,
        forall|j: int, k: int|
            0 <= j < k < r.signatures.len() ==> anchor.members[#[trigger] set_indices(r.bits)[j]]
                != anchor.members[#[trigger] set_indices(r.bits)[k]],
{
    lemma_set_indices(r.bits);
    let s = set_indices(r.bits);
    assert forall|j: int, k: int| 0 <= j < k < r.signatures.len() implies anchor.members[
    #[trigger] s[j]] != anchor.members[#[trigger] s[k]] by {
        assert(s[j] < s[k]);
        assert(anchor.members[s[j]] != anchor.members[s[k]]);
    }
}

/// A record built from at least `t` members' signatures, each verifying over the
/// statement of its list and version, is authorized.
pub proof fn law_an_honest_quorum_is_authorized(
    anchor: MlDsaAnchor,
    list: Seq<Seq<u8>>,
    version: u32,
    pairs: Seq<(int, Seq<u8>)>,
)
    requires
        distinct_indices(pairs),
        indices_below(pairs, anchor.members.len() as int),
        pairs.len() >= anchor.threshold,
        forall|k: int|
            0 <= k < pairs.len() ==> 0 <= (#[trigger] pairs[k]).0 && ml_dsa_65_verifies(
                anchor.members[pairs[k].0],
                anchor.statement(list, version),
                Seq::empty(),
                pairs[k].1,
            ),
    ensures
        authorized(anchor, assembled(list, version, pairs, anchor.members.len() as int)),
{
    let n = anchor.members.len() as int;
    let r = assembled(list, version, pairs, n);
    law_every_signature_is_counted(pairs, n);
    lemma_set_indices(r.bits);
    assert forall|k: int| 0 <= k < r.signatures.len() implies #[trigger] signature_holds(
        anchor,
        r,
        k,
    ) by {
        let i = set_indices(r.bits)[k];
        assert(named(pairs, i));
        let p = place_of(pairs, i);
        assert(pairs[p].0 == i);
        assert(r.signatures[k] == signature_of(pairs, i));
    }
}

/// Taking the verdicts as they are and looking at them one by one comes to the same.
pub proof fn law_verdicts_decide(anchor: MlDsaAnchor, r: Body, verdicts: Seq<bool>)
    requires
        verdicts.len() == r.signatures.len(),
        forall|k: int|
            0 <= k < verdicts.len() ==> #[trigger] verdicts[k] == signature_holds(anchor, r, k),
    ensures
        authorized_given(anchor, r, verdicts) == authorized(anchor, r),
{
    if authorized(anchor, r) {
        assert forall|k: int| 0 <= k < verdicts.len() implies #[trigger] verdicts[k] by {
            assert(signature_holds(anchor, r, k));
        }
    }
    if authorized_given(anchor, r, verdicts) {
        assert forall|k: int| 0 <= k < r.signatures.len() implies #[trigger] signature_holds(
            anchor,
            r,
            k,
        ) by {
            assert(verdicts[k]);
        }
    }
}

/// A record is authorized exactly when its bitmap has one bit for each member of the anchor,
/// at least the threshold of them are set, there is one signature for each, and for every
/// bit that is set the signature of its rank verifies under that member's key over the
/// statement of the record's whole list and version.
pub proof fn law_authority_is_a_quorum_of_verifying_members(anchor: MlDsaAnchor, r: Body)
    ensures
        authorized(anchor, r) <==> {
            &&& r.bits.len() == anchor.members.len()
            &&& count_set(r.bits) >= anchor.threshold
            &&& count_set(r.bits) == r.signatures.len()
            &&& forall|i: int|
                0 <= i < r.bits.len() && #[trigger] r.bits[i] ==> ml_dsa_65_verifies(
                    anchor.members[i],
                    anchor.statement(r.list, r.version),
                    Seq::empty(),
                    r.signatures[count_set(r.bits.subrange(0, i)) as int],
                )
        },
{
    lemma_set_indices(r.bits);
    let s = set_indices(r.bits);
    if authorized(anchor, r) {
        assert forall|i: int| 0 <= i < r.bits.len() && #[trigger] r.bits[i] implies ml_dsa_65_verifies(
            anchor.members[i],
            anchor.statement(r.list, r.version),
            Seq::empty(),
            r.signatures[count_set(r.bits.subrange(0, i)) as int],
        ) by {
            law_a_set_bit_has_its_rank(r.bits, i);
            let k = count_set(r.bits.subrange(0, i)) as int;
            assert(signature_holds(anchor, r, k));
        }
    }
    if r.bits.len() == anchor.members.len() && count_set(r.bits) >= anchor.threshold && count_set(
        r.bits,
    ) == r.signatures.len() && (forall|i: int|
        0 <= i < r.bits.len() && #[trigger] r.bits[i] ==> ml_dsa_65_verifies(
            anchor.members[i],
            anchor.statement(r.list, r.version),
            Seq::empty(),
            r.signatures[count_set(r.bits.subrange(0, i)) as int],
        )) {
        assert forall|k: int| 0 <= k < r.signatures.len() implies #[trigger] signature_holds(
            anchor,
            r,
            k,
        ) by {
            let i = s[k];
            assert(r.bits[i]);
            law_a_set_bit_has_its_rank(r.bits, i);
            let j = count_set(r.bits.subrange(0, i)) as int;
            assert(s[j] == s[k]);
            if j < k {
                assert(s[j] < s[k]);
            } else if k < j {
                assert(s[k] < s[j]);
            }
        }
    }
}

/// Given verdicts authorize a record exactly when it has the shape of a quorum under the
/// anchor and there is one verdict for each signature, all of them good.
pub proof fn law_one_bad_verdict_refuses(anchor: MlDsaAnchor, r: Body, verdicts: Seq<bool>)
    ensures
        authorized_given(anchor, r, verdicts) <==> {
            &&& r.bits.len() == anchor.members.len()
            &&& anchor.threshold <= count_set(r.bits)
            &&& count_set(r.bits) == r.signatures.len()
            &&& verdicts.len() == r.signatures.len()
            &&& !verdicts.contains(false)
        },
{
    if !verdicts.contains(false) {
        assert forall|k: int| 0 <= k < verdicts.len() implies #[trigger] verdicts[k] by {
            if !verdicts[k] {
                assert(verdicts.contains(false));
            }
        }
    }
}

} // verus!

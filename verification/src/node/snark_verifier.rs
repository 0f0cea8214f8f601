//! A relying party on the SNARK path: one aggregate stands for the signatures of
//! a quorum.
//!
//! Decoding an aggregate and checking its proof are handed in by the caller. What
//! the aggregate has to say for a record to be authorized is decided here.
use crate::bytes::bytes_eq;
use crate::protocol::committee::{Anchor, Committee};
use crate::protocol::status_list::{
    decode_snark, status_list_message, SnarkRecord, SnarkStatusList, StatusListError,
};
use crate::protocol::xmss::{key_views, XmssPublicKey};
use crate::state::freshness::is_newer;
use vstd::prelude::*;

verus! {

/// Signers that an aggregate claims for one slot and one message.
#[derive(Debug)]
pub struct SignerGroup {
    pub slot: u32,
    pub message: [u8; 32],
    pub keys: Vec<XmssPublicKey>,
}

/// What a signer group says.
#[verifier::ext_equal]
pub struct GroupView {
    pub slot: u32,
    pub message: Seq<u8>,
    pub keys: Seq<Seq<u8>>,
}

impl View for SignerGroup {
    type V = GroupView;

    open spec fn view(&self) -> GroupView {
        GroupView { slot: self.slot, message: self.message@, keys: key_views(self.keys@) }
    }
}

/// A decoded aggregate: what it claims, and the bytes it encodes to again.
#[derive(Debug)]
pub struct Aggregate {
    /// Claims of the other signature family that an aggregate can hold.
    pub foreign_signers: usize,
    pub groups: Vec<SignerGroup>,
    pub encoding: Vec<u8>,
}

/// What an aggregate says.
#[verifier::ext_equal]
pub struct AggregateView {
    pub foreign_signers: nat,
    pub groups: Seq<GroupView>,
    pub encoding: Seq<u8>,
}

impl View for Aggregate {
    type V = AggregateView;

    open spec fn view(&self) -> AggregateView {
        AggregateView {
            foreign_signers: self.foreign_signers as nat,
            groups: self.groups@.map_values(|g: SignerGroup| g@),
            encoding: self.encoding@,
        }
    }
}

/// Why the bytes in a record are no aggregate.
#[derive(Clone, Copy, PartialEq, Eq, Structural, Debug)]
pub enum ProofError {
    /// The bytes decode to no aggregate.
    NotDecodable,
    /// The bytes are not the aggregate's own encoding.
    NotCanonical,
}

/// Whether `decode` was asked about `bytes` and gave this aggregate, or none.
pub open spec fn decoded<D: Fn(&[u8]) -> Option<Aggregate>>(
    decode: D,
    bytes: Seq<u8>,
    aggregate: Option<AggregateView>,
) -> bool {
    exists|b: &[u8], a: Option<Aggregate>|
        b@ == bytes && aggregate_view(a) == aggregate && #[trigger] call_ensures(decode, (b,), a)
}

/// The view of an optional aggregate.
pub open spec fn aggregate_view(a: Option<Aggregate>) -> Option<AggregateView> {
    match a {
        Some(a) => Some(a@),
        None => None,
    }
}

/// Whether `check` was asked about the proof in `bytes` and answered `verdict`.
pub open spec fn checked<C: Fn(&[u8]) -> bool>(check: C, bytes: Seq<u8>, verdict: bool) -> bool {
    exists|b: &[u8]| b@ == bytes && #[trigger] call_ensures(check, (b,), verdict)
}

/// Whether what an aggregate claims authorizes a record under an anchor: exactly
/// one group and no other signature family, every signer a member, the message of
/// this committee, algorithm, list and version, the slot of the version, and at
/// least `t` signers.
pub open spec fn claims_quorum(anchor: Anchor, r: SnarkRecord, a: AggregateView) -> bool {
    &&& a.foreign_signers == 0
    &&& a.groups.len() == 1
    &&& forall|k: int|
        0 <= k < a.groups[0].keys.len() ==> anchor.members.contains(#[trigger] a.groups[0].keys[k])
    &&& a.groups[0].message == anchor.message(r.alg, r.list, r.version)
    &&& anchor.slot(r.version) == Some(a.groups[0].slot)
    &&& a.groups[0].keys.len() >= anchor.t
}

/// Whether a record was shown authentic: its aggregate decodes canonically, claims
/// a quorum, and its proof was confirmed.
pub open spec fn proven<D: Fn(&[u8]) -> Option<Aggregate>, C: Fn(&[u8]) -> bool>(
    anchor: Anchor,
    r: SnarkRecord,
    decode: D,
    check: C,
) -> bool {
    exists|a: AggregateView|
        #![trigger decoded(decode, r.proof, Some(a))]
        decoded(decode, r.proof, Some(a)) && a.encoding == r.proof && claims_quorum(anchor, r, a)
            && checked(check, r.proof, true)
}

/// Whether what a record's aggregate claims holds: it decodes, is in its own encoding,
/// and authorizes the record under the anchor.
pub open spec fn claims_hold<D: Fn(&[u8]) -> Option<Aggregate>>(
    anchor: Anchor,
    r: SnarkRecord,
    decode: D,
) -> bool {
    exists|a: AggregateView|
        #![trigger decoded(decode, r.proof, Some(a))]
        decoded(decode, r.proof, Some(a)) && a.encoding == r.proof && claims_quorum(anchor, r, a)
}

/// Whether a record was shown not to be authentic.
pub open spec fn disproven<D: Fn(&[u8]) -> Option<Aggregate>, C: Fn(&[u8]) -> bool>(
    anchor: Anchor,
    r: SnarkRecord,
    decode: D,
    check: C,
) -> bool {
    ||| decoded(decode, r.proof, None)
    ||| exists|a: AggregateView|
        #![trigger decoded(decode, r.proof, Some(a))]
        decoded(decode, r.proof, Some(a)) && (a.encoding != r.proof || !claims_quorum(anchor, r, a)
            || checked(check, r.proof, false))
}

/// The aggregate in a record, given what decoding its bytes came to. Bytes that are
/// not its own encoding are refused.
pub fn canonical_proof(record: &SnarkStatusList, found: Option<Aggregate>) -> (r: Result<
    Aggregate,
    ProofError,
>)
    ensures
        match r {
            Ok(a) => aggregate_view(found) == Some(a@) && a@.encoding == record@.proof,
            Err(ProofError::NotDecodable) => found is None,
            Err(ProofError::NotCanonical) => found is Some && found->0@.encoding != record@.proof,
        },
{
    match found {
        None => Err(ProofError::NotDecodable),
        Some(a) => if bytes_eq(a.encoding.as_slice(), record.proof_bytes()) {
            Ok(a)
        } else {
            Err(ProofError::NotCanonical)
        },
    }
}

/// A node that verifies aggregates against one anchor.
#[derive(Debug)]
pub struct PQSNARKVerifierModule {
    committee: Committee,
    status_list_last_version: u32,
}

impl View for PQSNARKVerifierModule {
    type V = Anchor;

    closed spec fn view(&self) -> Anchor {
        self.committee@
    }
}

/// Whether a candidate is looked at above `floor`: it decodes and declares a newer
/// version.
pub open spec fn eligible(bytes: Seq<u8>, floor: Option<u32>) -> bool {
    decode_snark(bytes) is Ok && is_newer(floor, decode_snark(bytes)->Ok_0.version)
}

/// Whether selection above `floor` may decode these bytes: they are the aggregate of a
/// candidate that it looks at.
pub open spec fn may_decode(candidates: Seq<Vec<u8>>, floor: Option<u32>, bytes: Seq<u8>) -> bool {
    exists|k: int|
        0 <= k < candidates.len() && eligible(#[trigger] candidates[k]@, floor) && decode_snark(
            candidates[k]@,
        )->Ok_0.proof == bytes
}

/// Whether selection above `floor` may check these bytes: they are the aggregate of a
/// candidate that it looks at, and what it claims holds.
pub open spec fn may_check<D: Fn(&[u8]) -> Option<Aggregate>>(
    anchor: Anchor,
    candidates: Seq<Vec<u8>>,
    floor: Option<u32>,
    decode: D,
    bytes: Seq<u8>,
) -> bool {
    exists|k: int|
        0 <= k < candidates.len() && eligible(#[trigger] candidates[k]@, floor) && decode_snark(
            candidates[k]@,
        )->Ok_0.proof == bytes && claims_hold(anchor, decode_snark(candidates[k]@)->Ok_0, decode)
}

impl PQSNARKVerifierModule {
    /// The version the module was built with.
    pub closed spec fn last_version(self) -> u32 {
        self.status_list_last_version
    }

    pub fn new(committee: Committee, status_list_last_version: u32) -> (m: PQSNARKVerifierModule)
        ensures
            m@ == committee@,
            m.last_version() == status_list_last_version,
    {
        PQSNARKVerifierModule { committee, status_list_last_version }
    }

    pub fn committee_as_ref(&self) -> (committee: &Committee)
        ensures
            committee@ == self@,
    {
        &self.committee
    }

    /// Whether what an aggregate claims authorizes a record under this anchor.
    pub fn accepts_claims(&self, record: &SnarkStatusList, aggregate: &Aggregate) -> (r: bool)
        ensures
            r == claims_quorum(self@, record@, aggregate@),
    {
        if aggregate.foreign_signers != 0 || aggregate.groups.len() != 1 {
            return false;
        }
        let group: &SignerGroup = &aggregate.groups[0];
        assert(aggregate@.groups[0] == group@);
        assert(group@.keys.len() == group.keys@.len());
        let mut k: usize = 0;
        while k < group.keys.len()
            invariant
                k <= group.keys@.len(),
                self@ == self.committee@,
                group@.keys == key_views(group.keys@),
                aggregate@.groups[0] == group@,
                group@.keys.len() == group.keys@.len(),
                forall|j: int|
                    0 <= j < k ==> self@.members.contains(#[trigger] group@.keys[j]),
            decreases group.keys@.len() - k,
        {
            assert(group@.keys[k as int] == group.keys@[k as int]@);
            match self.committee.index_of(&group.keys[k]) {
                None => {
                    assert(!self@.members.contains(aggregate@.groups[0].keys[k as int]));
                    return false;
                },
                Some(i) => {
                    assert(self@.members[i as int] == group@.keys[k as int]);
                },
            }
            k = k + 1;
        }
        let domain = self.committee.domain(record.alg());
        let message = status_list_message(&domain, record.list(), record.version());
        if !bytes_eq(message.as_slice(), group.message.as_slice()) {
            return false;
        }
        match self.committee.slot_for(record.version()) {
            None => {
                return false;
            },
            Some(slot) => {
                if slot != group.slot {
                    return false;
                }
            },
        }
        group.keys.len() >= self.committee.threshold()
    }

    /// Verifies membership, message binding, derived slot, threshold and the
    /// aggregate itself against this anchor. The proof is checked last, and only where
    /// what it claims holds: it is the most expensive thing a peer can make this node
    /// do.
    pub fn verify<D: Fn(&[u8]) -> Option<Aggregate>, C: Fn(&[u8]) -> bool>(
        &self,
        record: &SnarkStatusList,
        decode: &D,
        check: &C,
    ) -> (r: bool)
        requires
            forall|b: &[u8]|
                b@ == record@.proof ==> #[trigger] call_requires(*decode, (b,)),
            forall|b: &[u8]|
                b@ == record@.proof && claims_hold(self@, record@, *decode)
                    ==> #[trigger] call_requires(*check, (b,)),
        ensures
            r ==> proven(self@, record@, *decode, *check),
            !r ==> disproven(self@, record@, *decode, *check),
    {
        let found = decode(record.proof_bytes());
        let ghost seen = aggregate_view(found);
        assert(decoded(*decode, record@.proof, seen));
        match canonical_proof(record, found) {
            Err(_) => {
                assert(seen is Some ==> decoded(*decode, record@.proof, Some(seen->0)));
                false
            },
            Ok(aggregate) => {
                assert(decoded(*decode, record@.proof, Some(aggregate@)));
                if !self.accepts_claims(record, &aggregate) {
                    return false;
                }
                let verdict: bool = check(record.proof_bytes());
                assert(checked(*check, record@.proof, verdict));
                verdict
            },
        }
    }

    /// Whether the record is newer than the version this module was built with.
    /// Nothing here advances or survives a restart.
    pub fn is_newer(&self, record: &SnarkStatusList) -> (r: bool)
        ensures
            r == (record@.version > self.last_version()),
    {
        record.version() > self.status_list_last_version
    }

    /// The freshest candidate that verifies, out of what several peers returned.
    pub fn select_freshest<D: Fn(&[u8]) -> Option<Aggregate>, C: Fn(&[u8]) -> bool>(
        &self,
        candidates: &[Vec<u8>],
        decode: &D,
        check: &C,
    ) -> (r: Option<SnarkStatusList>)
        requires
            forall|b: &[u8]|
                may_decode(candidates@, None, b@) ==> #[trigger] call_requires(*decode, (b,)),
            forall|b: &[u8]|
                may_check(self@, candidates@, None, *decode, b@) ==> #[trigger] call_requires(
                    *check,
                    (b,),
                ),
        ensures
            selected(self@, candidates@, None, *decode, *check, record_view(r)),
    {
        self.select_freshest_above(candidates, None, decode, check)
    }

    /// [`PQSNARKVerifierModule::select_freshest`] for a caller that already trusts
    /// `floor`: candidates that declare no newer version are dropped before any
    /// proof is checked. The declared version orders the candidates and is trusted
    /// only after verification.
    pub fn select_freshest_above<D: Fn(&[u8]) -> Option<Aggregate>, C: Fn(&[u8]) -> bool>(
        &self,
        candidates: &[Vec<u8>],
        floor: Option<u32>,
        decode: &D,
        check: &C,
    ) -> (r: Option<SnarkStatusList>)
        requires
            forall|b: &[u8]|
                may_decode(candidates@, floor, b@) ==> #[trigger] call_requires(*decode, (b,)),
            forall|b: &[u8]|
                may_check(self@, candidates@, floor, *decode, b@) ==> #[trigger] call_requires(
                    *check,
                    (b,),
                ),
        ensures
            selected(self@, candidates@, floor, *decode, *check, record_view(r)),
    {
        let mut waiting: Vec<SnarkStatusList> = Vec::new();
        let ghost mut origin: Seq<int> = Seq::empty();
        let mut i: usize = 0;
        while i < candidates.len()
            invariant
                i <= candidates@.len(),
                queue(candidates@, floor, waiting@, origin),
                forall|k: int| 0 <= k < origin.len() ==> #[trigger] origin[k] < i,
                forall|k: int|
                    0 <= k < i && eligible(#[trigger] candidates@[k]@, floor) ==> origin.contains(
                        k,
                    ),
            decreases candidates@.len() - i,
        {
            match SnarkStatusList::from_bytes(candidates[i].as_slice()) {
                Ok(record) => {
                    let keep: bool = match floor {
                        None => true,
                        Some(f) => record.version() > f,
                    };
                    if keep {
                        let ghost before = origin;
                        waiting.push(record);
                        proof {
                            origin = origin.push(i as int);
                            assert(origin[before.len() as int] == i);
                            assert forall|k: int|
                                0 <= k < i && eligible(
                                    #[trigger] candidates@[k]@,
                                    floor,
                                ) implies origin.contains(k) by {
                                let p = choose|p: int| 0 <= p < before.len() && before[p] == k;
                                assert(origin[p] == k);
                            }
                        }
                    }
                },
                Err(_) => {},
            }
            i = i + 1;
        }
        while waiting.len() > 0
            invariant
                queue(candidates@, floor, waiting@, origin),
                forall|b: &[u8]|
                    may_decode(candidates@, floor, b@) ==> #[trigger] call_requires(*decode, (b,)),
                forall|b: &[u8]|
                    may_check(self@, candidates@, floor, *decode, b@)
                        ==> #[trigger] call_requires(*check, (b,)),
                forall|k: int|
                    0 <= k < candidates@.len() && eligible(#[trigger] candidates@[k]@, floor)
                        ==> origin.contains(k) || disproven(
                        self@,
                        decode_snark(candidates@[k]@)->Ok_0,
                        *decode,
                        *check,
                    ),
            decreases waiting@.len(),
        {
            let m: usize = newest(waiting.as_slice());
            let ghost from = origin[m as int];
            let ghost (before, place) = (waiting@, origin);
            let record = waiting.remove(m);
            proof {
                origin = origin.remove(m as int);
                assert(eligible(candidates@[from]@, floor));
                assert(record@ == decode_snark(candidates@[from]@)->Ok_0);
            }
            if self.verify(&record, decode, check) {
                proof {
                    assert(0 <= from < candidates@.len());
                    assert forall|k: int|
                        0 <= k < candidates@.len() && eligible(#[trigger] candidates@[k]@, floor)
                            && preferred(
                            candidates@,
                            k,
                            from,
                        ) implies disproven(
                        self@,
                        decode_snark(candidates@[k]@)->Ok_0,
                        *decode,
                        *check,
                    ) by {
                        if place.contains(k) {
                            let p = choose|p: int| 0 <= p < place.len() && place[p] == k;
                            assert(before[p]@ == decode_snark(candidates@[k]@)->Ok_0);
                            if k < from {
                                assert(p < m) by {
                                    if p > m {
                                        assert(place[m as int] < place[p]);
                                    }
                                }
                            }
                        }
                    }
                    assert(chosen_at(self@, candidates@, floor, *decode, *check, from, record@));
                }
                return Some(record);
            }
            proof {
                assert forall|k: int|
                    0 <= k < candidates@.len() && eligible(
                        #[trigger] candidates@[k]@,
                        floor,
                    ) implies origin.contains(k) || disproven(
                    self@,
                    decode_snark(candidates@[k]@)->Ok_0,
                    *decode,
                    *check,
                ) by {
                    if place.contains(k) && k != from {
                        let p = choose|p: int| 0 <= p < place.len() && place[p] == k;
                        if p < m {
                            assert(origin[p] == k);
                        } else {
                            assert(origin[p - 1] == k);
                        }
                    }
                }
            }
        }
        None
    }
}

/// The view of an optional record.
pub open spec fn record_view(r: Option<SnarkStatusList>) -> Option<SnarkRecord> {
    match r {
        Some(record) => Some(record@),
        None => None,
    }
}

/// Whether candidate `k` is looked at before candidate `j`: it declares a newer
/// version, or the same one and comes first.
pub open spec fn preferred(candidates: Seq<Vec<u8>>, k: int, j: int) -> bool {
    let v = decode_snark(candidates[k]@)->Ok_0.version;
    let w = decode_snark(candidates[j]@)->Ok_0.version;
    v > w || v == w && k < j
}

/// Whether candidate `j` is the one selected: it is looked at, was proven, and all
/// that are looked at before it were disproven.
pub open spec fn chosen_at<D: Fn(&[u8]) -> Option<Aggregate>, C: Fn(&[u8]) -> bool>(
    anchor: Anchor,
    candidates: Seq<Vec<u8>>,
    floor: Option<u32>,
    decode: D,
    check: C,
    j: int,
    r: SnarkRecord,
) -> bool {
    &&& 0 <= j < candidates.len()
    &&& eligible(candidates[j]@, floor)
    &&& decode_snark(candidates[j]@)->Ok_0 == r
    &&& proven(anchor, r, decode, check)
    &&& forall|k: int|
        0 <= k < candidates.len() && eligible(#[trigger] candidates[k]@, floor) && preferred(
            candidates,
            k,
            j,
        ) ==> disproven(anchor, decode_snark(candidates[k]@)->Ok_0, decode, check)
}

/// What selection gives: the first candidate in order of preference that is
/// proven, or nothing when all that are looked at were disproven.
pub open spec fn selected<D: Fn(&[u8]) -> Option<Aggregate>, C: Fn(&[u8]) -> bool>(
    anchor: Anchor,
    candidates: Seq<Vec<u8>>,
    floor: Option<u32>,
    decode: D,
    check: C,
    r: Option<SnarkRecord>,
) -> bool {
    match r {
        Some(record) => exists|j: int|
            #[trigger] chosen_at(anchor, candidates, floor, decode, check, j, record),
        None => forall|k: int|
            0 <= k < candidates.len() && eligible(#[trigger] candidates[k]@, floor) ==> disproven(
                anchor,
                decode_snark(candidates[k]@)->Ok_0,
                decode,
                check,
            ),
    }
}

/// Whether `waiting` holds the records of some candidates, in their order.
spec fn queue(
    candidates: Seq<Vec<u8>>,
    floor: Option<u32>,
    waiting: Seq<SnarkStatusList>,
    origin: Seq<int>,
) -> bool {
    &&& waiting.len() == origin.len()
    &&& forall|k: int|
        0 <= k < origin.len() ==> 0 <= #[trigger] origin[k] < candidates.len() && eligible(
            candidates[origin[k]]@,
            floor,
        ) && waiting[k]@ == decode_snark(candidates[origin[k]]@)->Ok_0
    &&& forall|j: int, k: int|
        0 <= j < k < origin.len() ==> #[trigger] origin[j] < #[trigger] origin[k]
}

/// The place of the first record with the highest version.
fn newest(records: &[SnarkStatusList]) -> (m: usize)
    requires
        records@.len() > 0,
    ensures
        m < records@.len(),
        forall|k: int|
            0 <= k < records@.len() ==> (#[trigger] records@[k])@.version
                <= records@[m as int]@.version,
        forall|k: int|
            0 <= k < m ==> (#[trigger] records@[k])@.version < records@[m as int]@.version,
{
    let mut m: usize = 0;
    let mut i: usize = 1;
    while i < records.len()
        invariant
            m < i <= records@.len(),
            forall|k: int|
                0 <= k < i ==> (#[trigger] records@[k])@.version <= records@[m as int]@.version,
            forall|k: int|
                0 <= k < m ==> (#[trigger] records@[k])@.version < records@[m as int]@.version,
        decreases records@.len() - i,
    {
        if records[i].version() > records[m].version() {
            m = i;
        }
        i = i + 1;
    }
    m
}

/// One aggregate stands for one version and one message: what authorizes a record does
/// not authorize a record of another version, nor one whose message differs.
pub proof fn law_an_aggregate_is_bound_to_one_statement(
    anchor: Anchor,
    r: SnarkRecord,
    s: SnarkRecord,
    a: AggregateView,
)
    requires
        claims_quorum(anchor, r, a),
        claims_quorum(anchor, s, a),
    ensures
        r.version == s.version,
        anchor.message(r.alg, r.list, r.version) == anchor.message(s.alg, s.list, s.version),
{
}

/// An aggregate that authorizes a record is by members of the anchor alone, and by at
/// least as many of them as the threshold says.
pub proof fn law_an_aggregate_names_members_only(anchor: Anchor, r: SnarkRecord, a: AggregateView)
    requires
        claims_quorum(anchor, r, a),
    ensures
        a.foreign_signers == 0,
        a.groups[0].keys.len() >= anchor.t,
        forall|k: int|
            0 <= k < a.groups[0].keys.len() ==> anchor.members.contains(
                #[trigger] a.groups[0].keys[k],
            ),
{
}

/// Any group of members that reaches the threshold, however far it goes beyond it, claims a
/// quorum: for the whole list at its version, at the slot that lies as many places behind
/// the first as the version says.
pub proof fn law_any_group_that_reaches_the_threshold_claims_a_quorum(
    anchor: Anchor,
    r: SnarkRecord,
    keys: Seq<Seq<u8>>,
    encoding: Seq<u8>,
)
    requires
        keys.len() >= anchor.t,
        forall|k: int| 0 <= k < keys.len() ==> anchor.members.contains(#[trigger] keys[k]),
        anchor.genesis_slot + r.version <= u32::MAX,
    ensures
        claims_quorum(
            anchor,
            r,
            AggregateView {
                foreign_signers: 0,
                groups: seq![
                    GroupView {
                        slot: (anchor.genesis_slot + r.version) as u32,
                        message: anchor.message(r.alg, r.list, r.version),
                        keys,
                    },
                ],
                encoding,
            },
        ),
{
}

/// What claims a quorum is one group of at least `t` members and nothing else, for the
/// whole list at its version and at that version's slot.
pub proof fn law_a_claimed_quorum_is_one_group_of_members(
    anchor: Anchor,
    r: SnarkRecord,
    a: AggregateView,
)
    requires
        claims_quorum(anchor, r, a),
    ensures
        a.foreign_signers == 0,
        a.groups =~= seq![a.groups[0]],
        a.groups[0].slot == anchor.genesis_slot + r.version,
        a.groups[0].message == anchor.message(r.alg, r.list, r.version),
        a.groups[0].keys.len() >= anchor.t,
        forall|key: Seq<u8>|
            a.groups[0].keys.contains(key) ==> #[trigger] anchor.members.contains(key),
{
}

/// A record whose bytes decode to a group of at least `t` members for its list, version and
/// slot, in that aggregate's own encoding and with a proof that checks, is proven; and
/// where decoding and checking say nothing else of these bytes, it is not disproven.
pub proof fn law_a_confirmed_quorum_proves_a_record<
    D: Fn(&[u8]) -> Option<Aggregate>,
    C: Fn(&[u8]) -> bool,
>(anchor: Anchor, r: SnarkRecord, decode: D, check: C, keys: Seq<Seq<u8>>)
    requires
        keys.len() >= anchor.t,
        forall|k: int| 0 <= k < keys.len() ==> anchor.members.contains(#[trigger] keys[k]),
        anchor.genesis_slot + r.version <= u32::MAX,
        decoded(
            decode,
            r.proof,
            Some(
                AggregateView {
                    foreign_signers: 0,
                    groups: seq![
                        GroupView {
                            slot: (anchor.genesis_slot + r.version) as u32,
                            message: anchor.message(r.alg, r.list, r.version),
                            keys,
                        },
                    ],
                    encoding: r.proof,
                },
            ),
        ),
        checked(check, r.proof, true),
    ensures
        proven(anchor, r, decode, check),
        claims_hold(anchor, r, decode),
        !checked(check, r.proof, false) && (forall|other: Option<AggregateView>| #[trigger]
            decoded(decode, r.proof, other) ==> other == Some(
                AggregateView {
                    foreign_signers: 0,
                    groups: seq![
                        GroupView {
                            slot: (anchor.genesis_slot + r.version) as u32,
                            message: anchor.message(r.alg, r.list, r.version),
                            keys,
                        },
                    ],
                    encoding: r.proof,
                },
            )) ==> !disproven(anchor, r, decode, check),
{
    law_any_group_that_reaches_the_threshold_claims_a_quorum(anchor, r, keys, r.proof);
}

/// A proven record carries an aggregate in its own encoding, by at least `t` members and
/// nobody else, for the whole list at its version and slot, and its proof was checked.
pub proof fn law_a_proven_record_rests_on_a_quorum<
    D: Fn(&[u8]) -> Option<Aggregate>,
    C: Fn(&[u8]) -> bool,
>(anchor: Anchor, r: SnarkRecord, decode: D, check: C)
    requires
        proven(anchor, r, decode, check),
    ensures
        checked(check, r.proof, true),
        exists|keys: Seq<Seq<u8>>|
            {
                &&& keys.len() >= anchor.t
                &&& forall|k: int|
                    0 <= k < keys.len() ==> anchor.members.contains(#[trigger] keys[k])
                &&& anchor.genesis_slot + r.version <= u32::MAX
                &&& #[trigger] decoded(
                    decode,
                    r.proof,
                    Some(
                        AggregateView {
                            foreign_signers: 0,
                            groups: seq![
                                GroupView {
                                    slot: (anchor.genesis_slot + r.version) as u32,
                                    message: anchor.message(r.alg, r.list, r.version),
                                    keys,
                                },
                            ],
                            encoding: r.proof,
                        },
                    ),
                )
            },
{
    let a = choose|a: AggregateView|
        #![trigger decoded(decode, r.proof, Some(a))]
        decoded(decode, r.proof, Some(a)) && a.encoding == r.proof && claims_quorum(anchor, r, a)
            && checked(check, r.proof, true);
    let keys = a.groups[0].keys;
    let group = GroupView {
        slot: (anchor.genesis_slot + r.version) as u32,
        message: anchor.message(r.alg, r.list, r.version),
        keys,
    };
    assert(a.groups =~= seq![group]);
    assert(a =~= AggregateView { foreign_signers: 0, groups: seq![group], encoding: r.proof });
    assert(decoded(decode, r.proof, Some(a)));
}

/// Selection gives a candidate, proven and above the floor, that no other can beat: every
/// candidate with a newer version, and every one of the same version that comes first, was
/// disproven.
pub proof fn law_the_freshest_proven_candidate_is_selected<
    D: Fn(&[u8]) -> Option<Aggregate>,
    C: Fn(&[u8]) -> bool,
>(
    anchor: Anchor,
    candidates: Seq<Vec<u8>>,
    floor: Option<u32>,
    decode: D,
    check: C,
    r: SnarkRecord,
)
    requires
        selected(anchor, candidates, floor, decode, check, Some(r)),
    ensures
        proven(anchor, r, decode, check),
        floor is Some ==> r.version > floor->0,
        exists|j: int|
            {
                &&& 0 <= j < candidates.len()
                &&& decode_snark(#[trigger] candidates[j]@) == Ok::<_, StatusListError>(r)
                &&& forall|k: int, s: SnarkRecord|
                    #![trigger candidates[k]@, proven(anchor, s, decode, check)]
                    {
                        &&& 0 <= k < candidates.len()
                        &&& decode_snark(candidates[k]@) == Ok::<_, StatusListError>(s)
                        &&& s.version > r.version || s.version == r.version && k < j
                    } ==> disproven(anchor, s, decode, check)
            },
{
    let j = choose|j: int| #[trigger] chosen_at(anchor, candidates, floor, decode, check, j, r);
    assert forall|k: int, s: SnarkRecord|
        #![trigger candidates[k]@, proven(anchor, s, decode, check)]
        {
            &&& 0 <= k < candidates.len()
            &&& decode_snark(candidates[k]@) == Ok::<_, StatusListError>(s)
            &&& s.version > r.version || s.version == r.version && k < j
        } implies disproven(anchor, s, decode, check) by {
        assert(eligible(candidates[k]@, floor));
        assert(preferred(candidates, k, j));
    }
    assert(decode_snark(candidates[j]@) == Ok::<_, StatusListError>(r));
}

/// Selection gives nothing only where there is nothing to give: every candidate that can be
/// read and is above the floor was disproven.
pub proof fn law_selection_passes_over_nothing<
    D: Fn(&[u8]) -> Option<Aggregate>,
    C: Fn(&[u8]) -> bool,
>(
    anchor: Anchor,
    candidates: Seq<Vec<u8>>,
    floor: Option<u32>,
    decode: D,
    check: C,
    k: int,
    s: SnarkRecord,
)
    requires
        selected(anchor, candidates, floor, decode, check, None),
        0 <= k < candidates.len(),
        decode_snark(candidates[k]@) == Ok::<_, StatusListError>(s),
        floor is Some ==> s.version > floor->0,
    ensures
        disproven(anchor, s, decode, check),
{
    assert(eligible(candidates[k]@, floor));
}

/// A proof is checked only for a candidate above the floor whose aggregate is a group of at
/// least `t` members for its list, version and slot.
pub proof fn law_only_a_claimed_quorum_is_checked<D: Fn(&[u8]) -> Option<Aggregate>>(
    anchor: Anchor,
    candidates: Seq<Vec<u8>>,
    floor: Option<u32>,
    decode: D,
    bytes: Seq<u8>,
)
    requires
        may_check(anchor, candidates, floor, decode, bytes),
    ensures
        exists|s: SnarkRecord, a: AggregateView|
            {
                &&& s.proof == bytes
                &&& floor is Some ==> s.version > floor->0
                &&& #[trigger] decoded(decode, bytes, Some(a))
                &&& a.encoding == bytes
                &&& a.foreign_signers == 0 && a.groups.len() == 1
                &&& a.groups[0].keys.len() >= anchor.t
                &&& a.groups[0].slot == anchor.genesis_slot + s.version
                &&& a.groups[0].message == #[trigger] anchor.message(s.alg, s.list, s.version)
                &&& forall|n: int|
                    0 <= n < a.groups[0].keys.len() ==> anchor.members.contains(
                        #[trigger] a.groups[0].keys[n],
                    )
            },
{
    let k = choose|k: int|
        0 <= k < candidates.len() && eligible(#[trigger] candidates[k]@, floor) && decode_snark(
            candidates[k]@,
        )->Ok_0.proof == bytes && claims_hold(anchor, decode_snark(candidates[k]@)->Ok_0, decode);
    let s = decode_snark(candidates[k]@)->Ok_0;
    let a = choose|a: AggregateView|
        #![trigger decoded(decode, s.proof, Some(a))]
        decoded(decode, s.proof, Some(a)) && a.encoding == s.proof && claims_quorum(anchor, s, a);
    assert(decoded(decode, bytes, Some(a)));
}

/// What was decoded and what was checked are the bytes that were handed over, and the answer
/// is the one that came back.
pub proof fn law_answers_are_about_the_bytes_handed_over<
    D: Fn(&[u8]) -> Option<Aggregate>,
    C: Fn(&[u8]) -> bool,
>(decode: D, check: C, bytes: Seq<u8>, a: AggregateView, verdict: bool)
    ensures
        decoded(decode, bytes, Some(a)) <==> exists|b: &[u8], found: Aggregate|
            b@ == bytes && found@ == a && #[trigger] call_ensures(decode, (b,), Some(found)),
        decoded(decode, bytes, None) <==> exists|b: &[u8]|
            b@ == bytes && #[trigger] call_ensures(decode, (b,), None),
        checked(check, bytes, verdict) <==> exists|b: &[u8]|
            b@ == bytes && #[trigger] call_ensures(check, (b,), verdict),
{
    if decoded(decode, bytes, Some(a)) {
        let (b, found) = choose|b: &[u8], found: Option<Aggregate>|
            b@ == bytes && aggregate_view(found) == Some(a) && #[trigger] call_ensures(
                decode,
                (b,),
                found,
            );
        assert(call_ensures(decode, (b,), Some(found->0)));
    }
    if exists|b: &[u8], found: Aggregate|
        b@ == bytes && found@ == a && #[trigger] call_ensures(decode, (b,), Some(found)) {
        let (b, found) = choose|b: &[u8], found: Aggregate|
            b@ == bytes && found@ == a && #[trigger] call_ensures(decode, (b,), Some(found));
        assert(aggregate_view(Some(found)) == Some(a));
        assert(call_ensures(decode, (b,), Some(found)));
    }
    if decoded(decode, bytes, None) {
        let (b, found) = choose|b: &[u8], found: Option<Aggregate>|
            b@ == bytes && aggregate_view(found) == None::<AggregateView>
                && #[trigger] call_ensures(decode, (b,), found);
        assert(found is None);
        assert(call_ensures(decode, (b,), None));
    }
    if exists|b: &[u8]| b@ == bytes && #[trigger] call_ensures(decode, (b,), None) {
        let b = choose|b: &[u8]| b@ == bytes && #[trigger] call_ensures(decode, (b,), None);
        assert(aggregate_view(None) == None::<AggregateView>);
    }
}

} // verus!

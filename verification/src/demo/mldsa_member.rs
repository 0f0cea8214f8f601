//! A committee member under the stateless scheme, and the aggregator it can be.
//!
//! There are no slots to spend. A holder asks for the list to be changed: a credential
//! is added to it, or taken off.
use crate::bitlist::{count_set, law_a_set_bit_has_its_rank, lemma_set_indices, set_indices};
use crate::bytes::{all_width, views};
use crate::demo::aggregator::latest_view;
use crate::demo::config::{N_MEMBERS, THRESHOLD};
use crate::demo::member::{failure, fails, replies, Reply};
use crate::demo::vc::{
    add_valid, credential_of, credential_text, issue_with_id, jcs_canonical, json_quoted,
    law_a_revoked_entry_is_gone, no_entry_twice, random_bytes, removed_from, revoke,
};
use crate::demo::wire::{
    action_bytes, failure_bytes, failure_text, law_a_reason_is_read_back,
    law_a_stateless_signature_is_read_back, law_a_tail_is_read_back, ml_dsa_reply_framed,
    ml_dsa_reply_signature, pair_bytes, ml_dsa_signed_reply, proposal_bytes,
    proposal_framed, proposal_list, proposal_refusal, tail, tail_framed, tail_refusal, version_in,
    versioned_bytes,
    MlDsaSignatureReply, Proposal, StatusRequest, StatusUpdated, ACTION_ISSUE, ACTION_REVOKE,
    MSG_SIGNATURE, MSG_STATUS_UPDATED,
};
use crate::hash::sha3_256;
use crate::mldsa::committee::{Committee, MlDsaAnchor};
use crate::mldsa::signer::{
    canonical_signature, ml_dsa_65_public_key, ml_dsa_65_verifies, public_key_views, verify,
    MlDsa65Signer, MlDsaError, Signature,
};
use crate::mldsa::status_list::{
    body_view, decodes_to, law_record_round_trip, record_size, signer_pairs, MlDsaStatusList, MlDsaStatusListError,
    ALGORITHM_TAG, MAX_RECORD_BYTES,
};
use crate::mldsa::verification::{authorized, law_an_honest_quorum_is_authorized};
use crate::protocol::record::{
    assembled, distinct_indices, indices_below, law_every_signature_is_counted, named, place_of, Body,
};
use crate::protocol::status_list::copy_entries;
use crate::text::{decimal, joined, numbered, push_decimal, utf8_text};
use vstd::prelude::*;
use vstd::string::*;
use vstd::utf8::{decode_utf8, encode_utf8, valid_utf8};

verus! {

// ---- signing -----------------------------------------------------------------

/// The answer to a proposal that signing came to this for.
pub fn signed_answer(signed: &Result<Signature, MlDsaError>) -> (reply: Reply)
    ensures
        match signed {
            Ok(signature) => replies(reply, MSG_SIGNATURE, ml_dsa_signed_reply(signature@)),
            Err(_) => fails(reply, "ML-DSA signing failed: signature error"@),
        },
{
    match signed {
        Ok(signature) => Reply {
            kind: MSG_SIGNATURE,
            payload: MlDsaSignatureReply::signed(signature.as_bytes()),
        },
        Err(_) => failure("ML-DSA signing failed: signature error"),
    }
}

/// The member's side of a round: it signs the statement of the proposed list and
/// version under its own anchor.
pub fn on_proposal(committee: &Committee, signer: &MlDsa65Signer, payload: &[u8]) -> (reply: Reply)
    ensures
        if !proposal_framed(payload@) {
            fails(reply, "malformed proposal: "@ + proposal_refusal(payload@)->0.message())
        } else {
            ||| fails(reply, "ML-DSA signing failed: signature error"@)
            ||| exists|signature: Seq<u8>|
                {
                    &&& replies(reply, MSG_SIGNATURE, ml_dsa_signed_reply(signature))
                    &&& #[trigger] ml_dsa_65_verifies(
                        ml_dsa_65_public_key(signer.seed()),
                        committee@.statement(proposal_list(payload@), version_in(payload@)),
                        Seq::empty(),
                        signature,
                    )
                }
        },
{
    let proposal = match Proposal::from_ssz_bytes(payload) {
        Ok(proposal) => proposal,
        Err(e) => {
            let text = joined("malformed proposal: ", e.text().as_str());
            return failure(text.as_str());
        },
    };
    let statement = committee.statement_for(proposal.list.as_slice(), proposal.version);
    let signed = signer.sign(statement.as_slice());
    signed_answer(&signed)
}

// ---- opening a round ---------------------------------------------------------

/// A round that an aggregator has opened.
#[derive(Debug)]
pub struct StatusRound {
    pub version: u32,
    pub list: Vec<[u8; 32]>,
    pub credential: Vec<u8>,
}

/// What a round stands for.
#[verifier::ext_equal]
pub struct StatusRoundView {
    pub version: u32,
    pub list: Seq<Seq<u8>>,
    pub credential: Seq<u8>,
}

impl View for StatusRound {
    type V = StatusRoundView;

    open spec fn view(&self) -> StatusRoundView {
        StatusRoundView {
            version: self.version,
            list: views(self.list@),
            credential: self.credential@,
        }
    }
}

/// Whether `r` is the next version and the list it changes, or why there is no next
/// version, after a record decoded to `decoded`.
pub open spec fn version_after(
    decoded: Result<Body, MlDsaStatusListError>,
    r: Result<(u32, Seq<Seq<u8>>), Seq<char>>,
) -> bool {
    match decoded {
        Err(e) => r == Err::<(u32, Seq<Seq<u8>>), Seq<char>>(
            "published record is unreadable: "@ + e.message(),
        ),
        Ok(body) => if body.version == u32::MAX {
            r == Err::<(u32, Seq<Seq<u8>>), Seq<char>>("status-list version exhausted"@)
        } else {
            r == Ok::<(u32, Seq<Seq<u8>>), Seq<char>>(((body.version + 1) as u32, body.list))
        },
    }
}

/// Whether `r` is the next version and the list it changes, or why there is no next
/// version. What is published decides.
pub open spec fn next_snapshot(
    current: Option<Seq<u8>>,
    r: Result<(u32, Seq<Seq<u8>>), Seq<char>>,
) -> bool {
    match current {
        None => r == Ok::<(u32, Seq<Seq<u8>>), Seq<char>>((0u32, Seq::empty())),
        Some(b) => exists|decoded: Result<Body, MlDsaStatusListError>|
            decodes_to(b, decoded) && #[trigger] version_after(decoded, r),
    }
}

/// The view of a next version that there is or is not.
pub open spec fn snapshot_view(r: Result<(u32, Vec<[u8; 32]>), String>) -> Result<
    (u32, Seq<Seq<u8>>),
    Seq<char>,
> {
    match r {
        Ok(parts) => Ok((parts.0, views(parts.1@))),
        Err(text) => Err(text@),
    }
}

fn next_list(current: Option<&[u8]>) -> (r: Result<(u32, Vec<[u8; 32]>), String>)
    ensures
        next_snapshot(latest_view(current), snapshot_view(r)),
{
    match current {
        None => {
            let empty: Vec<[u8; 32]> = Vec::new();
            assert(views(empty@) =~= Seq::<Seq<u8>>::empty());
            Ok((0, empty))
        },
        Some(bytes) => {
            let decoded = MlDsaStatusList::from_bytes(bytes);
            let ghost body = body_view(decoded);
            let r = match &decoded {
                Err(e) => {
                    let why = e.text();
                    Err(joined("published record is unreadable: ", why.as_str()))
                },
                Ok(record) => if record.version() == u32::MAX {
                    Err("status-list version exhausted".to_owned())
                } else {
                    Ok((record.version() + 1, copy_entries(record.list())))
                },
            };
            assert(decodes_to(bytes@, body) && version_after(body, snapshot_view(r)));
            r
        },
    }
}

/// Whether `r` is what asking for `action` on `data` makes of a list at a version: the
/// changed list and the credential, or why it cannot be changed.
pub open spec fn changed(
    action: u8,
    data: Seq<u8>,
    next: (u32, Seq<Seq<u8>>),
    index: usize,
    id: Seq<u8>,
    r: Result<StatusRoundView, Seq<char>>,
) -> bool {
    if action == ACTION_ISSUE {
        if !valid_utf8(data) || decode_utf8(data).len() == 0 {
            r == Err::<StatusRoundView, Seq<char>>("credential subject is empty or not UTF-8"@)
        } else {
            match credential_of(decode_utf8(data), next.0, index, id) {
                None => r == Err::<StatusRoundView, Seq<char>>("credential cannot be serialised"@),
                Some(credential) => if next.1.contains(sha3_256(credential)) {
                    r == Err::<StatusRoundView, Seq<char>>(
                        "new credential fingerprint already exists"@,
                    )
                } else {
                    r == Ok::<StatusRoundView, Seq<char>>(
                        StatusRoundView {
                            version: next.0,
                            list: next.1.push(sha3_256(credential)),
                            credential,
                        },
                    )
                },
            }
        }
    } else if action == ACTION_REVOKE {
        if data.len() == 0 || !next.1.contains(sha3_256(data)) {
            r == Err::<StatusRoundView, Seq<char>>(
                "credential is absent from the current snapshot"@,
            )
        } else {
            &&& r is Ok
            &&& r->Ok_0.version == next.0
            &&& r->Ok_0.credential == data
            &&& removed_from(next.1, sha3_256(data), r->Ok_0.list)
        }
    } else {
        r == Err::<StatusRoundView, Seq<char>>("unknown status action "@ + decimal(action as nat))
    }
}

/// The view of a round that was opened or refused.
pub open spec fn round_view(r: Result<StatusRound, String>) -> Result<StatusRoundView, Seq<char>> {
    match r {
        Ok(round) => Ok(round@),
        Err(text) => Err(text@),
    }
}

fn change(request: StatusRequest, version: u32, list: Vec<[u8; 32]>, index: usize, id: &[u8; 16]) -> (r:
    Result<StatusRound, String>)
    ensures
        changed(
            request.action,
            request.data@,
            (version, views(list@)),
            index,
            id@,
            round_view(r),
        ),
{
    let mut list = list;
    let StatusRequest { action, data } = request;
    if action == ACTION_ISSUE {
        let subject = match utf8_text(data) {
            Some(subject) => subject,
            None => {
                return Err("credential subject is empty or not UTF-8".to_owned());
            },
        };
        let chars = crate::text::chars_of(subject.as_str());
        if chars.len() == 0 {
            return Err("credential subject is empty or not UTF-8".to_owned());
        }
        match issue_with_id(subject.as_str(), version, index, id) {
            None => Err("credential cannot be serialised".to_owned()),
            Some(credential) => {
                if add_valid(&mut list, credential.as_slice()) {
                    Ok(StatusRound { version, list, credential })
                } else {
                    Err("new credential fingerprint already exists".to_owned())
                }
            },
        }
    } else if action == ACTION_REVOKE {
        if data.len() == 0 || !revoke(&mut list, data.as_slice()) {
            return Err("credential is absent from the current snapshot".to_owned());
        }
        Ok(StatusRound { version, list, credential: data })
    } else {
        let mut text: String = "unknown status action ".to_owned();
        push_decimal(&mut text, action as u64);
        Err(text)
    }
}

/// Whether `r` is the round a request opens with identifier `id` for a new credential,
/// or the reason it opens none. The checks come in this order.
pub open spec fn status_round(
    payload: Seq<u8>,
    current: Option<Seq<u8>>,
    index: usize,
    id: Seq<u8>,
    r: Result<StatusRoundView, Seq<char>>,
) -> bool {
    if !tail_framed(payload, 1) {
        r == Err::<StatusRoundView, Seq<char>>(
            "malformed request: "@ + tail_refusal(payload, 1)->0.message(),
        )
    } else {
        exists|next: Result<(u32, Seq<Seq<u8>>), Seq<char>>| #[trigger]
            next_snapshot(current, next) && match next {
                Err(why) => r == Err::<StatusRoundView, Seq<char>>(why),
                Ok(parts) => changed(payload[0], tail(payload, 1), parts, index, id, r),
            }
    }
}

/// Opens a round for a request to change the list. `current` is the published record.
pub fn begin_status_round_with_id(
    index: usize,
    payload: &[u8],
    current: Option<&[u8]>,
    id: &[u8; 16],
) -> (r: Result<StatusRound, String>)
    ensures
        status_round(
            payload@,
            latest_view(current),
            index,
            id@,
            round_view(r),
        ),
{
    let request = match StatusRequest::from_ssz_bytes(payload) {
        Ok(request) => request,
        Err(e) => {
            return Err(joined("malformed request: ", e.text().as_str()));
        },
    };
    let ghost there = latest_view(current);
    match next_list(current) {
        Err(text) => {
            assert(next_snapshot(there, Err(text@)));
            Err(text)
        },
        Ok((version, list)) => {
            let ghost next = (version, views(list@));
            assert(next_snapshot(there, Ok(next)));
            change(request, version, list, index, id)
        },
    }
}

/// [`begin_status_round_with_id`] with a random identifier.
pub fn begin_status_round(index: usize, payload: &[u8], current: Option<&[u8]>) -> (r: Result<
    StatusRound,
    String,
>)
    ensures
        exists|id: Seq<u8>|
            id.len() == 16 && #[trigger] status_round(
                payload@,
                latest_view(current),
                index,
                id,
                round_view(r),
            ),
{
    let id: [u8; 16] = random_bytes();
    begin_status_round_with_id(index, payload, current, &id)
}

impl StatusRound {
    /// A copy of the list.
    pub fn entries(&self) -> (list: Vec<[u8; 32]>)
        ensures
            views(list@) == self@.list,
    {
        copy_entries(self.list.as_slice())
    }

    /// The proposal that is sent to every member.
    pub fn proposal(&self) -> (bytes: Vec<u8>)
        ensures
            bytes@ == proposal_bytes(self@.version, self@.list),
    {
        let proposal = Proposal { version: self.version, list: self.entries() };
        proposal.as_ssz_bytes()
    }

    /// The answer to the holder once the record is published, or could not be.
    pub fn close(&self, published: Result<(), String>) -> (reply: Reply)
        ensures
            match published {
                Ok(_) => replies(
                    reply,
                    MSG_STATUS_UPDATED,
                    versioned_bytes(self@.version, self@.credential),
                ),
                Err(why) => fails(reply, "cannot publish: "@ + why@),
            },
    {
        match published {
            Ok(_) => {
                let updated = StatusUpdated {
                    version: self.version,
                    credential: crate::bytes::to_vec(self.credential.as_slice()),
                };
                Reply { kind: MSG_STATUS_UPDATED, payload: updated.as_ssz_bytes() }
            },
            Err(why) => {
                let text = joined("cannot publish: ", why.as_str());
                failure(text.as_str())
            },
        }
    }
}

// ---- collecting signatures ---------------------------------------------------

/// The signature an answer gives: exactly one, in its canonical encoding.
pub open spec fn answer_of(kind: u8, payload: Seq<u8>) -> Option<Seq<u8>> {
    if kind != MSG_SIGNATURE || !ml_dsa_reply_framed(payload) {
        None
    } else {
        match ml_dsa_reply_signature(payload) {
            Some(s) => if canonical_signature(s) {
                Some(s)
            } else {
                None
            },
            None => None,
        }
    }
}

/// The signature an answer gives, or nothing.
pub fn signature_in(kind: u8, payload: &[u8]) -> (r: Option<Signature>)
    ensures
        match r {
            Some(s) => answer_of(kind, payload@) == Some(s@),
            None => answer_of(kind, payload@) is None,
        },
{
    if kind != MSG_SIGNATURE {
        return None;
    }
    match MlDsaSignatureReply::from_ssz_bytes(payload) {
        None => None,
        Some(reply) => match reply.signature {
            None => None,
            Some(bytes) => match Signature::from_bytes(bytes.as_slice()) {
                Ok(signature) => Some(signature),
                Err(_) => None,
            },
        },
    }
}

/// The signatures that count for a round so far.
#[derive(Debug)]
pub struct StatusCollector {
    committee: Committee,
    statement: Vec<u8>,
    quorum: Vec<(usize, Signature)>,
}

/// Whether every signature verifies over a statement under its member's key.
pub open spec fn all_verify(
    anchor: MlDsaAnchor,
    statement: Seq<u8>,
    pairs: Seq<(int, Seq<u8>)>,
) -> bool {
    forall|k: int|
        0 <= k < pairs.len() ==> ml_dsa_65_verifies(
            anchor.members[(#[trigger] pairs[k]).0],
            statement,
            Seq::empty(),
            pairs[k].1,
        )
}

impl StatusCollector {
    #[verifier::type_invariant]
    closed spec fn inv(self) -> bool {
        &&& distinct_indices(signer_pairs(self.quorum@))
        &&& indices_below(signer_pairs(self.quorum@), self.committee@.members.len() as int)
        &&& all_verify(self.committee@, self.statement@, signer_pairs(self.quorum@))
        &&& self.quorum@.len() <= THRESHOLD
    }

    /// The anchor the round runs under.
    pub closed spec fn anchor(self) -> MlDsaAnchor {
        self.committee@
    }

    /// The statement the signatures are for.
    pub closed spec fn asked(self) -> Seq<u8> {
        self.statement@
    }

    /// The signatures that count, each with its member's index, in order of arrival.
    pub closed spec fn pairs(self) -> Seq<(int, Seq<u8>)> {
        signer_pairs(self.quorum@)
    }

    /// An empty collection for a round.
    pub fn new(committee: &Committee, list: &[[u8; 32]], version: u32) -> (c: StatusCollector)
        ensures
            c.anchor() == committee@,
            c.asked() == committee@.statement(views(list@), version),
            c.pairs() == Seq::<(int, Seq<u8>)>::empty(),
    {
        let quorum: Vec<(usize, Signature)> = Vec::new();
        assert(signer_pairs(quorum@) =~= Seq::<(int, Seq<u8>)>::empty());
        StatusCollector {
            committee: committee.clone(),
            statement: committee.statement_for(list, version),
            quorum,
        }
    }

    /// Whether enough signatures count.
    pub fn complete(&self) -> (r: bool)
        ensures
            r == (self.pairs().len() >= THRESHOLD),
            self.pairs().len() <= THRESHOLD,
    {
        proof {
            use_type_invariant(self);
        }
        self.quorum.len() >= THRESHOLD
    }

    /// How many signatures count.
    pub fn count(&self) -> (n: usize)
        ensures
            n == self.pairs().len(),
    {
        self.quorum.len()
    }

    fn names(&self, index: usize) -> (r: bool)
        ensures
            r == named(self.pairs(), index as int),
    {
        let ghost pairs = self.pairs();
        let mut i: usize = 0;
        while i < self.quorum.len()
            invariant
                i <= self.quorum@.len(),
                pairs == self.pairs(),
                pairs.len() == self.quorum@.len(),
                forall|k: int| 0 <= k < i ==> (#[trigger] pairs[k]).0 != index,
            decreases self.quorum@.len() - i,
        {
            assert(pairs[i as int].0 == self.quorum@[i as int].0);
            if self.quorum[i].0 == index {
                return true;
            }
            i = i + 1;
        }
        false
    }

    /// Offers the signature that came from member `index`. It counts when it verifies
    /// under the key the anchor holds at that index, unless the round is complete,
    /// there is no such member, or the member was counted before.
    pub fn offer(&mut self, index: usize, signature: Signature) -> (counted: bool)
        ensures
            final(self).anchor() == old(self).anchor(),
            final(self).asked() == old(self).asked(),
            ({
                let (before, after) = (old(self).pairs(), final(self).pairs());
                let open = before.len() < THRESHOLD && index < old(self).anchor().members.len()
                    && !named(before, index as int);
                &&& counted == (open && ml_dsa_65_verifies(
                    old(self).anchor().members[index as int],
                    old(self).asked(),
                    Seq::empty(),
                    signature@,
                ))
                &&& after == if counted {
                    before.push((index as int, signature@))
                } else {
                    before
                }
            }),
    {
        proof {
            use_type_invariant(&*self);
        }
        let members = self.committee.members();
        assert(members@.len() == public_key_views(members@).len());
        if self.quorum.len() >= THRESHOLD || index >= members.len() || self.names(index) {
            return false;
        }
        assert(public_key_views(members@)[index as int] == members@[index as int]@);
        if !verify(&members[index], self.statement.as_slice(), &signature) {
            return false;
        }
        let mut quorum: Vec<(usize, Signature)> = Vec::new();
        proof {
            assert(signer_pairs(quorum@) =~= Seq::<(int, Seq<u8>)>::empty());
        }
        std::mem::swap(&mut quorum, &mut self.quorum);
        let ghost before = quorum@;
        quorum.push((index, signature));
        proof {
            let (pairs, pair) = (signer_pairs(before), (index as int, signature@));
            assert(signer_pairs(quorum@) =~= pairs.push(pair));
            crate::demo::aggregator::lemma_pushed(
                pairs,
                pair,
                self.committee@.members.len() as int,
            );
            let longer = pairs.push(pair);
            assert forall|k: int| 0 <= k < longer.len() implies ml_dsa_65_verifies(
                self.committee@.members[(#[trigger] longer[k]).0],
                self.statement@,
                Seq::empty(),
                longer[k].1,
            ) by {
                if k < pairs.len() {
                    assert(longer[k] == pairs[k]);
                }
            }
        }
        self.quorum = quorum;
        true
    }

    /// The signatures that count.
    pub fn into_quorum(self) -> (quorum: Vec<(usize, Signature)>)
        ensures
            signer_pairs(quorum@) == self.pairs(),
            distinct_indices(self.pairs()),
            indices_below(self.pairs(), self.anchor().members.len() as int),
            all_verify(self.anchor(), self.asked(), self.pairs()),
    {
        proof {
            use_type_invariant(&self);
        }
        self.quorum
    }
}

/// The answer to the holder when too few signatures came.
pub fn shortfall(collected: usize) -> (reply: Option<Reply>)
    ensures
        match reply {
            Some(r) => collected < THRESHOLD && fails(
                r,
                "only "@ + decimal(collected as nat) + " of 7 signatures arrived"@,
            ),
            None => collected >= THRESHOLD,
        },
{
    if collected >= THRESHOLD {
        return None;
    }
    let text = numbered("only ", collected as u64, " of 7 signatures arrived");
    Some(failure(text.as_str()))
}

/// Turns the quorum into the published record.
pub fn build_record(round: &StatusRound, quorum: Vec<(usize, Signature)>) -> (r: Result<
    Vec<u8>,
    MlDsaStatusListError,
>)
    ensures
        record_built(round@, signer_pairs(quorum@), r),
{
    let list = round.entries();
    assert(views(list@).len() == list@.len());
    match MlDsaStatusList::new(list, round.version, N_MEMBERS, quorum) {
        Ok(record) => Ok(record.to_bytes()),
        Err(e) => Err(e),
    }
}

/// The record of a completed round is authorized under its anchor.
pub proof fn law_a_completed_round_is_authorized(
    anchor: MlDsaAnchor,
    list: Seq<Seq<u8>>,
    version: u32,
    pairs: Seq<(int, Seq<u8>)>,
)
    requires
        anchor.wf(),
        anchor.members.len() == N_MEMBERS,
        anchor.threshold == THRESHOLD,
        distinct_indices(pairs),
        indices_below(pairs, N_MEMBERS as int),
        forall|k: int| 0 <= k < pairs.len() ==> 0 <= (#[trigger] pairs[k]).0,
        pairs.len() == THRESHOLD,
        all_verify(anchor, anchor.statement(list, version), pairs),
    ensures
        authorized(anchor, assembled(list, version, pairs, N_MEMBERS as int)),
{
    law_an_honest_quorum_is_authorized(anchor, list, version, pairs);
}

// ---- the whole round ---------------------------------------------------------

/// The signatures that count after the arrivals so far, one after the other.
pub open spec fn tally(
    anchor: MlDsaAnchor,
    statement: Seq<u8>,
    arrivals: Seq<(int, Seq<u8>)>,
) -> Seq<(int, Seq<u8>)>
    decreases arrivals.len(),
{
    if arrivals.len() == 0 {
        Seq::empty()
    } else {
        let before = tally(anchor, statement, arrivals.drop_last());
        let (index, signature) = arrivals.last();
        if before.len() < THRESHOLD && index < anchor.members.len() && !named(before, index)
            && ml_dsa_65_verifies(anchor.members[index], statement, Seq::empty(), signature) {
            before.push(arrivals.last())
        } else {
            before
        }
    }
}

/// Whether the answer with number `k` that `next` handed out is this member's signature.
pub open spec fn arrived<N: Fn(usize) -> Option<(usize, Signature)>>(
    next: N,
    k: int,
    arrival: (int, Seq<u8>),
) -> bool {
    exists|got: (usize, Signature)|
        (got.0 as int, got.1@) == arrival && #[trigger] call_ensures(
            next,
            (k as usize,),
            Some(got),
        )
}

/// Whether `next` may be asked for the answer of every member.
pub open spec fn may_wait<N: Fn(usize) -> Option<(usize, Signature)>>(next: N) -> bool {
    forall|k: usize| k < N_MEMBERS ==> #[trigger] call_requires(next, (k,))
}

/// Whether every arrival was handed out by `next`, each in its turn.
pub open spec fn all_arrived<N: Fn(usize) -> Option<(usize, Signature)>>(
    next: N,
    arrivals: Seq<(int, Seq<u8>)>,
) -> bool {
    forall|k: int| 0 <= k < arrivals.len() ==> arrived(next, k, #[trigger] arrivals[k])
}

/// Whether a round stopped where it may: enough signatures count, nothing more came, or
/// every member has answered.
pub open spec fn stopped<N: Fn(usize) -> Option<(usize, Signature)>>(
    next: N,
    arrivals: nat,
    counted: nat,
) -> bool {
    ||| counted >= THRESHOLD
    ||| arrivals >= N_MEMBERS
    ||| call_ensures(next, (arrivals as usize,), None)
}

/// Whether `pairs` is what a round collected.
pub open spec fn gathered<N: Fn(usize) -> Option<(usize, Signature)>>(
    anchor: MlDsaAnchor,
    statement: Seq<u8>,
    next: N,
    pairs: Seq<(int, Seq<u8>)>,
) -> bool {
    exists|arrivals: Seq<(int, Seq<u8>)>|
        {
            &&& all_arrived(next, arrivals)
            &&& pairs == #[trigger] tally(anchor, statement, arrivals)
            &&& stopped(next, arrivals.len(), pairs.len())
        }
}

/// Collects from answers that are already there: each is offered in its turn, and none is
/// left out.
pub fn collect_from(collector: StatusCollector, answers: &[(usize, Signature)]) -> (done:
    StatusCollector)
    requires
        collector.pairs() == Seq::<(int, Seq<u8>)>::empty(),
    ensures
        done.anchor() == collector.anchor(),
        done.asked() == collector.asked(),
        done.pairs() == tally(collector.anchor(), collector.asked(), signer_pairs(answers@)),
{
    let ghost (anchor, statement) = (collector.anchor(), collector.asked());
    let ghost arrivals = signer_pairs(answers@);
    let mut done = collector;
    let mut i: usize = 0;
    while i < answers.len()
        invariant
            i <= answers@.len(),
            arrivals == signer_pairs(answers@),
            done.anchor() == anchor,
            done.asked() == statement,
            done.pairs() == tally(anchor, statement, arrivals.subrange(0, i as int)),
        decreases answers@.len() - i,
    {
        let index: usize = answers[i].0;
        let signature = answers[i].1.clone();
        let ghost longer = arrivals.subrange(0, i + 1);
        proof {
            assert(longer.drop_last() =~= arrivals.subrange(0, i as int));
            assert(longer.last() == (index as int, signature@));
        }
        let counted = done.offer(index, signature);
        i = i + 1;
    }
    assert(arrivals.subrange(0, i as int) =~= arrivals);
    done
}

/// Collects signatures until enough count, nothing more comes or every member has
/// answered. `next(k)` waits for the answer with number `k`, counted from zero, and gives
/// nothing once the window is over. Which answers come, and when, is up to the network;
/// whatever comes is offered in its turn, and none is left out.
pub fn collect_signatures<N: Fn(usize) -> Option<(usize, Signature)>>(
    collector: StatusCollector,
    next: N,
) -> (done: StatusCollector)
    requires
        collector.pairs() == Seq::<(int, Seq<u8>)>::empty(),
        may_wait(next),
    ensures
        done.anchor() == collector.anchor(),
        done.asked() == collector.asked(),
        gathered(collector.anchor(), collector.asked(), next, done.pairs()),
{
    let ghost (anchor, statement) = (collector.anchor(), collector.asked());
    let mut done = collector;
    let ghost mut arrivals: Seq<(int, Seq<u8>)> = Seq::empty();
    let mut answers: usize = 0;
    let mut waiting: bool = true;
    while waiting && answers < N_MEMBERS && !done.complete()
        invariant
            answers <= N_MEMBERS,
            done.anchor() == anchor,
            done.asked() == statement,
            may_wait(next),
            arrivals.len() == answers,
            all_arrived(next, arrivals),
            done.pairs() == tally(anchor, statement, arrivals),
            !waiting ==> call_ensures(next, (answers,), None),
        decreases N_MEMBERS - answers, waiting as int,
    {
        match next(answers) {
            None => {
                waiting = false;
            },
            Some((index, signature)) => {
                let ghost arrival = (index as int, signature@);
                assert(call_ensures(next, ((answers as int) as usize,), Some((index, signature))));
                assert(arrived(next, answers as int, arrival));
                let counted = done.offer(index, signature);
                answers = answers + 1;
                proof {
                    let longer = arrivals.push(arrival);
                    assert(longer.drop_last() =~= arrivals);
                    assert forall|k: int| 0 <= k < longer.len() implies arrived(
                        next,
                        k,
                        #[trigger] longer[k],
                    ) by {
                        if k < arrivals.len() {
                            assert(longer[k] == arrivals[k]);
                        }
                    }
                    arrivals = longer;
                }
            },
        }
    }
    proof {
        assert(done.pairs() == tally(anchor, statement, arrivals));
        assert(stopped(next, arrivals.len(), done.pairs().len()));
    }
    done
}

/// Whether `publish` was asked to publish a record and answered so.
pub open spec fn publish_asked<P: FnOnce(&[u8]) -> Result<(), String>>(
    publish: P,
    bytes: Seq<u8>,
    answer: Result<(), String>,
) -> bool {
    exists|b: &[u8]| b@ == bytes && #[trigger] call_ensures(publish, (b,), answer)
}

/// The answer to the holder for what publishing came to.
pub open spec fn close_reply(
    round: StatusRoundView,
    published: Result<(), String>,
    reply: Reply,
) -> bool {
    match published {
        Ok(_) => replies(
            reply,
            MSG_STATUS_UPDATED,
            versioned_bytes(round.version, round.credential),
        ),
        Err(why) => fails(reply, "cannot publish: "@ + why@),
    }
}

/// Whether `r` is the record of a quorum, or why there is none.
pub open spec fn record_built(
    round: StatusRoundView,
    pairs: Seq<(int, Seq<u8>)>,
    r: Result<Vec<u8>, MlDsaStatusListError>,
) -> bool {
    let n = N_MEMBERS as int;
    let short = record_size(n as nat, round.list.len(), pairs.len()) <= MAX_RECORD_BYTES;
    match r {
        Ok(bytes) => {
            &&& pairs.len() <= n && short && distinct_indices(pairs) && indices_below(pairs, n)
            &&& bytes@ == assembled(round.list, round.version, pairs, n).encode(ALGORITHM_TAG)
        },
        Err(MlDsaStatusListError::TooManySignatures) => pairs.len() > n,
        Err(MlDsaStatusListError::TooLong) => pairs.len() <= n && !short,
        Err(MlDsaStatusListError::DuplicateSigner) => pairs.len() <= n && short
            && !distinct_indices(pairs),
        Err(MlDsaStatusListError::SignerOutside { index }) => {
            &&& pairs.len() <= n && short && distinct_indices(pairs)
            &&& index >= n
            &&& named(pairs, index as int)
            &&& indices_below(pairs, index + 1)
        },
        Err(_) => false,
    }
}

/// Whether a record that was built, or could not be, was answered so.
pub open spec fn record_answered<P: FnOnce(&[u8]) -> Result<(), String>>(
    round: StatusRoundView,
    r: Result<Vec<u8>, MlDsaStatusListError>,
    publish: P,
    reply: Reply,
) -> bool {
    match r {
        Err(e) => fails(reply, e.message()),
        Ok(bytes) => exists|answer: Result<(), String>|
            #[trigger] publish_asked(publish, bytes@, answer) && close_reply(round, answer, reply),
    }
}

/// Whether a round that collected `pairs` may publish these bytes: enough signatures
/// count, and the bytes are the record of the quorum.
pub open spec fn may_publish(
    round: StatusRoundView,
    pairs: Seq<(int, Seq<u8>)>,
    bytes: Seq<u8>,
) -> bool {
    &&& pairs.len() >= THRESHOLD
    &&& exists|r: Result<Vec<u8>, MlDsaStatusListError>|
        #[trigger] record_built(round, pairs, r) && r is Ok && r->Ok_0@ == bytes
}

/// Whether a round that collected `pairs` was answered so: too few signatures fail, and so
/// does a record that cannot be built or published; the update is reported only after its
/// record was published.
#[verifier::opaque]
pub open spec fn collected_answered<P: FnOnce(&[u8]) -> Result<(), String>>(
    round: StatusRoundView,
    pairs: Seq<(int, Seq<u8>)>,
    publish: P,
    reply: Reply,
) -> bool {
    if pairs.len() < THRESHOLD {
        fails(reply, "only "@ + decimal(pairs.len()) + " of 7 signatures arrived"@)
    } else {
        exists|r: Result<Vec<u8>, MlDsaStatusListError>|
            #[trigger] record_built(round, pairs, r) && record_answered(round, r, publish, reply)
    }
}

/// Finishes a round with the signatures that were collected. Where they are too few, or
/// make no record, nothing is published.
pub fn finish_round<P: FnOnce(&[u8]) -> Result<(), String>>(
    round: &StatusRound,
    done: StatusCollector,
    publish: P,
) -> (reply: Reply)
    requires
        forall|b: &[u8]|
            may_publish(round@, done.pairs(), b@) ==> #[trigger] call_requires(publish, (b,)),
    ensures
        collected_answered(round@, done.pairs(), publish, reply),
{
    reveal(collected_answered);
    match shortfall(done.count()) {
        Some(reply) => {
            return reply;
        },
        None => {},
    }
    let ghost pairs = done.pairs();
    let built = build_record(round, done.into_quorum());
    assert(record_built(round@, pairs, built));
    let reply = match &built {
        Err(e) => {
            let text = e.text();
            failure(text.as_str())
        },
        Ok(bytes) => {
            let answer = publish(bytes.as_slice());
            assert(publish_asked(publish, bytes@, answer));
            let ghost kept = answer;
            let reply = round.close(answer);
            assert(close_reply(round@, kept, reply));
            reply
        },
    };
    assert(record_answered(round@, built, publish, reply));
    reply
}

/// Whether `broadcast` sent this proposal and answers are taken from `next`.
pub open spec fn broadcast_asked<N: Fn(usize) -> Option<(usize, Signature)>, B: FnOnce(&[u8]) -> N>(
    broadcast: B,
    proposal: Seq<u8>,
    next: N,
) -> bool {
    exists|b: &[u8]| b@ == proposal && #[trigger] call_ensures(broadcast, (b,), next)
}

/// Whether a round whose answers come from `next` was answered so.
pub open spec fn gathered_answered<
    N: Fn(usize) -> Option<(usize, Signature)>,
    P: FnOnce(&[u8]) -> Result<(), String>,
>(
    anchor: MlDsaAnchor,
    round: StatusRoundView,
    next: N,
    publish: P,
    reply: Reply,
) -> bool {
    exists|pairs: Seq<(int, Seq<u8>)>|
        {
            &&& #[trigger] gathered(
                anchor,
                anchor.statement(round.list, round.version),
                next,
                pairs,
            )
            &&& collected_answered(round, pairs, publish, reply)
        }
}

/// Whether a round whose answers come from `next` may publish these bytes: they are the
/// record of what it collected.
pub open spec fn gathered_may_publish<N: Fn(usize) -> Option<(usize, Signature)>>(
    anchor: MlDsaAnchor,
    round: StatusRoundView,
    next: N,
    bytes: Seq<u8>,
) -> bool {
    exists|pairs: Seq<(int, Seq<u8>)>|
        {
            &&& #[trigger] gathered(
                anchor,
                anchor.statement(round.list, round.version),
                next,
                pairs,
            )
            &&& may_publish(round, pairs, bytes)
        }
}

/// Whether an opened round may publish these bytes: they are the record of what came back
/// when its proposal was sent to everyone.
pub open spec fn round_may_publish<
    N: Fn(usize) -> Option<(usize, Signature)>,
    B: FnOnce(&[u8]) -> N,
>(anchor: MlDsaAnchor, round: StatusRoundView, broadcast: B, bytes: Seq<u8>) -> bool {
    exists|next: N|
        {
            &&& #[trigger] broadcast_asked(
                broadcast,
                proposal_bytes(round.version, round.list),
                next,
            )
            &&& gathered_may_publish(anchor, round, next, bytes)
        }
}

/// Whether a request may send these bytes to everyone: it opened a round, and they are
/// its proposal.
pub open spec fn request_may_broadcast(
    opened: Result<StatusRoundView, Seq<char>>,
    bytes: Seq<u8>,
) -> bool {
    opened is Ok && bytes == proposal_bytes(opened->Ok_0.version, opened->Ok_0.list)
}

/// Whether a request may publish these bytes: it opened a round that may.
pub open spec fn request_may_publish<
    N: Fn(usize) -> Option<(usize, Signature)>,
    B: FnOnce(&[u8]) -> N,
>(
    anchor: MlDsaAnchor,
    opened: Result<StatusRoundView, Seq<char>>,
    broadcast: B,
    bytes: Seq<u8>,
) -> bool {
    opened is Ok && round_may_publish(anchor, opened->Ok_0, broadcast, bytes)
}

/// Whether a round that was opened, or was not, was answered so.
pub open spec fn request_answered<
    N: Fn(usize) -> Option<(usize, Signature)>,
    B: FnOnce(&[u8]) -> N,
    P: FnOnce(&[u8]) -> Result<(), String>,
>(
    anchor: MlDsaAnchor,
    opened: Result<StatusRoundView, Seq<char>>,
    broadcast: B,
    publish: P,
    reply: Reply,
) -> bool {
    match opened {
        Err(why) => fails(reply, why),
        Ok(round) => opened_answered(anchor, round, broadcast, publish, reply),
    }
}

/// Whether an opened round was answered so: its proposal is sent to everyone, and what
/// comes back decides.
pub open spec fn opened_answered<
    N: Fn(usize) -> Option<(usize, Signature)>,
    B: FnOnce(&[u8]) -> N,
    P: FnOnce(&[u8]) -> Result<(), String>,
>(
    anchor: MlDsaAnchor,
    round: StatusRoundView,
    broadcast: B,
    publish: P,
    reply: Reply,
) -> bool {
    exists|next: N|
        {
            &&& #[trigger] broadcast_asked(
                broadcast,
                proposal_bytes(round.version, round.list),
                next,
            )
            &&& gathered_answered(anchor, round, next, publish, reply)
        }
}

/// Runs an opened round to its end.
pub fn run_opened_round<
    N: Fn(usize) -> Option<(usize, Signature)>,
    B: FnOnce(&[u8]) -> N,
    P: FnOnce(&[u8]) -> Result<(), String>,
>(committee: &Committee, round: &StatusRound, broadcast: B, publish: P) -> (reply: Reply)
    requires
        forall|b: &[u8]|
            b@ == proposal_bytes(round@.version, round@.list) ==> #[trigger] call_requires(
                broadcast,
                (b,),
            ),
        forall|b: &[u8], n: N| call_ensures(broadcast, (b,), n) ==> may_wait(n),
        forall|b: &[u8]|
            round_may_publish(committee@, round@, broadcast, b@) ==> #[trigger] call_requires(
                publish,
                (b,),
            ),
    ensures
        opened_answered(committee@, round@, broadcast, publish, reply),
{
    let proposal = round.proposal();
    let next = broadcast(proposal.as_slice());
    proof {
        let sent = proposal_bytes(round@.version, round@.list);
        assert(broadcast_asked(broadcast, sent, next));
    }
    let reply = gather_and_finish(committee, round, next, publish);
    reply
}

fn gather_and_finish<
    N: Fn(usize) -> Option<(usize, Signature)>,
    P: FnOnce(&[u8]) -> Result<(), String>,
>(committee: &Committee, round: &StatusRound, next: N, publish: P) -> (reply: Reply)
    requires
        may_wait(next),
        forall|b: &[u8]|
            gathered_may_publish(committee@, round@, next, b@) ==> #[trigger] call_requires(
                publish,
                (b,),
            ),
    ensures
        gathered_answered(committee@, round@, next, publish, reply),
{
    let collector = StatusCollector::new(committee, round.list.as_slice(), round.version);
    let ghost waiting = next;
    let done = collect_signatures(collector, next);
    let ghost (statement, pairs) = (done.asked(), done.pairs());
    proof {
        assert(statement == committee@.statement(round@.list, round@.version));
        assert(gathered(committee@, statement, waiting, pairs));
    }
    let reply = finish_round(round, done, publish);
    proof {
        assert(collected_answered(round@, pairs, publish, reply));
    }
    reply
}

/// The aggregator's side of a round, from the request to the answer. `current` is the
/// published record. A refused request sends nothing to anyone, and nothing but the
/// record of a quorum is published.
pub fn on_status_request<
    N: Fn(usize) -> Option<(usize, Signature)>,
    B: FnOnce(&[u8]) -> N,
    P: FnOnce(&[u8]) -> Result<(), String>,
>(
    committee: &Committee,
    index: usize,
    payload: &[u8],
    current: Option<&[u8]>,
    broadcast: B,
    publish: P,
) -> (reply: Reply)
    requires
        forall|id: Seq<u8>, opened: Result<StatusRoundView, Seq<char>>, b: &[u8]|
            id.len() == 16 && #[trigger] status_round(payload@, latest_view(current), index, id, opened) && request_may_broadcast(
                opened,
                b@,
            ) ==> #[trigger] call_requires(broadcast, (b,)),
        forall|b: &[u8], n: N| call_ensures(broadcast, (b,), n) ==> may_wait(n),
        forall|id: Seq<u8>, opened: Result<StatusRoundView, Seq<char>>, b: &[u8]|
            id.len() == 16 && #[trigger] status_round(payload@, latest_view(current), index, id, opened) && request_may_publish(
                committee@,
                opened,
                broadcast,
                b@,
            ) ==> #[trigger] call_requires(publish, (b,)),
    ensures
        exists|id: Seq<u8>, opened: Result<StatusRoundView, Seq<char>>|
            {
                &&& id.len() == 16
                &&& #[trigger] status_round(payload@, latest_view(current), index, id, opened)
                &&& request_answered(committee@, opened, broadcast, publish, reply)
            },
{
    let opened = begin_status_round(index, payload, current);
    let ghost view = round_view(opened);
    let reply = match &opened {
        Err(why) => failure(why.as_str()),
        Ok(round) => run_opened_round(committee, round, broadcast, publish),
    };
    assert(request_answered(committee@, view, broadcast, publish, reply));
    reply
}

proof fn lemma_tally(anchor: MlDsaAnchor, statement: Seq<u8>, arrivals: Seq<(int, Seq<u8>)>)
    requires
        forall|k: int| 0 <= k < arrivals.len() ==> 0 <= (#[trigger] arrivals[k]).0,
    ensures
        ({
            let pairs = tally(anchor, statement, arrivals);
            &&& distinct_indices(pairs)
            &&& indices_below(pairs, anchor.members.len() as int)
            &&& all_verify(anchor, statement, pairs)
            &&& pairs.len() <= THRESHOLD
            &&& forall|k: int| 0 <= k < pairs.len() ==> 0 <= (#[trigger] pairs[k]).0
        }),
    decreases arrivals.len(),
{
    if arrivals.len() > 0 {
        let earlier = arrivals.drop_last();
        assert forall|k: int| 0 <= k < earlier.len() implies 0 <= (#[trigger] earlier[k]).0 by {
            assert(earlier[k] == arrivals[k]);
        }
        lemma_tally(anchor, statement, earlier);
        let before = tally(anchor, statement, earlier);
        let after = tally(anchor, statement, arrivals);
        let pair = arrivals.last();
        assert(arrivals[arrivals.len() - 1] == pair);
        if after != before {
            crate::demo::aggregator::lemma_pushed(before, pair, anchor.members.len() as int);
            assert forall|k: int| 0 <= k < after.len() implies ml_dsa_65_verifies(
                anchor.members[(#[trigger] after[k]).0],
                statement,
                Seq::empty(),
                after[k].1,
            ) && 0 <= after[k].0 by {
                if k < before.len() {
                    assert(after[k] == before[k]);
                }
            }
        }
    }
}

/// Nothing but a record that is authorized under the anchor is published: it is that of
/// the round's list and version, with the signatures of a quorum behind it.
pub proof fn law_only_an_authorized_record_is_published<
    N: Fn(usize) -> Option<(usize, Signature)>,
    B: FnOnce(&[u8]) -> N,
>(
    anchor: MlDsaAnchor,
    opened: Result<StatusRoundView, Seq<char>>,
    broadcast: B,
    bytes: Seq<u8>,
)
    requires
        anchor.wf(),
        anchor.members.len() == N_MEMBERS,
        anchor.threshold == THRESHOLD,
        request_may_publish(anchor, opened, broadcast, bytes),
    ensures
        opened is Ok,
        exists|record: Body|
            {
                &&& bytes == #[trigger] record.encode(ALGORITHM_TAG)
                &&& record.list == opened->Ok_0.list
                &&& record.version == opened->Ok_0.version
                &&& authorized(anchor, record)
            },
{
    let round = opened->Ok_0;
    let statement = anchor.statement(round.list, round.version);
    let next = choose|next: N|
        {
            &&& #[trigger] broadcast_asked(
                broadcast,
                proposal_bytes(round.version, round.list),
                next,
            )
            &&& gathered_may_publish(anchor, round, next, bytes)
        };
    let pairs = choose|pairs: Seq<(int, Seq<u8>)>|
        #[trigger] gathered(anchor, statement, next, pairs) && may_publish(round, pairs, bytes);
    let arrivals = choose|arrivals: Seq<(int, Seq<u8>)>|
        {
            &&& all_arrived(next, arrivals)
            &&& pairs == #[trigger] tally(anchor, statement, arrivals)
            &&& stopped(next, arrivals.len(), pairs.len())
        };
    assert forall|k: int| 0 <= k < arrivals.len() implies 0 <= (#[trigger] arrivals[k]).0 by {
        assert(arrived(next, k, arrivals[k]));
    }
    lemma_tally(anchor, statement, arrivals);
    law_a_completed_round_is_authorized(anchor, round.list, round.version, pairs);
    let record = assembled(round.list, round.version, pairs, N_MEMBERS as int);
    assert(bytes == record.encode(ALGORITHM_TAG));
}

proof fn lemma_snapshot_of_record(
    b: Seq<u8>,
    body: Body,
    next: Result<(u32, Seq<Seq<u8>>), Seq<char>>,
)
    requires
        decodes_to(b, Ok(body)),
        body.version < u32::MAX,
    ensures
        next_snapshot(Some(b), next) <==> next == Ok::<(u32, Seq<Seq<u8>>), Seq<char>>(
            ((body.version + 1) as u32, body.list),
        ),
{
    let read: Result<Body, MlDsaStatusListError> = Ok(body);
    let follows: Result<(u32, Seq<Seq<u8>>), Seq<char>> = Ok(
        ((body.version + 1) as u32, body.list),
    );
    assert(decodes_to(b, read) && version_after(read, follows));
}

proof fn lemma_asked(action: u8, data: Seq<u8>)
    ensures
        ({
            let payload = action_bytes(action, data);
            &&& tail_framed(payload, 1)
            &&& payload[0] == action
            &&& tail(payload, 1) == data
        }),
{
    law_a_tail_is_read_back(seq![action], data);
    assert(action_bytes(action, data)[0] == action_bytes(action, data).subrange(0, 1)[0]);
}

/// Every listed credential can be taken off, wherever its fingerprint stands: asking for it
/// opens a round at the version after the published one, whose list is the published list
/// without that one entry, in the same order.
pub proof fn law_every_listed_credential_can_be_revoked(
    data: Seq<u8>,
    b: Seq<u8>,
    body: Body,
    i: int,
    index: usize,
    id: Seq<u8>,
    r: Result<StatusRoundView, Seq<char>>,
)
    requires
        status_round(action_bytes(2, data), Some(b), index, id, r),
        decodes_to(b, Ok(body)),
        body.version < u32::MAX,
        data.len() > 0,
        0 <= i < body.list.len(),
        body.list[i] == sha3_256(data),
    ensures
        r is Ok,
        r->Ok_0.version == body.version + 1,
        r->Ok_0.credential == data,
        !body.list.subrange(0, i).contains(sha3_256(data)) ==> r->Ok_0.list == body.list.remove(i),
        r->Ok_0.list.len() + 1 == body.list.len(),
        no_entry_twice(body.list) ==> r->Ok_0.list == body.list.remove(i)
            && !r->Ok_0.list.contains(sha3_256(data)),
{
    lemma_asked(2, data);
    let payload = action_bytes(2, data);
    let next = choose|next: Result<(u32, Seq<Seq<u8>>), Seq<char>>| #[trigger]
        next_snapshot(Some(b), next) && match next {
            Err(why) => r == Err::<StatusRoundView, Seq<char>>(why),
            Ok(parts) => changed(payload[0], tail(payload, 1), parts, index, id, r),
        };
    lemma_snapshot_of_record(b, body, next);
    let entry = sha3_256(data);
    assert(body.list.contains(entry));
    let j = choose|j: int|
        #![trigger body.list.remove(j)]
        {
            &&& 0 <= j < body.list.len()
            &&& body.list[j] == entry
            &&& forall|k: int| 0 <= k < j ==> #[trigger] body.list[k] != entry
            &&& r->Ok_0.list == body.list.remove(j)
        };
    assert(j <= i);
    if j < i {
        assert(body.list.subrange(0, i)[j] == entry);
    }
    if no_entry_twice(body.list) {
        assert(j == i);
        law_a_revoked_entry_is_gone(body.list, i, entry);
    }
}

/// A credential that the published list does not hold, and an empty one, cannot be taken
/// off: nothing is opened.
pub proof fn law_only_a_listed_credential_can_be_revoked(
    data: Seq<u8>,
    b: Seq<u8>,
    body: Body,
    index: usize,
    id: Seq<u8>,
    r: Result<StatusRoundView, Seq<char>>,
)
    requires
        status_round(action_bytes(2, data), Some(b), index, id, r),
        decodes_to(b, Ok(body)),
        body.version < u32::MAX,
    ensures
        r is Ok <==> data.len() > 0 && exists|i: int|
            0 <= i < body.list.len() && #[trigger] body.list[i] == sha3_256(data),
        r is Err ==> r->Err_0 == "credential is absent from the current snapshot"@,
{
    lemma_asked(2, data);
    let payload = action_bytes(2, data);
    let next = choose|next: Result<(u32, Seq<Seq<u8>>), Seq<char>>| #[trigger]
        next_snapshot(Some(b), next) && match next {
            Err(why) => r == Err::<StatusRoundView, Seq<char>>(why),
            Ok(parts) => changed(payload[0], tail(payload, 1), parts, index, id, r),
        };
    lemma_snapshot_of_record(b, body, next);
}

/// A request to issue opens a round at the version after the published one: its credential
/// is the canonical form of the text for the subject, that version, the member and the
/// identifier, and its list is the published one with the credential's fingerprint behind
/// it. Only a subject that is empty or no text, a credential without a canonical form and a
/// fingerprint that is already listed open none.
pub proof fn law_an_issued_credential_is_listed_at_its_version(
    subject: Seq<char>,
    current: Option<(Seq<u8>, Body)>,
    index: usize,
    id: Seq<u8>,
    r: Result<StatusRoundView, Seq<char>>,
)
    requires
        subject.len() > 0,
        current is Some ==> decodes_to((current->0).0, Ok((current->0).1))
            && (current->0).1.version < u32::MAX,
        status_round(
            action_bytes(1, encode_utf8(subject)),
            match current {
                Some(c) => Some(c.0),
                None => None,
            },
            index,
            id,
            r,
        ),
    ensures
        ({
            let version: u32 = match current {
                Some(c) => (c.1.version + 1) as u32,
                None => 0,
            };
            let list = match current {
                Some(c) => c.1.list,
                None => Seq::empty(),
            };
            let minted = jcs_canonical(
                credential_text(json_quoted(subject), version, index, id),
            );
            match r {
                Ok(round) => {
                    &&& minted == Some(round.credential)
                    &&& round.version == version
                    &&& !list.contains(sha3_256(round.credential))
                    &&& round.list == list.push(sha3_256(round.credential))
                },
                Err(why) => {
                    ||| minted is None && why == "credential cannot be serialised"@
                    ||| {
                        &&& minted is Some && list.contains(sha3_256(minted->0))
                        &&& why == "new credential fingerprint already exists"@
                    }
                },
            }
        }),
{
    let data = encode_utf8(subject);
    vstd::utf8::encode_utf8_valid_utf8(subject);
    vstd::utf8::encode_utf8_decode_utf8(subject);
    lemma_asked(1, data);
    let payload = action_bytes(1, data);
    let there: Option<Seq<u8>> = match current {
        Some(c) => Some(c.0),
        None => None,
    };
    let next = choose|next: Result<(u32, Seq<Seq<u8>>), Seq<char>>| #[trigger]
        next_snapshot(there, next) && match next {
            Err(why) => r == Err::<StatusRoundView, Seq<char>>(why),
            Ok(parts) => changed(payload[0], tail(payload, 1), parts, index, id, r),
        };
    if current is Some {
        lemma_snapshot_of_record((current->0).0, (current->0).1, next);
    }
}

/// A subject that is empty or no text is refused, and so is every action but issuing and
/// revoking, whatever is published and can be followed.
pub proof fn law_other_requests_open_nothing(
    action: u8,
    data: Seq<u8>,
    b: Seq<u8>,
    body: Body,
    index: usize,
    id: Seq<u8>,
    r: Result<StatusRoundView, Seq<char>>,
)
    requires
        status_round(action_bytes(action, data), Some(b), index, id, r),
        decodes_to(b, Ok(body)),
        body.version < u32::MAX,
    ensures
        action == 1 && !valid_utf8(data) ==> r == Err::<StatusRoundView, Seq<char>>(
            "credential subject is empty or not UTF-8"@,
        ),
        action == 1 && valid_utf8(data) && decode_utf8(data) == Seq::<char>::empty() ==> r == Err::<
            StatusRoundView,
            Seq<char>,
        >("credential subject is empty or not UTF-8"@),
        action != 1 && action != 2 ==> r == Err::<StatusRoundView, Seq<char>>(
            "unknown status action "@ + decimal(action as nat),
        ),
{
    lemma_asked(action, data);
    let payload = action_bytes(action, data);
    let next = choose|next: Result<(u32, Seq<Seq<u8>>), Seq<char>>| #[trigger]
        next_snapshot(Some(b), next) && match next {
            Err(why) => r == Err::<StatusRoundView, Seq<char>>(why),
            Ok(parts) => changed(payload[0], tail(payload, 1), parts, index, id, r),
        };
    lemma_snapshot_of_record(b, body, next);
}

/// What an issuing round appended, a later revoking round for that credential takes off
/// again: the list is the one from before, two versions on.
pub proof fn law_revoking_takes_back_what_was_issued(
    subject: Seq<char>,
    first: (Seq<u8>, Body),
    second: (Seq<u8>, Body),
    index: usize,
    ids: (Seq<u8>, Seq<u8>),
    issued: StatusRoundView,
    r: Result<StatusRoundView, Seq<char>>,
)
    requires
        subject.len() > 0,
        decodes_to(first.0, Ok(first.1)),
        first.1.version + 1 < u32::MAX,
        status_round(
            action_bytes(1, encode_utf8(subject)),
            Some(first.0),
            index,
            ids.0,
            Ok(issued),
        ),
        issued.credential.len() > 0,
        decodes_to(second.0, Ok(second.1)),
        second.1.version == issued.version,
        second.1.list == issued.list,
        status_round(action_bytes(2, issued.credential), Some(second.0), index, ids.1, r),
    ensures
        r is Ok,
        r->Ok_0.list == first.1.list,
        r->Ok_0.version == first.1.version + 2,
        r->Ok_0.credential == issued.credential,
{
    law_an_issued_credential_is_listed_at_its_version(
        subject,
        Some(first),
        index,
        ids.0,
        Ok(issued),
    );
    let entry = sha3_256(issued.credential);
    let n = first.1.list.len() as int;
    assert(second.1.list[n] == entry);
    assert(second.1.list.subrange(0, n) =~= first.1.list);
    law_every_listed_credential_can_be_revoked(
        issued.credential,
        second.0,
        second.1,
        n,
        index,
        ids.1,
        r,
    );
    assert(second.1.list.remove(n) =~= first.1.list);
}

/// What is published and cannot be followed opens nothing: the request is told that the
/// record is unreadable, or that the versions are used up.
pub proof fn law_an_unusable_record_opens_nothing(
    action: u8,
    data: Seq<u8>,
    b: Seq<u8>,
    decoded: Result<Body, MlDsaStatusListError>,
    index: usize,
    id: Seq<u8>,
    r: Result<StatusRoundView, Seq<char>>,
)
    requires
        status_round(action_bytes(action, data), Some(b), index, id, r),
        decodes_to(b, decoded),
        decoded is Err || decoded->Ok_0.version == u32::MAX,
    ensures
        r is Err,
        decoded is Ok ==> r->Err_0 == "status-list version exhausted"@,
        decoded is Err ==> exists|e: MlDsaStatusListError|
            #[trigger] decodes_to(b, Err(e)) && r->Err_0 == "published record is unreadable: "@
                + e.message(),
{
    lemma_asked(action, data);
    let payload = action_bytes(action, data);
    let next = choose|next: Result<(u32, Seq<Seq<u8>>), Seq<char>>| #[trigger]
        next_snapshot(Some(b), next) && match next {
            Err(why) => r == Err::<StatusRoundView, Seq<char>>(why),
            Ok(parts) => changed(payload[0], tail(payload, 1), parts, index, id, r),
        };
    let read = choose|decoded: Result<Body, MlDsaStatusListError>|
        decodes_to(b, decoded) && #[trigger] version_after(decoded, next);
    assert(decodes_to(b, read) && version_after(read, next));
    if read is Err {
        assert(decodes_to(b, Err(read->Err_0)));
    }
}

/// An answer is taken for what its member sent: a canonical signature is that signature, and
/// an answer of another kind, without a signature or with one that is not canonical, is none.
pub proof fn law_an_answer_is_taken_for_what_was_sent(
    signature: Seq<u8>,
    reason: Seq<u8>,
    kind: u8,
    payload: Seq<u8>,
)
    requires
        signature.len() <= 65536,
    ensures
        canonical_signature(signature) ==> answer_of(3, ml_dsa_signed_reply(signature)) == Some(
            signature,
        ),
        !canonical_signature(signature) ==> answer_of(3, ml_dsa_signed_reply(signature)) is None,
        answer_of(3, pair_bytes(Seq::empty(), reason)) is None,
        kind != 3 ==> answer_of(kind, payload) is None,
        !ml_dsa_reply_framed(payload) ==> answer_of(kind, payload) is None,
{
    law_a_stateless_signature_is_read_back(signature, reason);
}

/// One more answer counts exactly when seven signatures do not count yet, the member is one
/// of the committee and was not counted before, and the signature verifies under that
/// member's key over the round's statement; otherwise what counts stays as it was.
pub proof fn law_a_verifying_signature_counts_once(
    anchor: MlDsaAnchor,
    statement: Seq<u8>,
    arrivals: Seq<(int, Seq<u8>)>,
    arrival: (int, Seq<u8>),
)
    requires
        arrival.0 >= 0,
    ensures
        tally(anchor, statement, Seq::empty()) == Seq::<(int, Seq<u8>)>::empty(),
        ({
            let before = tally(anchor, statement, arrivals);
            let there = exists|k: int| 0 <= k < before.len() && (#[trigger] before[k]).0 == arrival.0;
            tally(anchor, statement, arrivals.push(arrival)) == if before.len() < 7 && arrival.0
                < anchor.members.len() && !there && ml_dsa_65_verifies(
                anchor.members[arrival.0],
                statement,
                Seq::empty(),
                arrival.1,
            ) {
                before.push(arrival)
            } else {
                before
            }
        }),
{
    let before = tally(anchor, statement, arrivals);
    let there = exists|k: int| 0 <= k < before.len() && (#[trigger] before[k]).0 == arrival.0;
    assert(there == named(before, arrival.0));
    assert(arrivals.push(arrival).drop_last() =~= arrivals);
}

/// When every answer is a verifying signature by another member, the first seven count, in
/// the order they came.
pub proof fn law_the_first_seven_verifying_signatures_count(
    anchor: MlDsaAnchor,
    statement: Seq<u8>,
    arrivals: Seq<(int, Seq<u8>)>,
)
    requires
        distinct_indices(arrivals),
        forall|k: int|
            0 <= k < arrivals.len() ==> 0 <= (#[trigger] arrivals[k]).0 < anchor.members.len()
                && ml_dsa_65_verifies(
                anchor.members[arrivals[k].0],
                statement,
                Seq::empty(),
                arrivals[k].1,
            ),
    ensures
        tally(anchor, statement, arrivals) == arrivals.subrange(
            0,
            if arrivals.len() < 7 {
                arrivals.len() as int
            } else {
                7
            },
        ),
    decreases arrivals.len(),
{
    if arrivals.len() == 0 {
        assert(arrivals.subrange(0, 0) =~= Seq::<(int, Seq<u8>)>::empty());
    } else {
        let earlier = arrivals.drop_last();
        let arrival = arrivals.last();
        assert(distinct_indices(earlier));
        assert forall|k: int| 0 <= k < earlier.len() implies 0 <= (#[trigger] earlier[k]).0
            < anchor.members.len() && ml_dsa_65_verifies(
            anchor.members[earlier[k].0],
            statement,
            Seq::empty(),
            earlier[k].1,
        ) by {
            assert(earlier[k] == arrivals[k]);
        }
        law_the_first_seven_verifying_signatures_count(anchor, statement, earlier);
        let before = tally(anchor, statement, earlier);
        assert(arrivals[arrivals.len() - 1] == arrival);
        assert forall|k: int| 0 <= k < before.len() implies (#[trigger] before[k]).0
            != arrival.0 by {
            assert(before[k] == arrivals[k]);
        }
        if arrivals.len() <= 7 {
            assert(tally(anchor, statement, arrivals) =~= arrivals.subrange(
                0,
                arrivals.len() as int,
            ));
        } else {
            assert(earlier.subrange(0, 7) =~= arrivals.subrange(0, 7));
        }
    }
}

/// A quorum of at most ten distinct members of the committee is built into a record whenever
/// it fits, and the record decodes to the round's own list and version with those members'
/// bits and signatures.
pub proof fn law_a_built_record_holds_the_round_and_its_signers(
    round: StatusRoundView,
    pairs: Seq<(int, Seq<u8>)>,
    r: Result<Vec<u8>, MlDsaStatusListError>,
)
    requires
        record_built(round, pairs, r),
        all_width(round.list, 32),
        forall|k: int|
            0 <= k < pairs.len() ==> 0 <= (#[trigger] pairs[k]).0 && canonical_signature(
                pairs[k].1,
            ),
    ensures
        r is Ok <==> {
            &&& pairs.len() <= 10
            &&& distinct_indices(pairs)
            &&& indices_below(pairs, 10)
            &&& 17 + 32 * round.list.len() + 2 + 3309 * pairs.len() <= 67108864
        },
        r is Ok ==> exists|record: Body|
            {
                &&& #[trigger] decodes_to(r->Ok_0@, Ok(record))
                &&& record.list == round.list
                &&& record.version == round.version
                &&& record.bits.len() == 10
                &&& forall|i: int|
                    0 <= i < 10 ==> (#[trigger] record.bits[i] <==> exists|k: int|
                        0 <= k < pairs.len() && (#[trigger] pairs[k]).0 == i)
                &&& record.signatures.len() == pairs.len()
                &&& forall|k: int|
                    0 <= k < pairs.len() ==> record.signatures[count_set(
                        record.bits.subrange(0, (#[trigger] pairs[k]).0),
                    ) as int] == pairs[k].1
            },
{
    if r is Ok {
        let n = 10int;
        let body = assembled(round.list, round.version, pairs, n);
        law_every_signature_is_counted(pairs, n);
        lemma_set_indices(body.bits);
        assert forall|k: int| 0 <= k < body.signatures.len() implies canonical_signature(
            #[trigger] body.signatures[k],
        ) by {
            let i = set_indices(body.bits)[k];
            assert(named(pairs, i));
            let p = place_of(pairs, i);
            assert(pairs[p].0 == i);
        }
        assert forall|k: int| 0 <= k < body.signatures.len() implies (
        #[trigger] body.signatures[k]).len() == 3309 by {
            assert(canonical_signature(body.signatures[k]));
        }
        law_record_round_trip(body);
        assert forall|k: int| 0 <= k < pairs.len() implies body.signatures[count_set(
            body.bits.subrange(0, (#[trigger] pairs[k]).0),
        ) as int] == pairs[k].1 by {
            let i = pairs[k].0;
            assert(named(pairs, i));
            assert(body.bits[i]);
            law_a_set_bit_has_its_rank(body.bits, i);
            let p = place_of(pairs, i);
            assert(pairs[p].0 == i);
            assert(p == k) by {
                if p < k {
                    assert(pairs[p].0 != pairs[k].0);
                } else if k < p {
                    assert(pairs[k].0 != pairs[p].0);
                }
            }
        }
        assert(decodes_to(r->Ok_0@, Ok(body)));
    }
}

/// A round that collected fewer than seven signatures fails and says how many there were;
/// with seven the record that was built is published, and the update is reported exactly
/// when that succeeds.
pub proof fn law_an_update_is_reported_once_published<P: FnOnce(&[u8]) -> Result<(), String>>(
    round: StatusRoundView,
    pairs: Seq<(int, Seq<u8>)>,
    publish: P,
    reply: Reply,
)
    requires
        collected_answered(round, pairs, publish, reply),
    ensures
        pairs.len() < 7 ==> reply.kind == 5 && reply.payload@ == failure_bytes(
            "only "@ + decimal(pairs.len()) + " of 7 signatures arrived"@,
        ),
        pairs.len() >= 7 ==> exists|r: Result<Vec<u8>, MlDsaStatusListError>|
            {
                &&& #[trigger] record_built(round, pairs, r)
                &&& r is Err ==> reply.kind == 5 && reply.payload@ == failure_bytes(
                    r->Err_0.message(),
                )
                &&& r is Ok ==> exists|b: &[u8], answer: Result<(), String>|
                    {
                        &&& b@ == r->Ok_0@
                        &&& #[trigger] call_ensures(publish, (b,), answer)
                        &&& answer is Ok ==> reply.kind == 7 && reply.payload@ == versioned_bytes(
                            round.version,
                            round.credential,
                        )
                        &&& answer is Err ==> reply.kind == 5 && reply.payload@ == failure_bytes(
                            "cannot publish: "@ + answer->Err_0@,
                        )
                    }
            },
{
    reveal(collected_answered);
    if pairs.len() >= 7 {
        let r = choose|r: Result<Vec<u8>, MlDsaStatusListError>|
            #[trigger] record_built(round, pairs, r) && record_answered(round, r, publish, reply);
        assert(record_built(round, pairs, r));
        if r is Ok {
            let answer = choose|answer: Result<(), String>|
                #[trigger] publish_asked(publish, r->Ok_0@, answer) && close_reply(
                    round,
                    answer,
                    reply,
                );
            let b = choose|b: &[u8]|
                b@ == r->Ok_0@ && #[trigger] call_ensures(publish, (b,), answer);
            assert(call_ensures(publish, (b,), answer));
        }
    }
}

/// An opened round asks for what it is about: its proposal goes to everyone with its own
/// version and list, and the signatures that come back are counted for the statement of that
/// list and version. A request that opens none is answered with the reason.
pub proof fn law_an_opened_round_asks_for_its_own_list<
    N: Fn(usize) -> Option<(usize, Signature)>,
    B: FnOnce(&[u8]) -> N,
    P: FnOnce(&[u8]) -> Result<(), String>,
>(
    anchor: MlDsaAnchor,
    opened: Result<StatusRoundView, Seq<char>>,
    broadcast: B,
    publish: P,
    reply: Reply,
)
    requires
        request_answered(anchor, opened, broadcast, publish, reply),
    ensures
        opened is Err ==> reply.kind == 5 && failure_text(reply.payload@) == opened->Err_0,
        opened is Ok ==> exists|b: &[u8], next: N, pairs: Seq<(int, Seq<u8>)>|
            {
                &&& b@ == proposal_bytes(opened->Ok_0.version, opened->Ok_0.list)
                &&& #[trigger] call_ensures(broadcast, (b,), next)
                &&& #[trigger] gathered(
                    anchor,
                    anchor.statement(opened->Ok_0.list, opened->Ok_0.version),
                    next,
                    pairs,
                )
                &&& collected_answered(opened->Ok_0, pairs, publish, reply)
            },
{
    match opened {
        Err(why) => {
            law_a_reason_is_read_back(why);
        },
        Ok(round) => {
            let sent = proposal_bytes(round.version, round.list);
            let next = choose|next: N|
                {
                    &&& #[trigger] broadcast_asked(broadcast, sent, next)
                    &&& gathered_answered(anchor, round, next, publish, reply)
                };
            let b = choose|b: &[u8]| b@ == sent && #[trigger] call_ensures(broadcast, (b,), next);
            let statement = anchor.statement(round.list, round.version);
            let pairs = choose|pairs: Seq<(int, Seq<u8>)>|
                {
                    &&& #[trigger] gathered(anchor, statement, next, pairs)
                    &&& collected_answered(round, pairs, publish, reply)
                };
            assert(call_ensures(broadcast, (b,), next));
            assert(gathered(anchor, statement, next, pairs));
        },
    }
}

/// A round waits for answers until seven signatures count, nothing more comes or all ten
/// members have answered, and takes every answer in the order it came.
pub proof fn law_a_round_waits_for_what_it_needs<N: Fn(usize) -> Option<(usize, Signature)>>(
    anchor: MlDsaAnchor,
    statement: Seq<u8>,
    next: N,
    pairs: Seq<(int, Seq<u8>)>,
)
    requires
        gathered(anchor, statement, next, pairs),
    ensures
        exists|arrivals: Seq<(int, Seq<u8>)>|
            {
                &&& pairs == #[trigger] tally(anchor, statement, arrivals)
                &&& forall|k: int|
                    0 <= k < arrivals.len() ==> arrived(next, k, #[trigger] arrivals[k])
                &&& pairs.len() < 7 && arrivals.len() < 10 ==> call_ensures(
                    next,
                    (arrivals.len() as usize,),
                    None,
                )
            },
{
    let arrivals = choose|arrivals: Seq<(int, Seq<u8>)>|
        {
            &&& all_arrived(next, arrivals)
            &&& pairs == #[trigger] tally(anchor, statement, arrivals)
            &&& stopped(next, arrivals.len(), pairs.len())
        };
    assert(pairs == tally(anchor, statement, arrivals));
}

/// An answer that arrived is one that was handed out in its turn: its member and its
/// signature are those that came.
pub proof fn law_an_arrival_is_what_was_handed_out<N: Fn(usize) -> Option<(usize, Signature)>>(
    next: N,
    k: usize,
    arrival: (int, Seq<u8>),
)
    ensures
        arrived(next, k as int, arrival) <==> exists|member: usize, signature: Signature|
            {
                &&& member == arrival.0
                &&& signature@ == arrival.1
                &&& #[trigger] call_ensures(next, (k,), Some((member, signature)))
            },
{
    assert((k as int) as usize == k);
    if arrived(next, k as int, arrival) {
        let got = choose|got: (usize, Signature)|
            (got.0 as int, got.1@) == arrival && #[trigger] call_ensures(
                next,
                ((k as int) as usize,),
                Some(got),
            );
        assert(call_ensures(next, (k,), Some((got.0, got.1))));
    }
    if exists|member: usize, signature: Signature|
        {
            &&& member == arrival.0
            &&& signature@ == arrival.1
            &&& #[trigger] call_ensures(next, (k,), Some((member, signature)))
        } {
        let (member, signature) = choose|member: usize, signature: Signature|
            {
                &&& member == arrival.0
                &&& signature@ == arrival.1
                &&& #[trigger] call_ensures(next, (k,), Some((member, signature)))
            };
        let got = (member, signature);
        assert(call_ensures(next, ((k as int) as usize,), Some(got)));
    }
}

/// What a round may send and publish is what it is about: its own proposal, and the record
/// of at least seven signatures.
pub proof fn law_a_round_may_do_what_it_is_about(
    opened: Result<StatusRoundView, Seq<char>>,
    round: StatusRoundView,
    pairs: Seq<(int, Seq<u8>)>,
    bytes: Seq<u8>,
)
    ensures
        request_may_broadcast(opened, bytes) <==> opened is Ok && bytes == proposal_bytes(
            opened->Ok_0.version,
            opened->Ok_0.list,
        ),
        may_publish(round, pairs, bytes) ==> pairs.len() >= 7 && exists|record: Vec<u8>|
            record@ == bytes && #[trigger] record_built(round, pairs, Ok(record)),
{
    if may_publish(round, pairs, bytes) {
        let r = choose|r: Result<Vec<u8>, MlDsaStatusListError>|
            #[trigger] record_built(round, pairs, r) && r is Ok && r->Ok_0@ == bytes;
        assert(record_built(round, pairs, Ok(r->Ok_0)));
    }
}

} // verus!

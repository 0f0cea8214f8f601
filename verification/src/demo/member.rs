//! A committee member of the network.
//!
//! A member's defences are local: the counter that makes a second signature under
//! one slot unreachable, and the check that a proposal appends to what this member
//! signed last. Neither depends on the aggregator being honest.
use crate::bytes::{all_width, views};
use crate::demo::config::Mode;
use crate::demo::wire::{
    abstained_reply, failure_bytes, law_a_linked_proposal_is_read_back,
    law_an_abstention_carries_no_signature, linked_bytes, linked_framed,
    linked_list, linked_predecessor, linked_refusal, linked_version, reply_framed, reply_signatures, signed_reply,
    Failure, LinkedProposal, SignatureReply, MSG_FAILURE, MSG_PROPOSAL, MSG_SIGNATURE,
    MSG_VC_REQUEST,
};
use crate::node::signer::{
    law_a_free_slot_is_signed_at, may_sign, may_write, signs_at, SignerNode, SignerNodeError,
};
use crate::protocol::committee::{Anchor, Committee};
use crate::protocol::status_list::{
    decode_raw, decode_snark, Algorithms, RawRecord, SnarkRecord, SnarkStatusList, StatusList,
    StatusListError,
};
use crate::protocol::xmss::XmssSignature;
use crate::state::slot_counter::{CounterView, PendingWrite};
use crate::state::status_list_head::{
    head_of, law_an_honest_extension_is_accepted, law_history_starts_at_version_zero, successor_of,
    HeadView, SignedHead, SuccessorError,
};
use crate::text::{decimal, joined, push_decimal};
use vstd::prelude::*;
use vstd::string::*;

verus! {

/// An answer: the kind of the message and its payload.
#[derive(Debug)]
pub struct Reply {
    pub kind: u8,
    pub payload: Vec<u8>,
}

/// Whether an answer is this message.
pub open spec fn replies(r: Reply, kind: u8, payload: Seq<u8>) -> bool {
    r.kind == kind && r.payload@ == payload
}

/// Whether an answer is a failure for this reason.
pub open spec fn fails(r: Reply, reason: Seq<char>) -> bool {
    replies(r, MSG_FAILURE, failure_bytes(reason))
}

/// A failure for this reason.
pub fn failure(reason: &str) -> (r: Reply)
    ensures
        fails(r, reason@),
{
    Reply { kind: MSG_FAILURE, payload: Failure::of(reason) }
}

/// The part of a member that a request is for.
#[derive(Clone, Copy, PartialEq, Eq, Structural, Debug)]
pub enum Request {
    Proposal,
    Credential,
    Unknown,
}

/// Which part of a member a message is for.
pub fn request_of(kind: u8) -> (r: Request)
    ensures
        r == if kind == MSG_PROPOSAL {
            Request::Proposal
        } else if kind == MSG_VC_REQUEST {
            Request::Credential
        } else {
            Request::Unknown
        },
{
    if kind == MSG_PROPOSAL {
        Request::Proposal
    } else if kind == MSG_VC_REQUEST {
        Request::Credential
    } else {
        Request::Unknown
    }
}

/// The answer to a message that is for no part of a member.
pub fn unknown_kind(kind: u8) -> (r: Reply)
    ensures
        fails(r, "unknown message type "@ + decimal(kind as nat)),
{
    let mut text: String = "unknown message type ".to_owned();
    push_decimal(&mut text, kind as u64);
    failure(text.as_str())
}

// ---- the published list ------------------------------------------------------

/// The version and list that a published record carries, in the form the mode
/// publishes.
pub open spec fn published_list(mode: Mode, b: Seq<u8>) -> Result<
    (u32, Seq<Seq<u8>>),
    StatusListError,
> {
    match mode {
        Mode::Raw => match decode_raw(b) {
            Ok(r) => Ok((r.version, r.list)),
            Err(e) => Err(e),
        },
        Mode::Snark => match decode_snark(b) {
            Ok(r) => Ok((r.version, r.list)),
            Err(e) => Err(e),
        },
    }
}

/// The version and list that a published record carries.
pub fn decode_list(mode: Mode, bytes: &[u8]) -> (r: Result<(u32, Vec<[u8; 32]>), StatusListError>)
    ensures
        match r {
            Ok(parts) => published_list(mode, bytes@) == Ok::<_, StatusListError>(
                (parts.0, views(parts.1@)),
            ),
            Err(e) => published_list(mode, bytes@) == Err::<(u32, Seq<Seq<u8>>), StatusListError>(e),
        },
{
    match mode {
        Mode::Raw => match StatusList::from_bytes(bytes) {
            Ok(record) => Ok((record.version(), record.list_cloned())),
            Err(e) => Err(e),
        },
        Mode::Snark => match SnarkStatusList::from_bytes(bytes) {
            Ok(record) => Ok((record.version(), record.list_cloned())),
            Err(e) => Err(e),
        },
    }
}

/// Re-establishes the head after a restart from the latest record, which the caller
/// has authenticated. While a member runs, storage is never consulted again to
/// authorize a transition.
pub fn recover_signed_head(mode: Mode, committee: &Committee, latest: Option<&[u8]>) -> (r: Result<
    Option<SignedHead>,
    StatusListError,
>)
    ensures
        match latest {
            None => r is Ok && r->Ok_0 is None,
            Some(bytes) => match published_list(mode, bytes@) {
                Ok(parts) => r is Ok && r->Ok_0 is Some && r->Ok_0->0@ == head_of(
                    committee@.domain(Algorithms::WotsXmss),
                    parts.1,
                    parts.0,
                ),
                Err(e) => r is Err && r->Err_0 == e,
            },
        },
{
    match latest {
        None => Ok(None),
        Some(bytes) => match decode_list(mode, bytes) {
            Ok((version, list)) => {
                let domain = committee.domain(Algorithms::WotsXmss);
                Ok(Some(SignedHead::from_authenticated(&domain, version, list.as_slice())))
            },
            Err(e) => Err(e),
        },
    }
}

// ---- the member's side of a round --------------------------------------------

/// What a member answers to being asked for `list` at `version` behind
/// `predecessor`, and what becomes of its head and counter. What does not follow the
/// signed head, or has no slot, is abstained from; otherwise the slot is derived,
/// never taken from the proposal, and the head moves only by a signature.
pub open spec fn step_answered<
    P: FnOnce(&PendingWrite) -> Result<(), String>,
    S: FnOnce(u32, &[u8; 32]) -> Result<XmssSignature, String>,
>(
    anchor: Anchor,
    before: (Option<HeadView>, CounterView),
    asked: (Seq<u8>, u32, Seq<Seq<u8>>),
    persist: P,
    sign: S,
    reply: Reply,
    after: (Option<HeadView>, CounterView),
) -> bool {
    match successor_of(anchor.domain(Algorithms::WotsXmss), before.0, asked.0, asked.1, asked.2) {
        Err(why) => replies(reply, MSG_SIGNATURE, abstained_reply(why.message())) && after
            == before,
        Ok(next) => match anchor.slot(asked.1) {
            None => replies(
                reply,
                MSG_SIGNATURE,
                abstained_reply("version has no slot under this anchor"@),
            ) && after == before,
            Some(slot) => signing_answered(
                before,
                (next, slot, anchor.message(Algorithms::WotsXmss, asked.2, asked.1)),
                persist,
                sign,
                reply,
                after,
            ),
        },
    }
}

/// Whether being asked for a list may make a member write this: the proposal follows the
/// signed head, and the write spends the slot that the anchor derives.
pub open spec fn step_may_write(
    anchor: Anchor,
    before: (Option<HeadView>, CounterView),
    asked: (Seq<u8>, u32, Seq<Seq<u8>>),
    w: PendingWrite,
) -> bool {
    &&& follows_head(anchor, before.0, asked)
    &&& may_write(before.1, anchor.slot(asked.1)->0, w)
}

/// Whether being asked for a list may make a member's key sign `m` at `s`: the proposal
/// follows the signed head, they are the message and the slot that the anchor derives,
/// and the slot was durably spent before.
pub open spec fn step_may_sign<P: FnOnce(&PendingWrite) -> Result<(), String>>(
    anchor: Anchor,
    before: (Option<HeadView>, CounterView),
    asked: (Seq<u8>, u32, Seq<Seq<u8>>),
    persist: P,
    s: u32,
    m: Seq<u8>,
) -> bool {
    &&& follows_head(anchor, before.0, asked)
    &&& may_sign(
        before.1,
        anchor.slot(asked.1)->0,
        anchor.message(Algorithms::WotsXmss, asked.2, asked.1),
        persist,
        s,
        m,
    )
}

/// Whether a proposal follows the signed head and its version has a slot.
pub open spec fn follows_head(
    anchor: Anchor,
    head: Option<HeadView>,
    asked: (Seq<u8>, u32, Seq<Seq<u8>>),
) -> bool {
    &&& successor_of(
        anchor.domain(Algorithms::WotsXmss),
        head,
        asked.0,
        asked.1,
        asked.2,
    ) is Ok
    &&& anchor.slot(asked.1) is Some
}

/// What a member answers once it decided to sign: some outcome of signing at the
/// slot, and the answer for it.
pub open spec fn signing_answered<
    P: FnOnce(&PendingWrite) -> Result<(), String>,
    S: FnOnce(u32, &[u8; 32]) -> Result<XmssSignature, String>,
>(
    before: (Option<HeadView>, CounterView),
    step: (HeadView, u32, Seq<u8>),
    persist: P,
    sign: S,
    reply: Reply,
    after: (Option<HeadView>, CounterView),
) -> bool {
    exists|r: Result<XmssSignature, SignerNodeError>|
        {
            &&& #[trigger] signs_at(before.1, step.1, step.2, persist, sign, r, after.1)
            &&& signature_answered(before.0, step.0, r, reply, after.0)
        }
}

/// What a member answers once it was asked to sign: the signature, after which the
/// head is the next one, or the reason there is none.
pub open spec fn signature_answered(
    before: Option<HeadView>,
    next: HeadView,
    r: Result<XmssSignature, SignerNodeError>,
    reply: Reply,
    after: Option<HeadView>,
) -> bool {
    match r {
        Ok(signature) => replies(reply, MSG_SIGNATURE, signed_reply(signature@)) && after == Some(
            next,
        ),
        Err(e) => replies(reply, MSG_SIGNATURE, abstained_reply(e.message())) && after == before,
    }
}

/// What an encoded proposal asks for.
pub open spec fn asked_for(payload: Seq<u8>) -> (Seq<u8>, u32, Seq<Seq<u8>>) {
    (linked_predecessor(payload), linked_version(payload), linked_list(payload))
}

/// What a member answers to a message with a proposal, and what becomes of its head
/// and counter. A malformed proposal fails and moves nothing.
pub open spec fn proposal_answered<
    P: FnOnce(&PendingWrite) -> Result<(), String>,
    S: FnOnce(u32, &[u8; 32]) -> Result<XmssSignature, String>,
>(
    anchor: Anchor,
    before: (Option<HeadView>, CounterView),
    payload: Seq<u8>,
    persist: P,
    sign: S,
    reply: Reply,
    after: (Option<HeadView>, CounterView),
) -> bool {
    if !linked_framed(payload) {
        fails(reply, "malformed proposal: "@ + linked_refusal(payload)->0.message()) && after
            == before
    } else {
        step_answered(anchor, before, asked_for(payload), persist, sign, reply, after)
    }
}

/// A committee member of the network.
#[derive(Debug)]
pub struct Member {
    committee: Committee,
    signer: SignerNode,
    signed_head: Option<SignedHead>,
}

/// The answer that abstains for this reason.
fn abstained(reason: &str) -> (r: Reply)
    ensures
        replies(r, MSG_SIGNATURE, abstained_reply(reason@)),
{
    Reply { kind: MSG_SIGNATURE, payload: SignatureReply::abstain(reason) }
}

impl Member {
    /// The anchor the member belongs to.
    pub closed spec fn anchor(self) -> Anchor {
        self.committee@
    }

    /// What the member last signed, and the slots it has left.
    pub closed spec fn state(self) -> (Option<HeadView>, CounterView) {
        (kept_head(self.signed_head), self.signer.counter())
    }

    pub fn new(committee: Committee, signer: SignerNode, signed_head: Option<SignedHead>) -> (member:
        Member)
        ensures
            member.anchor() == committee@,
            member.state() == (kept_head(signed_head), signer.counter()),
    {
        Member { committee, signer, signed_head }
    }

    /// The anchor the member belongs to.
    pub fn committee(&self) -> (committee: &Committee)
        ensures
            committee@ == self.anchor(),
    {
        &self.committee
    }

    /// The version the member last signed, if any.
    pub fn signed_version(&self) -> (version: Option<u32>)
        ensures
            version == match self.state().0 {
                Some(head) => Some(head.version),
                None => None,
            },
    {
        match &self.signed_head {
            Some(head) => Some(head.version()),
            None => None,
        }
    }

    /// The slot the next signature would use at the earliest.
    pub fn next_slot(&self) -> (slot: u64)
        ensures
            slot == self.state().1.next,
    {
        self.signer.next_slot()
    }

    /// The member's side of a round: derive the slot and sign, or abstain. Nothing is
    /// written or signed for a proposal that does not follow the signed head.
    pub fn on_proposal<
        P: FnOnce(&PendingWrite) -> Result<(), String>,
        S: FnOnce(u32, &[u8; 32]) -> Result<XmssSignature, String>,
    >(&mut self, payload: &[u8], persist: P, xmss_sign: S) -> (reply: Reply)
        requires
            forall|w: &PendingWrite|
                linked_framed(payload@) && step_may_write(
                    old(self).anchor(),
                    old(self).state(),
                    asked_for(payload@),
                    *w,
                ) ==> #[trigger] call_requires(persist, (w,)),
            forall|s: u32, m: &[u8; 32]|
                linked_framed(payload@) && step_may_sign(
                    old(self).anchor(),
                    old(self).state(),
                    asked_for(payload@),
                    persist,
                    s,
                    m@,
                ) ==> #[trigger] call_requires(xmss_sign, (s, m)),
        ensures
            final(self).anchor() == old(self).anchor(),
            proposal_answered(
                old(self).anchor(),
                old(self).state(),
                payload@,
                persist,
                xmss_sign,
                reply,
                final(self).state(),
            ),
    {
        match LinkedProposal::from_ssz_bytes(payload) {
            Ok(proposal) => self.answer(&proposal, persist, xmss_sign),
            Err(e) => {
                let text = joined("malformed proposal: ", e.text().as_str());
                failure(text.as_str())
            },
        }
    }

    fn answer<
        P: FnOnce(&PendingWrite) -> Result<(), String>,
        S: FnOnce(u32, &[u8; 32]) -> Result<XmssSignature, String>,
    >(&mut self, proposal: &LinkedProposal, persist: P, xmss_sign: S) -> (reply: Reply)
        requires
            forall|w: &PendingWrite|
                step_may_write(
                    old(self).anchor(),
                    old(self).state(),
                    (proposal.predecessor@, proposal.version, views(proposal.list@)),
                    *w,
                ) ==> #[trigger] call_requires(persist, (w,)),
            forall|s: u32, m: &[u8; 32]|
                step_may_sign(
                    old(self).anchor(),
                    old(self).state(),
                    (proposal.predecessor@, proposal.version, views(proposal.list@)),
                    persist,
                    s,
                    m@,
                ) ==> #[trigger] call_requires(xmss_sign, (s, m)),
        ensures
            final(self).anchor() == old(self).anchor(),
            step_answered(
                old(self).anchor(),
                old(self).state(),
                (proposal.predecessor@, proposal.version, views(proposal.list@)),
                persist,
                xmss_sign,
                reply,
                final(self).state(),
            ),
    {
        match self.decide(proposal) {
            Ok((next, slot, message)) => self.sign_step(next, slot, &message, persist, xmss_sign),
            Err(reason) => abstained(reason.as_str()),
        }
    }

    /// What is to be signed, at which slot and with which head afterwards, or why it
    /// is not.
    fn decide(&self, proposal: &LinkedProposal) -> (r: Result<(SignedHead, u32, [u8; 32]), String>)
        ensures
            ({
                let anchor = self.anchor();
                let list = views(proposal.list@);
                let step = successor_of(
                    anchor.domain(Algorithms::WotsXmss),
                    self.state().0,
                    proposal.predecessor@,
                    proposal.version,
                    list,
                );
                match r {
                    Ok(parts) => {
                        &&& step == Ok::<HeadView, SuccessorError>(parts.0@)
                        &&& anchor.slot(proposal.version) == Some(parts.1)
                        &&& parts.2@ == anchor.message(
                            Algorithms::WotsXmss,
                            list,
                            proposal.version,
                        )
                    },
                    Err(reason) => match step {
                        Err(why) => reason@ == why.message(),
                        Ok(_) => anchor.slot(proposal.version) is None && reason@
                            == "version has no slot under this anchor"@,
                    },
                }
            }),
    {
        let domain = self.committee.domain(Algorithms::WotsXmss);
        let next = match SignedHead::successor(
            &domain,
            self.signed_head.as_ref(),
            &proposal.predecessor,
            proposal.version,
            proposal.list.as_slice(),
        ) {
            Ok(next) => next,
            Err(why) => {
                return Err(why.text());
            },
        };
        match self.committee.slot_for(proposal.version) {
            Some(slot) => {
                let message = self.committee.message_for(
                    Algorithms::WotsXmss,
                    proposal.list.as_slice(),
                    proposal.version,
                );
                Ok((next, slot, message))
            },
            None => Err("version has no slot under this anchor".to_owned()),
        }
    }

    fn sign_step<
        P: FnOnce(&PendingWrite) -> Result<(), String>,
        S: FnOnce(u32, &[u8; 32]) -> Result<XmssSignature, String>,
    >(
        &mut self,
        next: SignedHead,
        slot: u32,
        message: &[u8; 32],
        persist: P,
        xmss_sign: S,
    ) -> (reply: Reply)
        requires
            forall|w: &PendingWrite|
                may_write(old(self).state().1, slot, *w) ==> #[trigger] call_requires(
                    persist,
                    (w,),
                ),
            forall|s: u32, m: &[u8; 32]|
                may_sign(old(self).state().1, slot, message@, persist, s, m@)
                    ==> #[trigger] call_requires(xmss_sign, (s, m)),
        ensures
            final(self).anchor() == old(self).anchor(),
            signing_answered(
                old(self).state(),
                (next@, slot, message@),
                persist,
                xmss_sign,
                reply,
                final(self).state(),
            ),
    {
        let ghost before = self.state();
        let signed = self.signer.sign_at(message, slot, persist, xmss_sign);
        let ghost counter = self.signer.counter();
        assert(signs_at(before.1, slot, message@, persist, xmss_sign, signed, counter));
        let reply = match &signed {
            Ok(signature) => {
                self.signed_head = Some(next);
                Reply { kind: MSG_SIGNATURE, payload: SignatureReply::signed(signature) }
            },
            Err(e) => {
                let text = e.text();
                abstained(text.as_str())
            },
        };
        proof {
            let (step, after) = ((next@, slot, message@), self.state());
            assert(after.1 == counter);
            assert(signature_answered(before.0, step.0, signed, reply, after.0));
            assert(signs_at(before.1, step.1, step.2, persist, xmss_sign, signed, after.1));
        }
        reply
    }
}

/// What an optional head says.
pub open spec fn kept_head(head: Option<SignedHead>) -> Option<HeadView> {
    match head {
        Some(h) => Some(h@),
        None => None,
    }
}

/// Whether an answer gives a signature.
pub open spec fn gives_signature(reply: Reply) -> bool {
    reply.kind == MSG_SIGNATURE && reply_framed(reply.payload@) && reply_signatures(
        reply.payload@,
    ).len() > 0
}

/// A signature moves the head to the list and version it was given for, and nothing
/// moves it anywhere else.
pub proof fn law_a_signature_moves_the_head<
    P: FnOnce(&PendingWrite) -> Result<(), String>,
    S: FnOnce(u32, &[u8; 32]) -> Result<XmssSignature, String>,
>(
    anchor: Anchor,
    before: (Option<HeadView>, CounterView),
    payload: Seq<u8>,
    persist: P,
    sign: S,
    reply: Reply,
    after: (Option<HeadView>, CounterView),
)
    requires
        proposal_answered(anchor, before, payload, persist, sign, reply, after),
    ensures
        gives_signature(reply) ==> after.0 == Some(
            head_of(
                anchor.domain(Algorithms::WotsXmss),
                linked_list(payload),
                linked_version(payload),
            ),
        ),
        after.0 == before.0 || after.0 == Some(
            head_of(
                anchor.domain(Algorithms::WotsXmss),
                linked_list(payload),
                linked_version(payload),
            ),
        ),
{
    let domain = anchor.domain(Algorithms::WotsXmss);
    let (predecessor, version, list) = asked_for(payload);
    if linked_framed(payload) {
        match successor_of(domain, before.0, predecessor, version, list) {
            Err(why) => {
                law_an_abstention_carries_no_signature(why.message());
            },
            Ok(next) => {
                law_an_abstention_carries_no_signature("version has no slot under this anchor"@);
                if anchor.slot(version) is Some {
                    let message = anchor.message(Algorithms::WotsXmss, list, version);
                    let slot = anchor.slot(version)->0;
                    assert(signing_answered(
                        before,
                        (next, slot, message),
                        persist,
                        sign,
                        reply,
                        after,
                    ));
                    let r = choose|r: Result<XmssSignature, SignerNodeError>|
                        {
                            &&& #[trigger] signs_at(
                                before.1,
                                slot,
                                message,
                                persist,
                                sign,
                                r,
                                after.1,
                            )
                            &&& signature_answered(before.0, next, r, reply, after.0)
                        };
                    assert(signature_answered(before.0, next, r, reply, after.0));
                    if r is Err {
                        law_an_abstention_carries_no_signature(r->Err_0.message());
                    }
                }
            },
        }
    }
}

/// Whatever it is proposed, a member that gave a signature gives the next one only
/// for the version after it: it never signs two lists for one version, and so never
/// two messages at one slot.
pub proof fn law_a_member_signs_each_version_once<
    P: FnOnce(&PendingWrite) -> Result<(), String>,
    S: FnOnce(u32, &[u8; 32]) -> Result<XmssSignature, String>,
    Q: FnOnce(&PendingWrite) -> Result<(), String>,
    T: FnOnce(u32, &[u8; 32]) -> Result<XmssSignature, String>,
>(
    anchor: Anchor,
    states: (
        (Option<HeadView>, CounterView),
        (Option<HeadView>, CounterView),
        (Option<HeadView>, CounterView),
    ),
    first: (Seq<u8>, P, S, Reply),
    second: (Seq<u8>, Q, T, Reply),
)
    requires
        proposal_answered(anchor, states.0, first.0, first.1, first.2, first.3, states.1),
        proposal_answered(anchor, states.1, second.0, second.1, second.2, second.3, states.2),
        gives_signature(first.3),
        gives_signature(second.3),
    ensures
        linked_version(second.0) == linked_version(first.0) + 1,
        anchor.slot(linked_version(second.0)) is Some,
        anchor.slot(linked_version(second.0)) != anchor.slot(linked_version(first.0)),
{
    law_a_signature_moves_the_head(
        anchor,
        states.0,
        first.0,
        first.1,
        first.2,
        first.3,
        states.1,
    );
    let domain = anchor.domain(Algorithms::WotsXmss);
    match successor_of(
        domain,
        states.1.0,
        linked_predecessor(second.0),
        linked_version(second.0),
        linked_list(second.0),
    ) {
        Err(why) => {
            law_an_abstention_carries_no_signature(why.message());
        },
        Ok(_) => {
            law_an_abstention_carries_no_signature("version has no slot under this anchor"@);
        },
    }
}

proof fn lemma_a_following_proposal_is_signed<
    P: FnOnce(&PendingWrite) -> Result<(), String>,
    S: FnOnce(u32, &[u8; 32]) -> Result<XmssSignature, String>,
>(
    anchor: Anchor,
    before: (Option<HeadView>, CounterView),
    predecessor: Seq<u8>,
    version: u32,
    list: Seq<Seq<u8>>,
    persist: P,
    sign: S,
    reply: Reply,
    after: (Option<HeadView>, CounterView),
)
    requires
        predecessor.len() == 32,
        all_width(list, 32),
        successor_of(
            anchor.domain(Algorithms::WotsXmss),
            before.0,
            predecessor,
            version,
            list,
        ) == Ok::<HeadView, SuccessorError>(
            head_of(anchor.domain(Algorithms::WotsXmss), list, version),
        ),
        before.1.next <= anchor.genesis_slot + version <= before.1.end,
        before.1.generation < u64::MAX,
        proposal_answered(
            anchor,
            before,
            linked_bytes(predecessor, version, list),
            persist,
            sign,
            reply,
            after,
        ),
        forall|w: &PendingWrite, answer: Result<(), String>|
            #[trigger] call_ensures(persist, (w,), answer) ==> answer is Ok,
        forall|s: u32, m: &[u8; 32], answer: Result<XmssSignature, String>|
            #[trigger] call_ensures(sign, (s, m), answer) ==> answer is Ok,
    ensures
        reply.kind == 3,
        exists|m: &[u8; 32], signature: XmssSignature|
            {
                &&& m@ == anchor.message(Algorithms::WotsXmss, list, version)
                &&& #[trigger] call_ensures(
                    sign,
                    ((anchor.genesis_slot + version) as u32, m),
                    Ok(signature),
                )
                &&& reply.payload@ == signed_reply(signature@)
            },
        after.0 == Some(head_of(anchor.domain(Algorithms::WotsXmss), list, version)),
        after.1.next == anchor.genesis_slot + version + 1,
{
    law_a_linked_proposal_is_read_back(predecessor, version, list);
    let slot = (anchor.genesis_slot + version) as u32;
    let message = anchor.message(Algorithms::WotsXmss, list, version);
    let next = head_of(anchor.domain(Algorithms::WotsXmss), list, version);
    assert(signing_answered(before, (next, slot, message), persist, sign, reply, after));
    let r = choose|r: Result<XmssSignature, SignerNodeError>|
        {
            &&& #[trigger] signs_at(before.1, slot, message, persist, sign, r, after.1)
            &&& signature_answered(before.0, next, r, reply, after.0)
        };
    law_a_free_slot_is_signed_at(before.1, slot, message, persist, sign, r, after.1);
    let m = choose|m: &[u8; 32]|
        m@ == message && #[trigger] call_ensures(sign, (slot, m), Ok(r->Ok_0));
    assert(call_ensures(sign, (slot, m), Ok(r->Ok_0)));
}

/// A member signs every honest proposal: one that appends to the list it last signed, names
/// that list's statement and takes the next version, as long as the version's slot is free
/// under its key, the write that spends the slot succeeds and the key signs. The key is
/// asked for the statement of the proposed list and version, at the genesis slot plus the
/// version, and the answer carries its signature.
pub proof fn law_an_honest_proposal_is_signed<
    P: FnOnce(&PendingWrite) -> Result<(), String>,
    S: FnOnce(u32, &[u8; 32]) -> Result<XmssSignature, String>,
>(
    anchor: Anchor,
    signed: Seq<Seq<u8>>,
    version: u32,
    counter: CounterView,
    added: Seq<Seq<u8>>,
    persist: P,
    sign: S,
    reply: Reply,
    after: (Option<HeadView>, CounterView),
)
    requires
        added.len() > 0,
        all_width(added, 32),
        all_width(signed, 32),
        version < u32::MAX,
        counter.next <= anchor.genesis_slot + version + 1 <= counter.end,
        counter.generation < u64::MAX,
        proposal_answered(
            anchor,
            (Some(head_of(anchor.domain(Algorithms::WotsXmss), signed, version)), counter),
            linked_bytes(
                anchor.message(Algorithms::WotsXmss, signed, version),
                (version + 1) as u32,
                signed + added,
            ),
            persist,
            sign,
            reply,
            after,
        ),
        forall|w: &PendingWrite, answer: Result<(), String>|
            #[trigger] call_ensures(persist, (w,), answer) ==> answer is Ok,
        forall|s: u32, m: &[u8; 32], answer: Result<XmssSignature, String>|
            #[trigger] call_ensures(sign, (s, m), answer) ==> answer is Ok,
    ensures
        reply.kind == 3,
        exists|m: &[u8; 32], signature: XmssSignature|
            {
                &&& m@ == anchor.message(
                    Algorithms::WotsXmss,
                    signed + added,
                    (version + 1) as u32,
                )
                &&& #[trigger] call_ensures(
                    sign,
                    ((anchor.genesis_slot + (version + 1) as u32) as u32, m),
                    Ok(signature),
                )
                &&& reply.payload@ == signed_reply(signature@)
            },
        after.0 == Some(
            head_of(
                anchor.domain(Algorithms::WotsXmss),
                signed + added,
                (version + 1) as u32,
            ),
        ),
        after.1.next == anchor.genesis_slot + version + 2,
{
    let list = signed + added;
    law_an_honest_extension_is_accepted(
        anchor.domain(Algorithms::WotsXmss),
        signed,
        version,
        added,
    );
    assert forall|i: int| 0 <= i < list.len() implies (#[trigger] list[i]).len() == 32 by {
        if i < signed.len() {
            assert(list[i] == signed[i]);
        } else {
            assert(list[i] == added[i - signed.len()]);
        }
    }
    lemma_a_following_proposal_is_signed(
        anchor,
        (Some(head_of(anchor.domain(Algorithms::WotsXmss), signed, version)), counter),
        anchor.message(Algorithms::WotsXmss, signed, version),
        (version + 1) as u32,
        list,
        persist,
        sign,
        reply,
        after,
    );
}

/// A member that signed nothing yet signs the first version: any list with entries at
/// version zero behind thirty-two zero bytes, at the genesis slot.
pub proof fn law_the_first_version_is_signed<
    P: FnOnce(&PendingWrite) -> Result<(), String>,
    S: FnOnce(u32, &[u8; 32]) -> Result<XmssSignature, String>,
>(
    anchor: Anchor,
    counter: CounterView,
    list: Seq<Seq<u8>>,
    persist: P,
    sign: S,
    reply: Reply,
    after: (Option<HeadView>, CounterView),
)
    requires
        list.len() > 0,
        all_width(list, 32),
        counter.next <= anchor.genesis_slot <= counter.end,
        counter.generation < u64::MAX,
        proposal_answered(
            anchor,
            (None, counter),
            linked_bytes(Seq::new(32, |i: int| 0u8), 0, list),
            persist,
            sign,
            reply,
            after,
        ),
        forall|w: &PendingWrite, answer: Result<(), String>|
            #[trigger] call_ensures(persist, (w,), answer) ==> answer is Ok,
        forall|s: u32, m: &[u8; 32], answer: Result<XmssSignature, String>|
            #[trigger] call_ensures(sign, (s, m), answer) ==> answer is Ok,
    ensures
        reply.kind == 3,
        exists|m: &[u8; 32], signature: XmssSignature|
            {
                &&& m@ == anchor.message(Algorithms::WotsXmss, list, 0)
                &&& #[trigger] call_ensures(sign, (anchor.genesis_slot, m), Ok(signature))
                &&& reply.payload@ == signed_reply(signature@)
            },
        after.0 == Some(head_of(anchor.domain(Algorithms::WotsXmss), list, 0)),
        after.1.next == anchor.genesis_slot + 1,
{
    let genesis = Seq::new(32, |i: int| 0u8);
    law_history_starts_at_version_zero(anchor.domain(Algorithms::WotsXmss), genesis, 0, list);
    lemma_a_following_proposal_is_signed(
        anchor,
        (None, counter),
        genesis,
        0,
        list,
        persist,
        sign,
        reply,
        after,
    );
    assert((anchor.genesis_slot + 0u32) as u32 == anchor.genesis_slot);
}

/// A member abstains from everything else and nothing of it moves: from what does not follow
/// the signed head, with the reason why, and from a version without a slot; a message that
/// is no proposal fails.
pub proof fn law_a_member_abstains_from_what_does_not_follow<
    P: FnOnce(&PendingWrite) -> Result<(), String>,
    S: FnOnce(u32, &[u8; 32]) -> Result<XmssSignature, String>,
>(
    anchor: Anchor,
    before: (Option<HeadView>, CounterView),
    payload: Seq<u8>,
    persist: P,
    sign: S,
    reply: Reply,
    after: (Option<HeadView>, CounterView),
)
    requires
        proposal_answered(anchor, before, payload, persist, sign, reply, after),
    ensures
        ({
            let step = successor_of(
                anchor.domain(Algorithms::WotsXmss),
                before.0,
                payload.subrange(0, 32),
                linked_version(payload),
                linked_list(payload),
            );
            let late = anchor.genesis_slot + linked_version(payload) > u32::MAX;
            &&& !linked_framed(payload) ==> after == before && reply.kind == 5
            &&& linked_framed(payload) && step is Err ==> after == before && reply.kind == 3
                && reply.payload@ == abstained_reply(step->Err_0.message())
            &&& linked_framed(payload) && step is Ok && late ==> after == before && reply.kind == 3
                && reply.payload@ == abstained_reply("version has no slot under this anchor"@)
            &&& gives_signature(reply) ==> linked_framed(payload) && step is Ok && !late
        }),
{
    let step = successor_of(
        anchor.domain(Algorithms::WotsXmss),
        before.0,
        payload.subrange(0, 32),
        linked_version(payload),
        linked_list(payload),
    );
    if linked_framed(payload) && step is Err {
        law_an_abstention_carries_no_signature(step->Err_0.message());
    }
    law_an_abstention_carries_no_signature("version has no slot under this anchor"@);
}

/// The head that a member starts from again is that of the published record: its version,
/// as many entries as its list has, and the statement of that list.
pub proof fn law_the_published_list_is_the_records_own(b: Seq<u8>, raw: RawRecord, snark: SnarkRecord)
    ensures
        decode_raw(b) == Ok::<RawRecord, StatusListError>(raw) ==> published_list(Mode::Raw, b)
            == Ok::<(u32, Seq<Seq<u8>>), StatusListError>((raw.version, raw.list)),
        decode_snark(b) == Ok::<SnarkRecord, StatusListError>(snark) ==> published_list(
            Mode::Snark,
            b,
        ) == Ok::<(u32, Seq<Seq<u8>>), StatusListError>((snark.version, snark.list)),
        decode_raw(b) is Err ==> published_list(Mode::Raw, b) == Err::<
            (u32, Seq<Seq<u8>>),
            StatusListError,
        >(decode_raw(b)->Err_0),
        decode_snark(b) is Err ==> published_list(Mode::Snark, b) == Err::<
            (u32, Seq<Seq<u8>>),
            StatusListError,
        >(decode_snark(b)->Err_0),
{
}

/// The head that a member starts from again is that of the published record, in the form the
/// mode publishes: a proposal that appends to that record's list is the next one it accepts.
pub proof fn law_a_restarted_member_follows_the_published_record(
    mode: Mode,
    committee: &Committee,
    bytes: &[u8],
    r: Result<Option<SignedHead>, StatusListError>,
    version: u32,
    list: Seq<Seq<u8>>,
    added: Seq<Seq<u8>>,
)
    requires
        call_ensures(recover_signed_head, (mode, committee, Some(bytes)), r),
        match mode {
            Mode::Raw => decode_raw(bytes@) is Ok && decode_raw(bytes@)->Ok_0.version == version
                && decode_raw(bytes@)->Ok_0.list == list,
            Mode::Snark => decode_snark(bytes@) is Ok && decode_snark(bytes@)->Ok_0.version
                == version && decode_snark(bytes@)->Ok_0.list == list,
        },
        version < u32::MAX,
        added.len() > 0,
    ensures
        r is Ok,
        r->Ok_0 is Some,
        (r->Ok_0->0)@.version == version,
        (r->Ok_0->0)@.entries == list.len(),
        successor_of(
            committee@.domain(Algorithms::WotsXmss),
            Some((r->Ok_0->0)@),
            committee@.message(Algorithms::WotsXmss, list, version),
            (version + 1) as u32,
            list + added,
        ) is Ok,
{
    law_an_honest_extension_is_accepted(
        committee@.domain(Algorithms::WotsXmss),
        list,
        version,
        added,
    );
}

} // verus!

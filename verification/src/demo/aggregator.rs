//! The aggregator's side of a round, from credential to published record.
//!
//! Whoever aggregates is trusted no more than any other member: it proposes a
//! version, and every member derives the slot from the anchor itself. Every
//! signature is checked against the anchor's key for its index before it counts.
use crate::bitlist::{
    bitlist_bytes, count_set, law_a_set_bit_has_its_rank, lemma_set_indices, set_indices,
};
use crate::bytes::{all_width, le32, lemma_from_le32, lemma_le32, views};
use crate::demo::config::{
    aggregator_indices, aggregators, can_aggregate, format_indices, index_list, Mode, N_MEMBERS,
    THRESHOLD,
};
use crate::demo::member::{decode_list, failure, fails, published_list, replies, Reply};
use crate::demo::vc::{
    credential_of, credential_text, fingerprint, issue_with_id, jcs_canonical, json_quoted, random_bytes,
};
use crate::demo::wire::{
    abstained_reply, failure_bytes, failure_text, law_a_container_has_one_form,
    law_a_reason_is_read_back, law_a_signature_is_read_back, law_a_tail_is_read_back,
    law_an_abstention_carries_no_signature, linked_bytes, reply_framed, reply_refusal,
    reply_signatures, signed_reply, single_bytes, tail, tail_framed,
    tail_refusal, versioned_bytes, Failure, LinkedProposal, SignatureReply, VcIssued, VcRequest, MSG_SIGNATURE, MSG_VC_ISSUED,
};
use crate::hash::sha3_256;
use crate::node::raw_verifier::{
    answered, authorized, law_an_honest_quorum_is_authorized, CheckView, SignatureCheck,
};
use crate::node::snark_prover::{AggregateRequest, PQSNARKProverModule};
use crate::params::LOG_INV_RATE;
use crate::protocol::committee::{Anchor, Committee};
use crate::protocol::record::{
    assembled, distinct_indices, indices_below, law_every_signature_is_counted, named, pairs_width,
    place_of,
};
use crate::protocol::status_list::{
    copy_entries, decode_raw, decode_snark, law_raw_round_trip, law_snark_round_trip, raw_record,
    signer_pairs, Algorithms, SnarkRecord, SnarkStatusList, StatusList, StatusListError,
};
use crate::protocol::xmss::{
    key_views, signature_views, XmssPublicKey, XmssSignature, SIGNATURE_SSZ_LEN,
};
use crate::state::status_list_head::{
    head_of, successor_of, HeadView, SuccessorError, GENESIS_PREDECESSOR,
};
use crate::text::{decimal, joined, lossy_text, numbered, push_decimal, utf8_text_lossy};
use vstd::prelude::*;
use vstd::string::*;

verus! {

/// A round that an aggregator has opened.
#[derive(Debug)]
pub struct Round {
    pub predecessor: [u8; 32],
    pub version: u32,
    pub list: Vec<[u8; 32]>,
    pub credential: Vec<u8>,
}

/// What a round stands for.
#[verifier::ext_equal]
pub struct RoundView {
    pub predecessor: Seq<u8>,
    pub version: u32,
    pub list: Seq<Seq<u8>>,
    pub credential: Seq<u8>,
}

impl View for Round {
    type V = RoundView;

    open spec fn view(&self) -> RoundView {
        RoundView {
            predecessor: self.predecessor@,
            version: self.version,
            list: views(self.list@),
            credential: self.credential@,
        }
    }
}

/// The refusal of a member that only signs.
pub open spec fn signer_only_text(mode: Mode, provers: Seq<usize>, index: usize) -> Seq<char> {
    let allowed = aggregators(mode, provers);
    "member "@ + decimal(index as nat) + " is signer-only in "@ + mode.name()
        + " mode; ask one of ["@ + index_list(allowed, allowed.len() as int) + "]"@
}

fn signer_only(mode: Mode, provers: &[usize], index: usize) -> (text: String)
    ensures
        text@ == signer_only_text(mode, provers@, index),
{
    let allowed = aggregator_indices(mode, provers);
    let list = format_indices(allowed.as_slice());
    let mut text: String = "member ".to_owned();
    push_decimal(&mut text, index as u64);
    text.append(" is signer-only in ");
    text.append(mode.as_str());
    text.append(" mode; ask one of [");
    text.append(list.as_str());
    text.append("]");
    text
}

/// Where the next version goes: its predecessor, its number and the list it extends;
/// or why there is no next version. What is published decides, not the aggregator.
pub open spec fn next_version(anchor: Anchor, mode: Mode, latest: Option<Seq<u8>>) -> Result<
    (Seq<u8>, u32, Seq<Seq<u8>>),
    Seq<char>,
> {
    match latest {
        None => Ok((GENESIS_PREDECESSOR@, 0u32, Seq::empty())),
        Some(b) => match published_list(mode, b) {
            Err(e) => Err("published record is unreadable: "@ + e.message()),
            Ok(parts) => if parts.0 == u32::MAX {
                Err("status-list version exhausted"@)
            } else {
                Ok(
                    (
                        anchor.message(Algorithms::WotsXmss, parts.1, parts.0),
                        (parts.0 + 1) as u32,
                        parts.1,
                    ),
                )
            },
        },
    }
}

/// The contents of an optional record.
pub open spec fn latest_view(latest: Option<&[u8]>) -> Option<Seq<u8>> {
    match latest {
        Some(b) => Some(b@),
        None => None,
    }
}

fn following(committee: &Committee, mode: Mode, latest: Option<&[u8]>) -> (r: Result<
    ([u8; 32], u32, Vec<[u8; 32]>),
    String,
>)
    ensures
        match r {
            Ok(parts) => next_version(committee@, mode, latest_view(latest)) == Ok::<
                _,
                Seq<char>,
            >((parts.0@, parts.1, views(parts.2@))),
            Err(text) => next_version(committee@, mode, latest_view(latest)) == Err::<
                (Seq<u8>, u32, Seq<Seq<u8>>),
                Seq<char>,
            >(text@),
        },
{
    match latest {
        None => {
            let empty: Vec<[u8; 32]> = Vec::new();
            assert(views(empty@) =~= Seq::<Seq<u8>>::empty());
            Ok((GENESIS_PREDECESSOR, 0, empty))
        },
        Some(bytes) => match decode_list(mode, bytes) {
            Err(e) => {
                let why = e.text();
                Err(joined("published record is unreadable: ", why.as_str()))
            },
            Ok((version, list)) => {
                if version == u32::MAX {
                    return Err("status-list version exhausted".to_owned());
                }
                let predecessor = committee.message_for(
                    Algorithms::WotsXmss,
                    list.as_slice(),
                    version,
                );
                Ok((predecessor, version + 1, list))
            },
        },
    }
}

/// The round a request opens with a credential of identifier `id`, or the reason it
/// opens none. The checks come in this order.
pub open spec fn round_of(
    anchor: Anchor,
    mode: Mode,
    provers: Seq<usize>,
    index: usize,
    payload: Seq<u8>,
    latest: Option<Seq<u8>>,
    id: Seq<u8>,
) -> Result<RoundView, Seq<char>> {
    if !aggregators(mode, provers).contains(index) {
        Err(signer_only_text(mode, provers, index))
    } else if !tail_framed(payload, 0) {
        Err("malformed request: "@ + tail_refusal(payload, 0)->0.message())
    } else {
        match next_version(anchor, mode, latest) {
            Err(why) => Err(why),
            Ok(next) => match credential_of(lossy_text(tail(payload, 0)), next.1, index, id) {
                None => Err("credential cannot be serialised"@),
                Some(credential) => Ok(
                    RoundView {
                        predecessor: next.0,
                        version: next.1,
                        list: next.2.push(sha3_256(credential)),
                        credential,
                    },
                ),
            },
        }
    }
}

/// Opens a round for a credential request: the published list, one entry longer, at
/// the next version. `latest` is the newest published record.
pub fn begin_round_with_id(
    committee: &Committee,
    mode: Mode,
    provers: &[usize],
    index: usize,
    payload: &[u8],
    latest: Option<&[u8]>,
    id: &[u8; 16],
) -> (r: Result<Round, String>)
    ensures
        ({
            let expected = round_of(
                committee@,
                mode,
                provers@,
                index,
                payload@,
                latest_view(latest),
                id@,
            );
            match r {
                Ok(round) => expected == Ok::<RoundView, Seq<char>>(round@),
                Err(text) => expected == Err::<RoundView, Seq<char>>(text@),
            }
        }),
{
    if !can_aggregate(mode, provers, index) {
        return Err(signer_only(mode, provers, index));
    }
    let request = match VcRequest::from_ssz_bytes(payload) {
        Ok(request) => request,
        Err(e) => {
            return Err(joined("malformed request: ", e.text().as_str()));
        },
    };
    let subject = utf8_text_lossy(request.subject.as_slice());
    let (predecessor, version, mut list) = match following(committee, mode, latest) {
        Ok(parts) => parts,
        Err(text) => {
            return Err(text);
        },
    };
    let ghost before = list@;
    match issue_with_id(subject.as_str(), version, index, id) {
        None => Err("credential cannot be serialised".to_owned()),
        Some(credential) => {
            let entry = fingerprint(credential.as_slice());
            list.push(entry);
            assert(views(list@) =~= views(before).push(entry@));
            Ok(Round { predecessor, version, list, credential })
        },
    }
}

/// [`begin_round_with_id`] with a random identifier.
pub fn begin_round(
    committee: &Committee,
    mode: Mode,
    provers: &[usize],
    index: usize,
    payload: &[u8],
    latest: Option<&[u8]>,
) -> (r: Result<Round, String>)
    ensures
        exists|id: Seq<u8>|
            id.len() == 16 && match r {
                Ok(round) => #[trigger] round_of(
                    committee@,
                    mode,
                    provers@,
                    index,
                    payload@,
                    latest_view(latest),
                    id,
                ) == Ok::<RoundView, Seq<char>>(round@),
                Err(text) => round_of(
                    committee@,
                    mode,
                    provers@,
                    index,
                    payload@,
                    latest_view(latest),
                    id,
                ) == Err::<RoundView, Seq<char>>(text@),
            },
{
    let id: [u8; 16] = random_bytes();
    begin_round_with_id(committee, mode, provers, index, payload, latest, &id)
}

impl Round {
    /// A copy of the list.
    pub fn entries(&self) -> (list: Vec<[u8; 32]>)
        ensures
            list@ == self.list@,
    {
        copy_entries(self.list.as_slice())
    }

    /// The proposal that is sent to every member.
    pub fn proposal(&self) -> (bytes: Vec<u8>)
        ensures
            bytes@ == linked_bytes(self@.predecessor, self@.version, self@.list),
    {
        let proposal = LinkedProposal {
            predecessor: self.predecessor,
            version: self.version,
            list: self.entries(),
        };
        proposal.as_ssz_bytes()
    }

    /// The answer to the holder once the record is published, or could not be. The
    /// credential is handed over only after its fingerprint is in a published record.
    pub fn close(&self, published: Result<(), String>) -> (reply: Reply)
        ensures
            match published {
                Ok(_) => replies(
                    reply,
                    MSG_VC_ISSUED,
                    versioned_bytes(self@.version, self@.credential),
                ),
                Err(why) => fails(reply, "cannot publish: "@ + why@),
            },
    {
        match published {
            Ok(_) => {
                let issued = VcIssued {
                    version: self.version,
                    credential: crate::bytes::to_vec(self.credential.as_slice()),
                };
                Reply { kind: MSG_VC_ISSUED, payload: issued.as_ssz_bytes() }
            },
            Err(why) => {
                let text = joined("cannot publish: ", why.as_str());
                failure(text.as_str())
            },
        }
    }
}

/// A round opened on what a member last signed is one that member follows: the
/// proposal names its statement, takes the next version and appends to its list.
pub proof fn law_an_opened_round_follows_the_published_list(
    anchor: Anchor,
    mode: Mode,
    b: Seq<u8>,
    entry: Seq<u8>,
)
    requires
        next_version(anchor, mode, Some(b)) is Ok,
    ensures
        ({
            let (version, list) = published_list(mode, b)->Ok_0;
            let next = next_version(anchor, mode, Some(b))->Ok_0;
            let domain = anchor.domain(Algorithms::WotsXmss);
            successor_of(
                domain,
                Some(head_of(domain, list, version)),
                next.0,
                next.1,
                next.2.push(entry),
            ) == Ok::<HeadView, SuccessorError>(head_of(domain, next.2.push(entry), next.1))
        }),
{
    let (version, list) = published_list(mode, b)->Ok_0;
    let domain = anchor.domain(Algorithms::WotsXmss);
    assert(list.push(entry) =~= list + seq![entry]);
    crate::state::status_list_head::law_an_honest_extension_is_accepted(
        domain,
        list,
        version,
        seq![entry],
    );
}

// ---- collecting signatures ---------------------------------------------------

/// The signature an answer gives, none where the member abstains, or what is wrong
/// with the answer.
pub open spec fn answer_of(kind: u8, payload: Seq<u8>) -> Result<Option<Seq<u8>>, Seq<char>> {
    if kind != MSG_SIGNATURE {
        Err(failure_text(payload))
    } else if !reply_framed(payload) {
        Err("malformed reply, "@ + reply_refusal(payload)->0.message())
    } else if reply_signatures(payload).len() == 0 {
        Ok(None)
    } else {
        Ok(Some(reply_signatures(payload)[0]))
    }
}

/// The signature an answer gives.
pub fn signature_in(kind: u8, payload: &[u8]) -> (r: Result<Option<XmssSignature>, String>)
    ensures
        match r {
            Ok(Some(s)) => answer_of(kind, payload@) == Ok::<_, Seq<char>>(Some(s@)),
            Ok(None) => answer_of(kind, payload@) == Ok::<Option<Seq<u8>>, Seq<char>>(None),
            Err(text) => answer_of(kind, payload@) == Err::<Option<Seq<u8>>, Seq<char>>(text@),
        },
{
    if kind != MSG_SIGNATURE {
        return Err(Failure::text(payload));
    }
    match SignatureReply::from_ssz_bytes(payload) {
        Err(e) => Err(joined("malformed reply, ", e.text().as_str())),
        Ok(reply) => {
            assert(signature_views(reply.signature@).len() == reply.signature@.len());
            if reply.signature.len() == 0 {
                Ok(None)
            } else {
                assert(signature_views(reply.signature@)[0] == reply.signature@[0]@);
                Ok(Some(reply.signature[0].clone()))
            }
        },
    }
}


/// The signatures that count for a round so far.
#[derive(Debug)]
pub struct Collector {
    committee: Committee,
    message: [u8; 32],
    slot: u32,
    quorum: Vec<(usize, XmssSignature)>,
}

impl Collector {
    #[verifier::type_invariant]
    closed spec fn inv(self) -> bool {
        &&& distinct_indices(signer_pairs(self.quorum@))
        &&& indices_below(signer_pairs(self.quorum@), self.committee@.members.len() as int)
        &&& self.quorum@.len() <= THRESHOLD
    }

    /// The anchor the round runs under.
    pub closed spec fn anchor(self) -> Anchor {
        self.committee@
    }

    /// The slot and the message the signatures are for.
    pub closed spec fn asked(self) -> (u32, Seq<u8>) {
        (self.slot, self.message@)
    }

    /// The signatures that count, each with its member's index, in order of arrival.
    pub closed spec fn pairs(self) -> Seq<(int, Seq<u8>)> {
        signer_pairs(self.quorum@)
    }

    /// An empty collection for a round, or nothing where its version has no slot.
    pub fn new(committee: &Committee, list: &[[u8; 32]], version: u32) -> (r: Option<Collector>)
        ensures
            match r {
                Some(c) => {
                    &&& c.anchor() == committee@
                    &&& committee@.slot(version) == Some(c.asked().0)
                    &&& c.asked().1 == committee@.message(
                        Algorithms::WotsXmss,
                        views(list@),
                        version,
                    )
                    &&& c.pairs() == Seq::<(int, Seq<u8>)>::empty()
                },
                None => committee@.slot(version) is None,
            },
    {
        match committee.slot_for(version) {
            None => None,
            Some(slot) => {
                let message = committee.message_for(Algorithms::WotsXmss, list, version);
                let quorum: Vec<(usize, XmssSignature)> = Vec::new();
                assert(signer_pairs(quorum@) =~= Seq::<(int, Seq<u8>)>::empty());
                Some(Collector { committee: committee.clone(), message, slot, quorum })
            },
        }
    }

    /// Whether enough signatures count. A round ends with the last one it takes.
    pub fn complete(&self) -> (r: bool)
        ensures
            r == (self.pairs().len() >= THRESHOLD),
            self.pairs().len() <= THRESHOLD,
    {
        proof {
            use_type_invariant(self);
        }
        self.quorum.len() >= THRESHOLD
    }

    /// The anchor the round runs under.
    pub fn committee(&self) -> (committee: Committee)
        ensures
            committee@ == self.anchor(),
    {
        self.committee.clone()
    }

    /// How many signatures count.
    pub fn count(&self) -> (n: usize)
        ensures
            n == self.pairs().len(),
    {
        self.quorum.len()
    }

    fn names(&self, index: usize) -> (r: bool)
        ensures
            r == named(self.pairs(), index as int),
    {
        let ghost pairs = self.pairs();
        let mut i: usize = 0;
        while i < self.quorum.len()
            invariant
                i <= self.quorum@.len(),
                pairs == self.pairs(),
                pairs.len() == self.quorum@.len(),
                forall|k: int| 0 <= k < i ==> (#[trigger] pairs[k]).0 != index,
            decreases self.quorum@.len() - i,
        {
            assert(pairs[i as int].0 == self.quorum@[i as int].0);
            if self.quorum[i].0 == index {
                return true;
            }
            i = i + 1;
        }
        false
    }

    /// Offers the signature that came from member `index`. It counts once it is
    /// confirmed against the key the anchor holds at that index, unless the round is
    /// complete, there is no such member, or the member was counted before.
    pub fn offer<V: Fn(&SignatureCheck) -> bool>(
        &mut self,
        index: usize,
        signature: XmssSignature,
        xmss_verify: V,
    ) -> (counted: bool)
        requires
            forall|c: &SignatureCheck| call_requires(xmss_verify, (c,)),
        ensures
            final(self).anchor() == old(self).anchor(),
            final(self).asked() == old(self).asked(),
            ({
                let (before, after) = (old(self).pairs(), final(self).pairs());
                let open = before.len() < THRESHOLD && index < old(self).anchor().members.len()
                    && !named(before, index as int);
                let check = CheckView {
                    key: old(self).anchor().members[index as int],
                    slot: old(self).asked().0,
                    message: old(self).asked().1,
                    signature: signature@,
                };
                if counted {
                    open && answered(xmss_verify, check, true) && after == before.push(
                        (index as int, signature@),
                    )
                } else {
                    (open ==> answered(xmss_verify, check, false)) && after == before
                }
            }),
    {
        proof {
            use_type_invariant(&*self);
        }
        let members = self.committee.members();
        assert(members@.len() == key_views(members@).len());
        if self.quorum.len() >= THRESHOLD || index >= members.len() || self.names(index) {
            return false;
        }
        let check = SignatureCheck {
            key: members[index],
            slot: self.slot,
            message: self.message,
            signature: signature.clone(),
        };
        let ghost expected = CheckView {
            key: self.anchor().members[index as int],
            slot: self.slot,
            message: self.message@,
            signature: signature@,
        };
        proof {
            assert(key_views(members@)[index as int] == members@[index as int]@);
            assert(check@ =~= expected);
        }
        let verdict: bool = xmss_verify(&check);
        assert(answered(xmss_verify, expected, verdict));
        if !verdict {
            return false;
        }
        let mut quorum: Vec<(usize, XmssSignature)> = Vec::new();
        std::mem::swap(&mut quorum, &mut self.quorum);
        let ghost before = quorum@;
        quorum.push((index, signature));
        proof {
            assert(signer_pairs(quorum@) =~= signer_pairs(before).push(
                (index as int, signature@),
            ));
            lemma_pushed(
                signer_pairs(before),
                (index as int, signature@),
                self.committee@.members.len() as int,
            );
        }
        self.quorum = quorum;
        true
    }

    /// The signatures that count.
    pub fn into_quorum(self) -> (quorum: Vec<(usize, XmssSignature)>)
        ensures
            signer_pairs(quorum@) == self.pairs(),
            distinct_indices(self.pairs()),
            indices_below(self.pairs(), self.anchor().members.len() as int),
    {
        proof {
            use_type_invariant(&self);
        }
        self.quorum
    }
}

/// A pair of another member keeps the indices distinct.
pub(crate) proof fn lemma_pushed(pairs: Seq<(int, Seq<u8>)>, pair: (int, Seq<u8>), n: int)
    requires
        distinct_indices(pairs),
        indices_below(pairs, n),
        !named(pairs, pair.0),
        pair.0 < n,
    ensures
        distinct_indices(pairs.push(pair)),
        indices_below(pairs.push(pair), n),
{
    let longer = pairs.push(pair);
    assert forall|i: int, j: int| 0 <= i < j < longer.len() implies (#[trigger] longer[i]).0 != (
    #[trigger] longer[j]).0 by {
        if j == pairs.len() {
            assert(pairs[i].0 != pair.0);
        }
    }
    assert forall|k: int| 0 <= k < longer.len() implies (#[trigger] longer[k]).0 < n by {
        if k < pairs.len() {
            assert(longer[k] == pairs[k]);
        }
    }
}

/// The answer to the holder when too few signatures came within `window`.
pub fn shortfall(collected: usize, window: &str) -> (reply: Option<Reply>)
    ensures
        match reply {
            Some(r) => collected < THRESHOLD && fails(
                r,
                "only "@ + decimal(collected as nat) + " of 7 signatures arrived within "@
                    + window@,
            ),
            None => collected >= THRESHOLD,
        },
{
    if collected >= THRESHOLD {
        return None;
    }
    let mut text: String = numbered(
        "only ",
        collected as u64,
        " of 7 signatures arrived within ",
    );
    text.append(window);
    Some(failure(text.as_str()))
}

/// The record of a completed round is authorized under the anchor by everyone who
/// comes to the same verdicts about its signatures.
pub proof fn law_a_completed_round_is_authorized(
    anchor: Anchor,
    list: Seq<Seq<u8>>,
    version: u32,
    pairs: Seq<(int, Seq<u8>)>,
    verdicts: Seq<bool>,
)
    requires
        anchor.wf(),
        anchor.members.len() == N_MEMBERS,
        anchor.t == THRESHOLD,
        anchor.slot(version) is Some,
        distinct_indices(pairs),
        indices_below(pairs, N_MEMBERS as int),
        forall|k: int| 0 <= k < pairs.len() ==> 0 <= (#[trigger] pairs[k]).0,
        pairs.len() == THRESHOLD,
        verdicts.len() == pairs.len(),
        forall|k: int| 0 <= k < verdicts.len() ==> #[trigger] verdicts[k],
    ensures
        authorized(
            anchor,
            raw_record(
                Algorithms::WotsXmss,
                assembled(list, version, pairs, N_MEMBERS as int),
            ),
            verdicts,
        ),
{
    law_an_honest_quorum_is_authorized(
        anchor,
        raw_record(Algorithms::WotsXmss, assembled(list, version, pairs, N_MEMBERS as int)),
        pairs,
        verdicts,
    );
}

// ---- building the record -----------------------------------------------------

/// The most entries a list can have so that its record's offsets fit.
pub const MAX_ENTRIES: usize = 134217726;

/// The keys of the members that pairs name, each with that member's signature.
pub open spec fn keyed(anchor: Anchor, pairs: Seq<(int, Seq<u8>)>) -> Seq<(Seq<u8>, Seq<u8>)> {
    pairs.map_values(|p: (int, Seq<u8>)| (anchor.members[p.0], p.1))
}

/// The contents of a list of keys and signatures.
pub open spec fn raw_views(raws: Seq<(XmssPublicKey, XmssSignature)>) -> Seq<(Seq<u8>, Seq<u8>)> {
    raws.map_values(|r: (XmssPublicKey, XmssSignature)| (r.0@, r.1@))
}

fn with_keys(committee: &Committee, quorum: &[(usize, XmssSignature)]) -> (raws: Vec<
    (XmssPublicKey, XmssSignature),
>)
    requires
        indices_below(signer_pairs(quorum@), committee@.members.len() as int),
    ensures
        raw_views(raws@) == keyed(committee@, signer_pairs(quorum@)),
{
    let members = committee.members();
    let ghost pairs = signer_pairs(quorum@);
    assert(members@.len() == key_views(members@).len());
    let mut raws: Vec<(XmssPublicKey, XmssSignature)> = Vec::new();
    let mut k: usize = 0;
    while k < quorum.len()
        invariant
            k <= quorum@.len(),
            pairs == signer_pairs(quorum@),
            key_views(members@) == committee@.members,
            members@.len() == committee@.members.len(),
            indices_below(pairs, committee@.members.len() as int),
            raws@.len() == k,
            forall|j: int|
                0 <= j < k ==> (#[trigger] raws@[j]).0@ == committee@.members[pairs[j].0]
                    && raws@[j].1@ == pairs[j].1,
        decreases quorum@.len() - k,
    {
        assert(pairs[k as int] == (quorum@[k as int].0 as int, quorum@[k as int].1@));
        let i: usize = quorum[k].0;
        assert(key_views(members@)[i as int] == members@[i as int]@);
        raws.push((members[i], quorum[k].1.clone()));
        k = k + 1;
    }
    assert(raw_views(raws@) =~= keyed(committee@, pairs));
    raws
}

/// Whether a list at a version is published as `bytes` in the SNARK form, with what
/// `aggregate` made of the quorum's signatures at the round's slot and message.
pub open spec fn proof_published<A: FnOnce(&AggregateRequest) -> Vec<u8>>(
    anchor: Anchor,
    list: Seq<Seq<u8>>,
    version: u32,
    pairs: Seq<(int, Seq<u8>)>,
    aggregate: A,
    bytes: Seq<u8>,
) -> bool {
    exists|q: &AggregateRequest, proven: Vec<u8>|
        {
            &&& #[trigger] call_ensures(aggregate, (q,), proven)
            &&& raw_views(q.raws@) == keyed(anchor, pairs)
            &&& q.message@ == anchor.message(Algorithms::WotsXmss, list, version)
            &&& Some(q.slot) == anchor.slot(version)
            &&& q.log_inv_rate == LOG_INV_RATE
            &&& bytes == (SnarkRecord {
                alg: Algorithms::WotsXmss,
                list,
                version,
                proof: proven@,
            }).encode()
        }
}

/// Whether building the record of a quorum may have this request aggregated: the mode
/// publishes aggregates, this node can make one, and the request holds the quorum's
/// signatures at the round's slot and message.
pub open spec fn may_prove(
    anchor: Anchor,
    mode: Mode,
    can_prove: bool,
    round: RoundView,
    pairs: Seq<(int, Seq<u8>)>,
    q: AggregateRequest,
) -> bool {
    &&& mode == Mode::Snark && can_prove
    &&& raw_views(q.raws@) == keyed(anchor, pairs)
    &&& q.message@ == anchor.message(Algorithms::WotsXmss, round.list, round.version)
    &&& Some(q.slot) == anchor.slot(round.version)
    &&& q.log_inv_rate == LOG_INV_RATE
}

/// Turns the quorum into the form the mode publishes: the one place where the two
/// forms differ.
pub fn build_record<A: FnOnce(&AggregateRequest) -> Vec<u8>>(
    committee: &Committee,
    mode: Mode,
    index: usize,
    prover: Option<&PQSNARKProverModule>,
    round: &Round,
    quorum: Vec<(usize, XmssSignature)>,
    aggregate: A,
) -> (r: Result<Vec<u8>, String>)
    requires
        round@.list.len() <= MAX_ENTRIES,
        committee@.slot(round@.version) is Some,
        indices_below(signer_pairs(quorum@), committee@.members.len() as int),
        forall|q: &AggregateRequest|
            may_prove(committee@, mode, prover is Some, round@, signer_pairs(quorum@), *q)
                ==> #[trigger] call_requires(aggregate, (q,)),
    ensures
        record_built(
            committee@,
            mode,
            index,
            prover is Some,
            round@,
            signer_pairs(quorum@),
            aggregate,
            r,
        ),
{
    let ghost pairs = signer_pairs(quorum@);
    let list = round.entries();
    match mode {
        Mode::Raw => {
            match StatusList::new(Algorithms::WotsXmss, list, round.version, N_MEMBERS, quorum) {
                Ok(record) => {
                    assert(record@.bits.len() == N_MEMBERS);
                    Ok(record.to_bytes())
                },
                Err(e) => Err(e.text()),
            }
        },
        Mode::Snark => match prover {
            None => Err(
                numbered("member ", index as u64, " is not a configured SNARK aggregator"),
            ),
            Some(module) => {
                let raws = with_keys(committee, quorum.as_slice());
                let proven = module.make_proof(
                    committee,
                    Algorithms::WotsXmss,
                    raws,
                    list.as_slice(),
                    round.version,
                    LOG_INV_RATE,
                    aggregate,
                );
                let record = SnarkStatusList::new(
                    Algorithms::WotsXmss,
                    list,
                    round.version,
                    proven,
                );
                Ok(record.to_bytes())
            },
        },
    }
}

// ---- the whole round ---------------------------------------------------------

/// Whether offering `arrival` turned the signatures that count from `before` into
/// `after`.
pub open spec fn offered<V: Fn(&SignatureCheck) -> bool>(
    anchor: Anchor,
    asked: (u32, Seq<u8>),
    verify: V,
    before: Seq<(int, Seq<u8>)>,
    arrival: (int, Seq<u8>),
    after: Seq<(int, Seq<u8>)>,
) -> bool {
    let open = before.len() < THRESHOLD && arrival.0 < anchor.members.len() && !named(
        before,
        arrival.0,
    );
    let check = CheckView {
        key: anchor.members[arrival.0],
        slot: asked.0,
        message: asked.1,
        signature: arrival.1,
    };
    ||| open && answered(verify, check, true) && after == before.push(arrival)
    ||| (open ==> answered(verify, check, false)) && after == before
}

/// Whether the answer with number `k` that `next` handed out is this member's signature.
pub open spec fn arrived<N: Fn(usize) -> Option<(usize, XmssSignature)>>(
    next: N,
    k: int,
    arrival: (int, Seq<u8>),
) -> bool {
    exists|got: (usize, XmssSignature)|
        (got.0 as int, got.1@) == arrival && #[trigger] call_ensures(
            next,
            (k as usize,),
            Some(got),
        )
}

/// Whether `next` may be asked for the answer of every member.
pub open spec fn may_wait<N: Fn(usize) -> Option<(usize, XmssSignature)>>(next: N) -> bool {
    forall|k: usize| k < N_MEMBERS ==> #[trigger] call_requires(next, (k,))
}

/// Whether offering `arrivals`, one after the other, led through the states in `trace`,
/// from nothing to what counts in the end.
pub open spec fn offered_in_turn<V: Fn(&SignatureCheck) -> bool>(
    anchor: Anchor,
    asked: (u32, Seq<u8>),
    verify: V,
    arrivals: Seq<(int, Seq<u8>)>,
    trace: Seq<Seq<(int, Seq<u8>)>>,
) -> bool {
    &&& trace.len() == arrivals.len() + 1
    &&& trace[0] == Seq::<(int, Seq<u8>)>::empty()
    &&& forall|k: int|
        0 <= k < arrivals.len() ==> offered(
            anchor,
            asked,
            verify,
            trace[k],
            #[trigger] arrivals[k],
            trace[k + 1],
        )
}

/// Whether offering what `next` handed out, each answer in its turn, led through the
/// states in `trace`, from nothing to what counts in the end.
pub open spec fn tallied<
    N: Fn(usize) -> Option<(usize, XmssSignature)>,
    V: Fn(&SignatureCheck) -> bool,
>(
    anchor: Anchor,
    asked: (u32, Seq<u8>),
    next: N,
    verify: V,
    arrivals: Seq<(int, Seq<u8>)>,
    trace: Seq<Seq<(int, Seq<u8>)>>,
) -> bool {
    &&& offered_in_turn(anchor, asked, verify, arrivals, trace)
    &&& forall|k: int| 0 <= k < arrivals.len() ==> arrived(next, k, #[trigger] arrivals[k])
}

/// Whether a round stopped where it may: enough signatures count, nothing more came, or
/// every member has answered.
pub open spec fn stopped<N: Fn(usize) -> Option<(usize, XmssSignature)>>(
    next: N,
    arrivals: nat,
    counted: nat,
) -> bool {
    ||| counted >= THRESHOLD
    ||| arrivals >= N_MEMBERS
    ||| call_ensures(next, (arrivals as usize,), None)
}

/// Whether `pairs` is what a round collected.
pub open spec fn gathered<
    N: Fn(usize) -> Option<(usize, XmssSignature)>,
    V: Fn(&SignatureCheck) -> bool,
>(
    anchor: Anchor,
    asked: (u32, Seq<u8>),
    next: N,
    verify: V,
    pairs: Seq<(int, Seq<u8>)>,
) -> bool {
    exists|arrivals: Seq<(int, Seq<u8>)>, trace: Seq<Seq<(int, Seq<u8>)>>|
        {
            &&& #[trigger] tallied(anchor, asked, next, verify, arrivals, trace)
            &&& trace.last() == pairs
            &&& stopped(next, arrivals.len(), pairs.len())
        }
}

/// What the offers so far led to, with one more behind them.
proof fn lemma_offered_next<V: Fn(&SignatureCheck) -> bool>(
    anchor: Anchor,
    asked: (u32, Seq<u8>),
    verify: V,
    arrivals: Seq<(int, Seq<u8>)>,
    trace: Seq<Seq<(int, Seq<u8>)>>,
    arrival: (int, Seq<u8>),
    after: Seq<(int, Seq<u8>)>,
)
    requires
        offered_in_turn(anchor, asked, verify, arrivals, trace),
        offered(anchor, asked, verify, trace.last(), arrival, after),
    ensures
        offered_in_turn(anchor, asked, verify, arrivals.push(arrival), trace.push(after)),
{
    let (a, t) = (arrivals.push(arrival), trace.push(after));
    assert forall|k: int| 0 <= k < a.len() implies offered(
        anchor,
        asked,
        verify,
        t[k],
        #[trigger] a[k],
        t[k + 1],
    ) by {
        if k < arrivals.len() {
            assert(a[k] == arrivals[k]);
            assert(t[k] == trace[k] && t[k + 1] == trace[k + 1]);
        } else {
            assert(t[k] == trace.last() && t[k + 1] == after);
        }
    }
}

/// Collects from answers that are already there: each is offered in its turn, and none is
/// left out.
pub fn collect_from<V: Fn(&SignatureCheck) -> bool + Copy>(
    collector: Collector,
    answers: &[(usize, XmssSignature)],
    xmss_verify: V,
) -> (done: Collector)
    requires
        collector.pairs() == Seq::<(int, Seq<u8>)>::empty(),
        forall|c: &SignatureCheck| call_requires(xmss_verify, (c,)),
    ensures
        done.anchor() == collector.anchor(),
        done.asked() == collector.asked(),
        exists|trace: Seq<Seq<(int, Seq<u8>)>>|
            #[trigger] offered_in_turn(
                collector.anchor(),
                collector.asked(),
                xmss_verify,
                signer_pairs(answers@),
                trace,
            ) && trace.last() == done.pairs(),
{
    let ghost (anchor, asked) = (collector.anchor(), collector.asked());
    let ghost arrivals = signer_pairs(answers@);
    let mut done = collector;
    let ghost mut trace: Seq<Seq<(int, Seq<u8>)>> = seq![done.pairs()];
    let mut i: usize = 0;
    assert(arrivals.subrange(0, 0) =~= Seq::empty());
    while i < answers.len()
        invariant
            i <= answers@.len(),
            arrivals == signer_pairs(answers@),
            done.anchor() == anchor,
            done.asked() == asked,
            forall|c: &SignatureCheck| call_requires(xmss_verify, (c,)),
            offered_in_turn(anchor, asked, xmss_verify, arrivals.subrange(0, i as int), trace),
            trace.last() == done.pairs(),
        decreases answers@.len() - i,
    {
        let ghost before = done.pairs();
        let index: usize = answers[i].0;
        let signature = answers[i].1.clone();
        let ghost arrival = (index as int, signature@);
        let counted = done.offer(index, signature, xmss_verify);
        proof {
            assert(arrivals[i as int] == arrival);
            assert(offered(anchor, asked, xmss_verify, before, arrival, done.pairs()));
            lemma_offered_next(
                anchor,
                asked,
                xmss_verify,
                arrivals.subrange(0, i as int),
                trace,
                arrival,
                done.pairs(),
            );
            assert(arrivals.subrange(0, i as int).push(arrival) =~= arrivals.subrange(0, i + 1));
            trace = trace.push(done.pairs());
        }
        i = i + 1;
    }
    assert(arrivals.subrange(0, i as int) =~= arrivals);
    done
}

/// Collects signatures until enough count, nothing more comes or every member has
/// answered. `next(k)` waits for the answer with number `k`, counted from zero, and gives
/// nothing once the window is over. Which answers come, and when, is up to the network;
/// whatever comes is offered in its turn, and none is left out.
///
/// The slowest members of a healthy committee do not appear in the record. Their slot is
/// spent all the same, which is why the next round derives a fresh one for everybody.
pub fn collect_signatures<
    N: Fn(usize) -> Option<(usize, XmssSignature)>,
    V: Fn(&SignatureCheck) -> bool + Copy,
>(collector: Collector, next: N, xmss_verify: V) -> (done: Collector)
    requires
        collector.pairs() == Seq::<(int, Seq<u8>)>::empty(),
        may_wait(next),
        forall|c: &SignatureCheck| call_requires(xmss_verify, (c,)),
    ensures
        done.anchor() == collector.anchor(),
        done.asked() == collector.asked(),
        gathered(collector.anchor(), collector.asked(), next, xmss_verify, done.pairs()),
{
    let ghost (anchor, asked) = (collector.anchor(), collector.asked());
    let mut done = collector;
    let ghost mut arrivals: Seq<(int, Seq<u8>)> = Seq::empty();
    let ghost mut trace: Seq<Seq<(int, Seq<u8>)>> = seq![done.pairs()];
    let mut answers: usize = 0;
    let mut waiting: bool = true;
    while waiting && answers < N_MEMBERS && !done.complete()
        invariant
            answers <= N_MEMBERS,
            done.anchor() == anchor,
            done.asked() == asked,
            may_wait(next),
            forall|c: &SignatureCheck| call_requires(xmss_verify, (c,)),
            arrivals.len() == answers,
            trace.last() == done.pairs(),
            tallied(anchor, asked, next, xmss_verify, arrivals, trace),
            !waiting ==> call_ensures(next, (answers,), None),
        decreases N_MEMBERS - answers, waiting as int,
    {
        match next(answers) {
            None => {
                waiting = false;
            },
            Some((index, signature)) => {
                let ghost arrival = (index as int, signature@);
                let ghost before = done.pairs();
                proof {
                    assert(call_ensures(next, ((answers as int) as usize,), Some((index, signature))));
                    assert(arrived(next, answers as int, arrival));
                }
                let counted = done.offer(index, signature, xmss_verify);
                answers = answers + 1;
                proof {
                    assert(offered(anchor, asked, xmss_verify, before, arrival, done.pairs()));
                    lemma_offered_next(
                        anchor,
                        asked,
                        xmss_verify,
                        arrivals,
                        trace,
                        arrival,
                        done.pairs(),
                    );
                    let a = arrivals.push(arrival);
                    assert forall|k: int| 0 <= k < a.len() implies arrived(
                        next,
                        k,
                        #[trigger] a[k],
                    ) by {
                        if k < arrivals.len() {
                            assert(a[k] == arrivals[k]);
                        }
                    }
                    arrivals = a;
                    trace = trace.push(done.pairs());
                }
            },
        }
    }
    proof {
        assert(tallied(anchor, asked, next, xmss_verify, arrivals, trace));
        assert(stopped(next, arrivals.len(), done.pairs().len()));
    }
    done
}

/// What a signature that counts had to confirm.
pub open spec fn counted_check(anchor: Anchor, asked: (u32, Seq<u8>), pair: (int, Seq<u8>)) -> CheckView {
    CheckView { key: anchor.members[pair.0], slot: asked.0, message: asked.1, signature: pair.1 }
}

/// Every signature that counts was confirmed against the anchor's key for its member.
pub proof fn law_every_counted_signature_was_confirmed<
    N: Fn(usize) -> Option<(usize, XmssSignature)>,
    V: Fn(&SignatureCheck) -> bool,
>(
    anchor: Anchor,
    asked: (u32, Seq<u8>),
    next: N,
    verify: V,
    arrivals: Seq<(int, Seq<u8>)>,
    trace: Seq<Seq<(int, Seq<u8>)>>,
    i: int,
    k: int,
)
    requires
        tallied(anchor, asked, next, verify, arrivals, trace),
        0 <= i < trace.len(),
        0 <= k < trace[i].len(),
    ensures
        answered(verify, counted_check(anchor, asked, trace[i][k]), true),
    decreases i,
{
    if i > 0 {
        assert(arrived(next, i - 1, arrivals[i - 1]));
        if k < trace[i - 1].len() {
            law_every_counted_signature_was_confirmed(
                anchor,
                asked,
                next,
                verify,
                arrivals,
                trace,
                i - 1,
                k,
            );
        }
    }
}

/// Whether `publish` was asked to publish the record of a version and answered so.
pub open spec fn publish_asked<P: FnOnce(u32, &[u8]) -> Result<(), String>>(
    publish: P,
    version: u32,
    bytes: Seq<u8>,
    answer: Result<(), String>,
) -> bool {
    exists|b: &[u8]| b@ == bytes && #[trigger] call_ensures(publish, (version, b), answer)
}

/// The answer to the holder for what publishing came to.
pub open spec fn close_reply(round: RoundView, published: Result<(), String>, reply: Reply) -> bool {
    match published {
        Ok(_) => replies(reply, MSG_VC_ISSUED, versioned_bytes(round.version, round.credential)),
        Err(why) => fails(reply, "cannot publish: "@ + why@),
    }
}

/// Whether `r` is the record of a quorum in the form the mode publishes, or why there is
/// none.
pub open spec fn record_built<A: FnOnce(&AggregateRequest) -> Vec<u8>>(
    anchor: Anchor,
    mode: Mode,
    index: usize,
    can_prove: bool,
    round: RoundView,
    pairs: Seq<(int, Seq<u8>)>,
    aggregate: A,
    r: Result<Vec<u8>, String>,
) -> bool {
    match mode {
        Mode::Raw => {
            &&& r is Ok <==> distinct_indices(pairs) && indices_below(pairs, N_MEMBERS as int)
            &&& r is Ok ==> r->Ok_0@ == raw_record(
                Algorithms::WotsXmss,
                assembled(round.list, round.version, pairs, N_MEMBERS as int),
            ).encode()
            &&& r is Err && !distinct_indices(pairs) ==> r->Err_0@
                == StatusListError::DuplicateSigner.message()
            &&& r is Err && distinct_indices(pairs) ==> exists|i: usize|
                {
                    &&& #[trigger] named(pairs, i as int)
                    &&& indices_below(pairs, i + 1)
                    &&& r->Err_0@ == (StatusListError::SignerOutside {
                        index: i,
                        members: N_MEMBERS,
                    }).message()
                }
        },
        Mode::Snark => if can_prove {
            r is Ok && proof_published(
                anchor,
                round.list,
                round.version,
                pairs,
                aggregate,
                r->Ok_0@,
            )
        } else {
            r is Err && r->Err_0@ == "member "@ + decimal(index as nat)
                + " is not a configured SNARK aggregator"@
        },
    }
}

/// Whether a round that collected `pairs` may publish these bytes for a version: enough
/// signatures count, the version is the round's, and the bytes are the record of the
/// quorum.
pub open spec fn may_publish<A: FnOnce(&AggregateRequest) -> Vec<u8>>(
    anchor: Anchor,
    mode: Mode,
    index: usize,
    can_prove: bool,
    round: RoundView,
    pairs: Seq<(int, Seq<u8>)>,
    aggregate: A,
    version: u32,
    bytes: Seq<u8>,
) -> bool {
    &&& pairs.len() >= THRESHOLD
    &&& version == round.version
    &&& exists|r: Result<Vec<u8>, String>|
        {
            &&& #[trigger] record_built(anchor, mode, index, can_prove, round, pairs, aggregate, r)
            &&& r is Ok && r->Ok_0@ == bytes
        }
}

/// Whether a round that collected `pairs` was answered so: too few signatures fail, and so
/// does a record that cannot be built or published; the credential is handed over only
/// after its record was published.
pub open spec fn collected_answered<
    A: FnOnce(&AggregateRequest) -> Vec<u8>,
    P: FnOnce(u32, &[u8]) -> Result<(), String>,
>(
    anchor: Anchor,
    mode: Mode,
    index: usize,
    can_prove: bool,
    round: RoundView,
    window: Seq<char>,
    pairs: Seq<(int, Seq<u8>)>,
    aggregate: A,
    publish: P,
    reply: Reply,
) -> bool {
    if pairs.len() < THRESHOLD {
        fails(
            reply,
            "only "@ + decimal(pairs.len()) + " of 7 signatures arrived within "@ + window,
        )
    } else {
        exists|r: Result<Vec<u8>, String>|
            {
                &&& #[trigger] record_built(
                    anchor,
                    mode,
                    index,
                    can_prove,
                    round,
                    pairs,
                    aggregate,
                    r,
                )
                &&& record_answered(round, r, publish, reply)
            }
    }
}

/// Whether a record that was built, or could not be, was answered so.
pub open spec fn record_answered<P: FnOnce(u32, &[u8]) -> Result<(), String>>(
    round: RoundView,
    r: Result<Vec<u8>, String>,
    publish: P,
    reply: Reply,
) -> bool {
    match r {
        Err(why) => fails(reply, why@),
        Ok(bytes) => exists|answer: Result<(), String>|
            #[trigger] publish_asked(publish, round.version, bytes@, answer) && close_reply(
                round,
                answer,
                reply,
            ),
    }
}

/// Finishes a round with the signatures that were collected. Where they are too few, or
/// make no record, nothing is published.
pub fn finish_round<
    A: FnOnce(&AggregateRequest) -> Vec<u8>,
    P: FnOnce(u32, &[u8]) -> Result<(), String>,
>(
    mode: Mode,
    index: usize,
    prover: Option<&PQSNARKProverModule>,
    round: &Round,
    window: &str,
    done: Collector,
    aggregate: A,
    publish: P,
) -> (reply: Reply)
    requires
        round@.list.len() <= MAX_ENTRIES,
        done.anchor().slot(round@.version) is Some,
        forall|q: &AggregateRequest|
            done.pairs().len() >= THRESHOLD && may_prove(
                done.anchor(),
                mode,
                prover is Some,
                round@,
                done.pairs(),
                *q,
            ) ==> #[trigger] call_requires(aggregate, (q,)),
        forall|v: u32, b: &[u8]|
            may_publish(
                done.anchor(),
                mode,
                index,
                prover is Some,
                round@,
                done.pairs(),
                aggregate,
                v,
                b@,
            ) ==> #[trigger] call_requires(publish, (v, b)),
    ensures
        collected_answered(
            done.anchor(),
            mode,
            index,
            prover is Some,
            round@,
            window@,
            done.pairs(),
            aggregate,
            publish,
            reply,
        ),
{
    match shortfall(done.count(), window) {
        Some(reply) => {
            return reply;
        },
        None => {},
    }
    let ghost (anchor, pairs) = (done.anchor(), done.pairs());
    let committee = done.committee();
    let quorum = done.into_quorum();
    let built = build_record(&committee, mode, index, prover, round, quorum, aggregate);
    assert(record_built(
        anchor,
        mode,
        index,
        prover is Some,
        round@,
        pairs,
        aggregate,
        built,
    ));
    let reply = match &built {
        Err(why) => failure(why.as_str()),
        Ok(bytes) => {
            let answer = publish(round.version, bytes.as_slice());
            assert(publish_asked(publish, round@.version, bytes@, answer));
            let ghost kept = answer;
            let reply = round.close(answer);
            assert(close_reply(round@, kept, reply));
            reply
        },
    };
    assert(record_answered(round@, built, publish, reply));
    reply
}

/// Whether `broadcast` sent this proposal and answers are taken from `next`.
pub open spec fn broadcast_asked<
    N: Fn(usize) -> Option<(usize, XmssSignature)>,
    B: FnOnce(&[u8]) -> N,
>(broadcast: B, proposal: Seq<u8>, next: N) -> bool {
    exists|b: &[u8]| b@ == proposal && #[trigger] call_ensures(broadcast, (b,), next)
}

/// Whether a round whose answers come from `next` was answered so.
pub open spec fn gathered_answered<
    N: Fn(usize) -> Option<(usize, XmssSignature)>,
    V: Fn(&SignatureCheck) -> bool,
    A: FnOnce(&AggregateRequest) -> Vec<u8>,
    P: FnOnce(u32, &[u8]) -> Result<(), String>,
>(
    anchor: Anchor,
    mode: Mode,
    index: usize,
    can_prove: bool,
    round: RoundView,
    window: Seq<char>,
    next: N,
    verify: V,
    aggregate: A,
    publish: P,
    reply: Reply,
) -> bool {
    exists|pairs: Seq<(int, Seq<u8>)>|
        {
            &&& #[trigger] gathered(anchor, round_asks(anchor, round), next, verify, pairs)
            &&& collected_answered(
                anchor,
                mode,
                index,
                can_prove,
                round,
                window,
                pairs,
                aggregate,
                publish,
                reply,
            )
        }
}

/// The slot and the message a round asks signatures for.
pub open spec fn round_asks(anchor: Anchor, round: RoundView) -> (u32, Seq<u8>) {
    (
        anchor.slot(round.version)->0,
        anchor.message(Algorithms::WotsXmss, round.list, round.version),
    )
}

/// Whether an opened round may send these bytes to everyone: its list fits a record, its
/// version has a slot, and they are its proposal.
pub open spec fn may_broadcast(anchor: Anchor, round: RoundView, bytes: Seq<u8>) -> bool {
    &&& round.list.len() <= MAX_ENTRIES
    &&& anchor.slot(round.version) is Some
    &&& bytes == linked_bytes(round.predecessor, round.version, round.list)
}

/// Whether `pairs` is what came back when an opened round sent its proposal to everyone.
pub open spec fn round_gathered<
    N: Fn(usize) -> Option<(usize, XmssSignature)>,
    B: FnOnce(&[u8]) -> N,
    V: Fn(&SignatureCheck) -> bool,
>(
    anchor: Anchor,
    round: RoundView,
    broadcast: B,
    verify: V,
    pairs: Seq<(int, Seq<u8>)>,
) -> bool {
    &&& round.list.len() <= MAX_ENTRIES
    &&& anchor.slot(round.version) is Some
    &&& exists|next: N|
        {
            &&& #[trigger] broadcast_asked(
                broadcast,
                linked_bytes(round.predecessor, round.version, round.list),
                next,
            )
            &&& gathered(anchor, round_asks(anchor, round), next, verify, pairs)
        }
}

/// Whether an opened round may have this request aggregated: enough signatures came back,
/// and the request is that of their record.
pub open spec fn round_may_prove<
    N: Fn(usize) -> Option<(usize, XmssSignature)>,
    B: FnOnce(&[u8]) -> N,
    V: Fn(&SignatureCheck) -> bool,
>(
    anchor: Anchor,
    mode: Mode,
    can_prove: bool,
    round: RoundView,
    broadcast: B,
    verify: V,
    q: AggregateRequest,
) -> bool {
    exists|pairs: Seq<(int, Seq<u8>)>|
        {
            &&& #[trigger] round_gathered(anchor, round, broadcast, verify, pairs)
            &&& pairs.len() >= THRESHOLD
            &&& may_prove(anchor, mode, can_prove, round, pairs, q)
        }
}

/// Whether an opened round may publish these bytes for a version: they are the record of
/// what came back.
pub open spec fn round_may_publish<
    N: Fn(usize) -> Option<(usize, XmssSignature)>,
    B: FnOnce(&[u8]) -> N,
    V: Fn(&SignatureCheck) -> bool,
    A: FnOnce(&AggregateRequest) -> Vec<u8>,
>(
    anchor: Anchor,
    mode: Mode,
    index: usize,
    can_prove: bool,
    round: RoundView,
    broadcast: B,
    verify: V,
    aggregate: A,
    version: u32,
    bytes: Seq<u8>,
) -> bool {
    exists|pairs: Seq<(int, Seq<u8>)>|
        {
            &&& #[trigger] round_gathered(anchor, round, broadcast, verify, pairs)
            &&& may_publish(
                anchor,
                mode,
                index,
                can_prove,
                round,
                pairs,
                aggregate,
                version,
                bytes,
            )
        }
}

/// Whether an opened round was answered so: its proposal is sent to everyone, and what
/// comes back decides.
pub open spec fn round_answered<
    N: Fn(usize) -> Option<(usize, XmssSignature)>,
    B: FnOnce(&[u8]) -> N,
    V: Fn(&SignatureCheck) -> bool,
    A: FnOnce(&AggregateRequest) -> Vec<u8>,
    P: FnOnce(u32, &[u8]) -> Result<(), String>,
>(
    anchor: Anchor,
    mode: Mode,
    index: usize,
    can_prove: bool,
    round: RoundView,
    window: Seq<char>,
    broadcast: B,
    verify: V,
    aggregate: A,
    publish: P,
    reply: Reply,
) -> bool {
    if round.list.len() > MAX_ENTRIES {
        fails(reply, "status list is full"@)
    } else if anchor.slot(round.version) is None {
        fails(reply, "version has no slot under this anchor"@)
    } else {
        exists|next: N|
            {
                &&& #[trigger] broadcast_asked(
                    broadcast,
                    linked_bytes(round.predecessor, round.version, round.list),
                    next,
                )
                &&& gathered_answered(
                    anchor,
                    mode,
                    index,
                    can_prove,
                    round,
                    window,
                    next,
                    verify,
                    aggregate,
                    publish,
                    reply,
                )
            }
    }
}

/// Runs an opened round to its end.
pub fn run_opened_round<
    N: Fn(usize) -> Option<(usize, XmssSignature)>,
    B: FnOnce(&[u8]) -> N,
    V: Fn(&SignatureCheck) -> bool + Copy,
    A: FnOnce(&AggregateRequest) -> Vec<u8>,
    P: FnOnce(u32, &[u8]) -> Result<(), String>,
>(
    committee: &Committee,
    mode: Mode,
    index: usize,
    prover: Option<&PQSNARKProverModule>,
    round: &Round,
    window: &str,
    broadcast: B,
    xmss_verify: V,
    aggregate: A,
    publish: P,
) -> (reply: Reply)
    requires
        forall|b: &[u8]|
            may_broadcast(committee@, round@, b@) ==> #[trigger] call_requires(broadcast, (b,)),
        forall|b: &[u8], n: N| call_ensures(broadcast, (b,), n) ==> may_wait(n),
        forall|c: &SignatureCheck| call_requires(xmss_verify, (c,)),
        forall|q: &AggregateRequest|
            round_may_prove(
                committee@,
                mode,
                prover is Some,
                round@,
                broadcast,
                xmss_verify,
                *q,
            ) ==> #[trigger] call_requires(aggregate, (q,)),
        forall|v: u32, b: &[u8]|
            round_may_publish(
                committee@,
                mode,
                index,
                prover is Some,
                round@,
                broadcast,
                xmss_verify,
                aggregate,
                v,
                b@,
            ) ==> #[trigger] call_requires(publish, (v, b)),
    ensures
        round_answered(
            committee@,
            mode,
            index,
            prover is Some,
            round@,
            window@,
            broadcast,
            xmss_verify,
            aggregate,
            publish,
            reply,
        ),
{
    assert(views(round.list@).len() == round.list@.len());
    if round.list.len() > MAX_ENTRIES {
        return failure("status list is full");
    }
    let collector = match Collector::new(committee, round.list.as_slice(), round.version) {
        Some(collector) => collector,
        None => {
            return failure("version has no slot under this anchor");
        },
    };
    let proposal = round.proposal();
    let next = broadcast(proposal.as_slice());
    assert(broadcast_asked(
        broadcast,
        linked_bytes(round@.predecessor, round@.version, round@.list),
        next,
    ));
    let ghost waiting = next;
    assert(collector.asked() == round_asks(committee@, round@));
    let done = collect_signatures(collector, next, xmss_verify);
    let ghost pairs = done.pairs();
    assert(gathered(
        committee@,
        round_asks(committee@, round@),
        waiting,
        xmss_verify,
        pairs,
    ));
    assert(round_gathered(committee@, round@, broadcast, xmss_verify, pairs));
    let reply = finish_round(mode, index, prover, round, window, done, aggregate, publish);
    assert(gathered_answered(
        committee@,
        mode,
        index,
        prover is Some,
        round@,
        window@,
        waiting,
        xmss_verify,
        aggregate,
        publish,
        reply,
    ));
    reply
}

/// Whether a request may send these bytes to everyone: it opened a round that may.
pub open spec fn request_may_broadcast(
    anchor: Anchor,
    opened: Result<RoundView, Seq<char>>,
    bytes: Seq<u8>,
) -> bool {
    opened is Ok && may_broadcast(anchor, opened->Ok_0, bytes)
}

/// Whether a request may have this aggregated: it opened a round that may.
pub open spec fn request_may_prove<
    N: Fn(usize) -> Option<(usize, XmssSignature)>,
    B: FnOnce(&[u8]) -> N,
    V: Fn(&SignatureCheck) -> bool,
>(
    anchor: Anchor,
    mode: Mode,
    can_prove: bool,
    opened: Result<RoundView, Seq<char>>,
    broadcast: B,
    verify: V,
    q: AggregateRequest,
) -> bool {
    opened is Ok && round_may_prove(anchor, mode, can_prove, opened->Ok_0, broadcast, verify, q)
}

/// Whether a request may publish these bytes for a version: it opened a round that may.
pub open spec fn request_may_publish<
    N: Fn(usize) -> Option<(usize, XmssSignature)>,
    B: FnOnce(&[u8]) -> N,
    V: Fn(&SignatureCheck) -> bool,
    A: FnOnce(&AggregateRequest) -> Vec<u8>,
>(
    anchor: Anchor,
    mode: Mode,
    index: usize,
    can_prove: bool,
    opened: Result<RoundView, Seq<char>>,
    broadcast: B,
    verify: V,
    aggregate: A,
    version: u32,
    bytes: Seq<u8>,
) -> bool {
    opened is Ok && round_may_publish(
        anchor,
        mode,
        index,
        can_prove,
        opened->Ok_0,
        broadcast,
        verify,
        aggregate,
        version,
        bytes,
    )
}

/// Whether a credential request was answered so, with some identifier for the credential.
pub open spec fn request_answered<
    N: Fn(usize) -> Option<(usize, XmssSignature)>,
    B: FnOnce(&[u8]) -> N,
    V: Fn(&SignatureCheck) -> bool,
    A: FnOnce(&AggregateRequest) -> Vec<u8>,
    P: FnOnce(u32, &[u8]) -> Result<(), String>,
>(
    anchor: Anchor,
    mode: Mode,
    index: usize,
    can_prove: bool,
    opened: Result<RoundView, Seq<char>>,
    window: Seq<char>,
    broadcast: B,
    verify: V,
    aggregate: A,
    publish: P,
    reply: Reply,
) -> bool {
    match opened {
        Err(why) => fails(reply, why),
        Ok(round) => round_answered(
            anchor,
            mode,
            index,
            can_prove,
            round,
            window,
            broadcast,
            verify,
            aggregate,
            publish,
            reply,
        ),
    }
}

/// The aggregator's side of a round, from the request to the answer. `latest` is the
/// newest published record, `window` how long signatures are waited for, in words. A
/// refused request sends nothing to anyone, and nothing but the record of a quorum is
/// published.
pub fn on_credential_request<
    N: Fn(usize) -> Option<(usize, XmssSignature)>,
    B: FnOnce(&[u8]) -> N,
    V: Fn(&SignatureCheck) -> bool + Copy,
    A: FnOnce(&AggregateRequest) -> Vec<u8>,
    P: FnOnce(u32, &[u8]) -> Result<(), String>,
>(
    committee: &Committee,
    mode: Mode,
    provers: &[usize],
    index: usize,
    prover: Option<&PQSNARKProverModule>,
    payload: &[u8],
    latest: Option<&[u8]>,
    window: &str,
    broadcast: B,
    xmss_verify: V,
    aggregate: A,
    publish: P,
) -> (reply: Reply)
    requires
        forall|id: Seq<u8>, b: &[u8]|
            id.len() == 16 && request_may_broadcast(
                committee@,
                #[trigger] round_of(
                    committee@,
                    mode,
                    provers@,
                    index,
                    payload@,
                    latest_view(latest),
                    id,
                ),
                b@,
            ) ==> #[trigger] call_requires(broadcast, (b,)),
        forall|b: &[u8], n: N| call_ensures(broadcast, (b,), n) ==> may_wait(n),
        forall|c: &SignatureCheck| call_requires(xmss_verify, (c,)),
        forall|id: Seq<u8>, q: &AggregateRequest|
            id.len() == 16 && request_may_prove(
                committee@,
                mode,
                prover is Some,
                #[trigger] round_of(
                    committee@,
                    mode,
                    provers@,
                    index,
                    payload@,
                    latest_view(latest),
                    id,
                ),
                broadcast,
                xmss_verify,
                *q,
            ) ==> #[trigger] call_requires(aggregate, (q,)),
        forall|id: Seq<u8>, v: u32, b: &[u8]|
            id.len() == 16 && request_may_publish(
                committee@,
                mode,
                index,
                prover is Some,
                #[trigger] round_of(
                    committee@,
                    mode,
                    provers@,
                    index,
                    payload@,
                    latest_view(latest),
                    id,
                ),
                broadcast,
                xmss_verify,
                aggregate,
                v,
                b@,
            ) ==> #[trigger] call_requires(publish, (v, b)),
    ensures
        exists|id: Seq<u8>|
            id.len() == 16 && request_answered(
                committee@,
                mode,
                index,
                prover is Some,
                #[trigger] round_of(
                    committee@,
                    mode,
                    provers@,
                    index,
                    payload@,
                    latest_view(latest),
                    id,
                ),
                window@,
                broadcast,
                xmss_verify,
                aggregate,
                publish,
                reply,
            ),
{
    match begin_round(committee, mode, provers, index, payload, latest) {
        Err(why) => failure(why.as_str()),
        Ok(round) => run_opened_round(
            committee,
            mode,
            index,
            prover,
            &round,
            window,
            broadcast,
            xmss_verify,
            aggregate,
            publish,
        ),
    }
}

proof fn lemma_tallied<
    N: Fn(usize) -> Option<(usize, XmssSignature)>,
    V: Fn(&SignatureCheck) -> bool,
>(
    anchor: Anchor,
    asked: (u32, Seq<u8>),
    next: N,
    verify: V,
    arrivals: Seq<(int, Seq<u8>)>,
    trace: Seq<Seq<(int, Seq<u8>)>>,
    i: int,
)
    requires
        tallied(anchor, asked, next, verify, arrivals, trace),
        0 <= i < trace.len(),
    ensures
        distinct_indices(trace[i]),
        indices_below(trace[i], anchor.members.len() as int),
    decreases i,
{
    if i > 0 {
        lemma_tallied(anchor, asked, next, verify, arrivals, trace, i - 1);
        assert(arrived(next, i - 1, arrivals[i - 1]));
        if trace[i] != trace[i - 1] {
            lemma_pushed(trace[i - 1], arrivals[i - 1], anchor.members.len() as int);
        }
    }
}

/// Nothing but the record of a quorum is published: it is for the round's version, and
/// behind it are the signatures of enough different members, each of which was confirmed
/// over the round's list.
pub proof fn law_only_the_record_of_a_quorum_is_published<
    N: Fn(usize) -> Option<(usize, XmssSignature)>,
    B: FnOnce(&[u8]) -> N,
    V: Fn(&SignatureCheck) -> bool,
    A: FnOnce(&AggregateRequest) -> Vec<u8>,
>(
    anchor: Anchor,
    mode: Mode,
    index: usize,
    can_prove: bool,
    opened: Result<RoundView, Seq<char>>,
    broadcast: B,
    verify: V,
    aggregate: A,
    version: u32,
    bytes: Seq<u8>,
)
    requires
        request_may_publish(
            anchor,
            mode,
            index,
            can_prove,
            opened,
            broadcast,
            verify,
            aggregate,
            version,
            bytes,
        ),
    ensures
        opened is Ok,
        version == opened->Ok_0.version,
        exists|pairs: Seq<(int, Seq<u8>)>|
            {
                &&& pairs.len() >= THRESHOLD
                &&& distinct_indices(pairs)
                &&& indices_below(pairs, anchor.members.len() as int)
                &&& forall|k: int|
                    0 <= k < pairs.len() ==> answered(
                        verify,
                        counted_check(
                            anchor,
                            round_asks(anchor, opened->Ok_0),
                            #[trigger] pairs[k],
                        ),
                        true,
                    )
                &&& #[trigger] may_publish(
                    anchor,
                    mode,
                    index,
                    can_prove,
                    opened->Ok_0,
                    pairs,
                    aggregate,
                    version,
                    bytes,
                )
            },
{
    let round = opened->Ok_0;
    let pairs = choose|pairs: Seq<(int, Seq<u8>)>|
        {
            &&& #[trigger] round_gathered(anchor, round, broadcast, verify, pairs)
            &&& may_publish(
                anchor,
                mode,
                index,
                can_prove,
                round,
                pairs,
                aggregate,
                version,
                bytes,
            )
        };
    let asked = round_asks(anchor, round);
    let next = choose|next: N|
        {
            &&& #[trigger] broadcast_asked(
                broadcast,
                linked_bytes(round.predecessor, round.version, round.list),
                next,
            )
            &&& gathered(anchor, asked, next, verify, pairs)
        };
    let (arrivals, trace) = choose|
        arrivals: Seq<(int, Seq<u8>)>,
        trace: Seq<Seq<(int, Seq<u8>)>>,
    |
        {
            &&& #[trigger] tallied(anchor, asked, next, verify, arrivals, trace)
            &&& trace.last() == pairs
            &&& stopped(next, arrivals.len(), pairs.len())
        };
    let last = trace.len() - 1;
    lemma_tallied(anchor, asked, next, verify, arrivals, trace, last);
    assert forall|k: int| 0 <= k < pairs.len() implies answered(
        verify,
        counted_check(anchor, asked, #[trigger] pairs[k]),
        true,
    ) by {
        law_every_counted_signature_was_confirmed(
            anchor,
            asked,
            next,
            verify,
            arrivals,
            trace,
            last,
            k,
        );
    }
    assert(may_publish(
        anchor,
        mode,
        index,
        can_prove,
        round,
        pairs,
        aggregate,
        version,
        bytes,
    ));
}

/// An opened round is about its own version: its credential is the canonical form of the
/// text for the subject that was asked for, the round's version, the member that opened it
/// and the identifier, and its list is the published one with that credential's fingerprint
/// behind it. The round follows what is published, by its number and by its predecessor.
pub proof fn law_an_opened_round_mints_for_its_own_version(
    anchor: Anchor,
    mode: Mode,
    provers: Seq<usize>,
    index: usize,
    payload: Seq<u8>,
    latest: Option<Seq<u8>>,
    id: Seq<u8>,
    round: RoundView,
)
    requires
        round_of(anchor, mode, provers, index, payload, latest, id) == Ok::<
            RoundView,
            Seq<char>,
        >(round),
    ensures
        mode == Mode::Raw ==> index < N_MEMBERS,
        mode == Mode::Snark ==> provers.contains(index),
        payload.len() >= 4,
        payload == single_bytes(payload.subrange(4, payload.len() as int)),
        jcs_canonical(
            credential_text(
                json_quoted(lossy_text(payload.subrange(4, payload.len() as int))),
                round.version,
                index,
                id,
            ),
        ) == Some(round.credential),
        round.list.len() > 0,
        round.list.last() == sha3_256(round.credential),
        match latest {
            None => {
                &&& round.version == 0
                &&& round.predecessor == Seq::new(32, |i: int| 0u8)
                &&& round.list.drop_last() == Seq::<Seq<u8>>::empty()
            },
            Some(b) => match mode {
                Mode::Raw => {
                    &&& decode_raw(b) is Ok
                    &&& round.version == decode_raw(b)->Ok_0.version + 1
                    &&& round.list.drop_last() == decode_raw(b)->Ok_0.list
                    &&& round.predecessor == anchor.message(
                        Algorithms::WotsXmss,
                        decode_raw(b)->Ok_0.list,
                        decode_raw(b)->Ok_0.version,
                    )
                },
                Mode::Snark => {
                    &&& decode_snark(b) is Ok
                    &&& round.version == decode_snark(b)->Ok_0.version + 1
                    &&& round.list.drop_last() == decode_snark(b)->Ok_0.list
                    &&& round.predecessor == anchor.message(
                        Algorithms::WotsXmss,
                        decode_snark(b)->Ok_0.list,
                        decode_snark(b)->Ok_0.version,
                    )
                },
            },
        },
{
    law_a_container_has_one_form(payload, 0);
    assert(payload.subrange(0, 0) =~= Seq::<u8>::empty());
    assert(GENESIS_PREDECESSOR@ =~= Seq::new(32, |i: int| 0u8));
    let next = next_version(anchor, mode, latest)->Ok_0;
    assert(round.list.drop_last() =~= next.2);
}

/// Every member that may aggregate opens a round for every well-formed request, whatever
/// was published before, unless the versions are used up or the credential has no canonical
/// form.
pub proof fn law_a_round_opens_for_every_subject(
    anchor: Anchor,
    mode: Mode,
    provers: Seq<usize>,
    index: usize,
    subject: Seq<u8>,
    latest: Option<Seq<u8>>,
    id: Seq<u8>,
    version: u32,
)
    requires
        match mode {
            Mode::Raw => index < N_MEMBERS,
            Mode::Snark => provers.contains(index),
        },
        match latest {
            None => version == 0,
            Some(b) => match mode {
                Mode::Raw => decode_raw(b) is Ok && decode_raw(b)->Ok_0.version + 1 == version,
                Mode::Snark => decode_snark(b) is Ok && decode_snark(b)->Ok_0.version + 1
                    == version,
            },
        },
        jcs_canonical(
            credential_text(json_quoted(lossy_text(subject)), version, index, id),
        ) is Some,
    ensures
        round_of(anchor, mode, provers, index, single_bytes(subject), latest, id) is Ok,
{
    law_a_tail_is_read_back(Seq::empty(), subject);
    let able = aggregators(mode, provers);
    if mode == Mode::Raw {
        assert(able[index as int] == index);
    }
}

/// A request that opens no round is told why: a member that may not aggregate comes first,
/// then a request that is no container, then what is published and cannot be followed, and
/// last a credential without a canonical form.
pub proof fn law_a_request_is_refused_for_what_is_wrong(
    anchor: Anchor,
    mode: Mode,
    provers: Seq<usize>,
    index: usize,
    payload: Seq<u8>,
    latest: Option<Seq<u8>>,
    id: Seq<u8>,
)
    ensures
        ({
            let r = round_of(anchor, mode, provers, index, payload, latest, id);
            let able = match mode {
                Mode::Raw => index < N_MEMBERS,
                Mode::Snark => provers.contains(index),
            };
            let shaped = payload.len() >= 4 && payload.subrange(0, 4) == le32(4);
            let read = published_list(mode, latest->0);
            &&& !able ==> r == Err::<RoundView, Seq<char>>(signer_only_text(mode, provers, index))
            &&& able && !shaped ==> r is Err && r->Err_0 == "malformed request: "@ + tail_refusal(
                payload,
                0,
            )->0.message()
            &&& able && shaped && latest is Some && read is Err ==> r is Err && r->Err_0
                == "published record is unreadable: "@ + read->Err_0.message()
            &&& able && shaped && latest is Some && read is Ok && (read->Ok_0).0 == u32::MAX ==> r
                == Err::<RoundView, Seq<char>>("status-list version exhausted"@)
            &&& able && shaped && r is Err && (latest is None || (read is Ok && (read->Ok_0).0
                < u32::MAX)) ==> r == Err::<RoundView, Seq<char>>(
                "credential cannot be serialised"@,
            )
        }),
{
    let able = aggregators(mode, provers);
    if mode == Mode::Raw {
        if index < N_MEMBERS {
            assert(able[index as int] == index);
        }
        if able.contains(index) {
            let k = choose|k: int| 0 <= k < able.len() && able[k] == index;
            assert(index == k);
        }
    }
    lemma_le32(4);
    if payload.len() >= 4 {
        lemma_from_le32(payload.subrange(0, 4));
    }
}

/// An answer is taken for what its member sent: a signature is that signature, an abstention
/// is none, and a failure is told in the words it came with.
pub proof fn law_an_answer_is_taken_for_what_was_sent(
    signature: Seq<u8>,
    reason: Seq<char>,
    kind: u8,
)
    requires
        signature.len() == SIGNATURE_SSZ_LEN,
    ensures
        answer_of(3, signed_reply(signature)) == Ok::<Option<Seq<u8>>, Seq<char>>(Some(signature)),
        answer_of(3, abstained_reply(reason)) == Ok::<Option<Seq<u8>>, Seq<char>>(None),
        kind != 3 ==> answer_of(kind, failure_bytes(reason)) == Err::<Option<Seq<u8>>, Seq<char>>(
            reason,
        ),
{
    law_a_signature_is_read_back(signature);
    law_an_abstention_carries_no_signature(reason);
    law_a_reason_is_read_back(reason);
}

/// Offering a signature counts it exactly when seven do not count yet, the member is one of
/// the committee and was not counted before, and the signature is confirmed against that
/// member's key at the round's slot over the round's message. Nothing else changes what
/// counts, and what counts is never taken back.
pub proof fn law_a_confirmed_signature_counts_once<V: Fn(&SignatureCheck) -> bool>(
    anchor: Anchor,
    asked: (u32, Seq<u8>),
    verify: V,
    before: Seq<(int, Seq<u8>)>,
    arrival: (int, Seq<u8>),
    after: Seq<(int, Seq<u8>)>,
)
    requires
        offered(anchor, asked, verify, before, arrival, after),
        arrival.0 >= 0,
    ensures
        ({
            let check = CheckView {
                key: anchor.members[arrival.0],
                slot: asked.0,
                message: asked.1,
                signature: arrival.1,
            };
            let there = exists|k: int| 0 <= k < before.len() && (#[trigger] before[k]).0 == arrival.0;
            let open = before.len() < 7 && arrival.0 < anchor.members.len() && !there;
            &&& after == before || after == before.push(arrival)
            &&& !open ==> after == before
            &&& open && !answered(verify, check, false) ==> after == before.push(arrival)
            &&& open && !answered(verify, check, true) ==> after == before
        }),
{
    let there = exists|k: int| 0 <= k < before.len() && (#[trigger] before[k]).0 == arrival.0;
    assert(there == named(before, arrival.0));
}

/// When every answer is a confirmed signature by another member, the first seven count, in
/// the order they came.
pub proof fn law_the_first_seven_confirmed_signatures_count<V: Fn(&SignatureCheck) -> bool>(
    anchor: Anchor,
    asked: (u32, Seq<u8>),
    verify: V,
    arrivals: Seq<(int, Seq<u8>)>,
    trace: Seq<Seq<(int, Seq<u8>)>>,
    n: int,
)
    requires
        offered_in_turn(anchor, asked, verify, arrivals, trace),
        distinct_indices(arrivals),
        forall|k: int|
            0 <= k < arrivals.len() ==> 0 <= (#[trigger] arrivals[k]).0 < anchor.members.len()
                && !answered(
                verify,
                CheckView {
                    key: anchor.members[arrivals[k].0],
                    slot: asked.0,
                    message: asked.1,
                    signature: arrivals[k].1,
                },
                false,
            ),
        0 <= n <= arrivals.len(),
    ensures
        n <= 7 ==> trace[n] == arrivals.subrange(0, n),
        n > 7 ==> trace[n] == arrivals.subrange(0, 7),
    decreases n,
{
    if n == 0 {
        assert(arrivals.subrange(0, 0) =~= Seq::<(int, Seq<u8>)>::empty());
    } else {
        law_the_first_seven_confirmed_signatures_count(
            anchor,
            asked,
            verify,
            arrivals,
            trace,
            n - 1,
        );
        let (before, arrival) = (trace[n - 1], arrivals[n - 1]);
        assert(offered(anchor, asked, verify, trace[n - 1], arrivals[n - 1], trace[n - 1 + 1]));
        law_a_confirmed_signature_counts_once(
            anchor,
            asked,
            verify,
            before,
            arrival,
            trace[n],
        );
        if n <= 7 {
            assert forall|k: int| 0 <= k < before.len() implies (#[trigger] before[k]).0
                != arrival.0 by {
                assert(before[k] == arrivals[k]);
            }
            assert(arrivals.subrange(0, n) =~= arrivals.subrange(0, n - 1).push(arrival));
        }
    }
}

/// What is built of a quorum in raw mode decodes to the round's own list and version, with a
/// bit for exactly the members that signed and, for each of them, its signature; the quorum
/// of distinct members of the committee is always built.
pub proof fn law_a_raw_record_holds_the_round_and_its_signers<
    A: FnOnce(&AggregateRequest) -> Vec<u8>,
>(
    anchor: Anchor,
    index: usize,
    can_prove: bool,
    round: RoundView,
    pairs: Seq<(int, Seq<u8>)>,
    aggregate: A,
    r: Result<Vec<u8>, String>,
)
    requires
        record_built(anchor, Mode::Raw, index, can_prove, round, pairs, aggregate, r),
        all_width(round.list, 32),
        round.list.len() <= MAX_ENTRIES,
        pairs_width(pairs, SIGNATURE_SSZ_LEN as int),
        forall|k: int| 0 <= k < pairs.len() ==> 0 <= (#[trigger] pairs[k]).0,
    ensures
        distinct_indices(pairs) && indices_below(pairs, 10) <==> r is Ok,
        r is Ok ==> {
            let read = decode_raw(r->Ok_0@);
            &&& read is Ok
            &&& read->Ok_0.list == round.list
            &&& read->Ok_0.version == round.version
            &&& read->Ok_0.bits.len() == 10
            &&& read->Ok_0.signatures.len() == pairs.len()
            &&& forall|i: int|
                0 <= i < 10 ==> (#[trigger] read->Ok_0.bits[i] <==> exists|k: int|
                    0 <= k < pairs.len() && (#[trigger] pairs[k]).0 == i)
            &&& forall|k: int|
                0 <= k < pairs.len() ==> read->Ok_0.signatures[count_set(
                    read->Ok_0.bits.subrange(0, (#[trigger] pairs[k]).0),
                ) as int] == pairs[k].1
        },
{
    if r is Ok {
        let n = 10int;
        let body = assembled(round.list, round.version, pairs, n);
        let record = raw_record(Algorithms::WotsXmss, body);
        law_every_signature_is_counted(pairs, n);
        lemma_set_indices(body.bits);
        assert(all_width(body.signatures, SIGNATURE_SSZ_LEN as int)) by {
            let width = SIGNATURE_SSZ_LEN;
            assert forall|k: int| 0 <= k < body.signatures.len() implies (
            #[trigger] body.signatures[k]).len() == width by {
                let i = set_indices(body.bits)[k];
                assert(named(pairs, i));
                let p = place_of(pairs, i);
                assert(pairs[p].0 == i);
            }
        }
        assert(record.body() =~= body);
        assert(bitlist_bytes(body.bits).len() == 2);
        law_raw_round_trip(record);
        assert forall|k: int| 0 <= k < pairs.len() implies record.signatures[count_set(
            record.bits.subrange(0, (#[trigger] pairs[k]).0),
        ) as int] == pairs[k].1 by {
            let i = pairs[k].0;
            assert(named(pairs, i));
            assert(body.bits[i]);
            law_a_set_bit_has_its_rank(body.bits, i);
            let p = place_of(pairs, i);
            assert(pairs[p].0 == i);
            assert(p == k) by {
                if p < k {
                    assert(pairs[p].0 != pairs[k].0);
                } else if k < p {
                    assert(pairs[k].0 != pairs[p].0);
                }
            }
        }
    }
}

/// What is built of a quorum in the other mode decodes to the round's own list and version,
/// and its proof is what the prover made of exactly the quorum's signatures, each with its
/// member's key, over the round's statement at the round's slot. A node that proves nothing
/// builds nothing.
pub proof fn law_an_aggregate_is_made_of_the_quorum<A: FnOnce(&AggregateRequest) -> Vec<u8>>(
    anchor: Anchor,
    index: usize,
    can_prove: bool,
    round: RoundView,
    pairs: Seq<(int, Seq<u8>)>,
    aggregate: A,
    r: Result<Vec<u8>, String>,
)
    requires
        record_built(anchor, Mode::Snark, index, can_prove, round, pairs, aggregate, r),
        all_width(round.list, 32),
        round.list.len() <= MAX_ENTRIES,
    ensures
        r is Ok <==> can_prove,
        r is Err ==> r->Err_0@ == "member "@ + decimal(index as nat)
            + " is not a configured SNARK aggregator"@,
        r is Ok ==> {
            let read = decode_snark(r->Ok_0@);
            &&& read is Ok
            &&& read->Ok_0.list == round.list
            &&& read->Ok_0.version == round.version
            &&& exists|q: &AggregateRequest, proven: Vec<u8>|
                {
                    &&& #[trigger] call_ensures(aggregate, (q,), proven)
                    &&& proven@ == read->Ok_0.proof
                    &&& q.message@ == anchor.message(
                        Algorithms::WotsXmss,
                        round.list,
                        round.version,
                    )
                    &&& anchor.genesis_slot + round.version <= u32::MAX ==> q.slot
                        == anchor.genesis_slot + round.version
                    &&& q.raws@.len() == pairs.len()
                    &&& forall|k: int|
                        0 <= k < pairs.len() ==> (#[trigger] q.raws@[k]).0@
                            == anchor.members[pairs[k].0] && q.raws@[k].1@ == pairs[k].1
                }
        },
{
    if r is Ok {
        assert(proof_published(
            anchor,
            round.list,
            round.version,
            pairs,
            aggregate,
            r->Ok_0@,
        ));
        let (q, proven) = choose|q: &AggregateRequest, proven: Vec<u8>|
            {
                &&& #[trigger] call_ensures(aggregate, (q,), proven)
                &&& raw_views(q.raws@) == keyed(anchor, pairs)
                &&& q.message@ == anchor.message(Algorithms::WotsXmss, round.list, round.version)
                &&& Some(q.slot) == anchor.slot(round.version)
                &&& q.log_inv_rate == LOG_INV_RATE
                &&& r->Ok_0@ == (SnarkRecord {
                    alg: Algorithms::WotsXmss,
                    list: round.list,
                    version: round.version,
                    proof: proven@,
                }).encode()
            };
        let record = SnarkRecord {
            alg: Algorithms::WotsXmss,
            list: round.list,
            version: round.version,
            proof: proven@,
        };
        law_snark_round_trip(record);
        assert(call_ensures(aggregate, (q,), proven));
        let (raws, keys) = (raw_views(q.raws@), keyed(anchor, pairs));
        assert(raws.len() == q.raws@.len() && keys.len() == pairs.len());
        assert forall|k: int| 0 <= k < pairs.len() implies (#[trigger] q.raws@[k]).0@
            == anchor.members[pairs[k].0] && q.raws@[k].1@ == pairs[k].1 by {
            assert(raws[k] == keys[k]);
        }
    }
}

/// A round that collected fewer than seven signatures fails and says how many there were;
/// with seven the record that was built is published under the round's version, and the
/// credential is handed over exactly when that succeeds.
pub proof fn law_a_credential_is_handed_over_once_published<
    A: FnOnce(&AggregateRequest) -> Vec<u8>,
    P: FnOnce(u32, &[u8]) -> Result<(), String>,
>(
    anchor: Anchor,
    mode: Mode,
    index: usize,
    can_prove: bool,
    round: RoundView,
    window: Seq<char>,
    pairs: Seq<(int, Seq<u8>)>,
    aggregate: A,
    publish: P,
    reply: Reply,
)
    requires
        collected_answered(
            anchor,
            mode,
            index,
            can_prove,
            round,
            window,
            pairs,
            aggregate,
            publish,
            reply,
        ),
    ensures
        pairs.len() < 7 ==> reply.kind == 5 && reply.payload@ == failure_bytes(
            "only "@ + decimal(pairs.len()) + " of 7 signatures arrived within "@ + window,
        ),
        pairs.len() >= 7 ==> exists|r: Result<Vec<u8>, String>|
            {
                &&& #[trigger] record_built(
                    anchor,
                    mode,
                    index,
                    can_prove,
                    round,
                    pairs,
                    aggregate,
                    r,
                )
                &&& r is Err ==> reply.kind == 5 && reply.payload@ == failure_bytes(r->Err_0@)
                &&& r is Ok ==> exists|b: &[u8], answer: Result<(), String>|
                    {
                        &&& b@ == r->Ok_0@
                        &&& #[trigger] call_ensures(publish, (round.version, b), answer)
                        &&& answer is Ok ==> reply.kind == 4 && reply.payload@ == versioned_bytes(
                            round.version,
                            round.credential,
                        )
                        &&& answer is Err ==> reply.kind == 5 && reply.payload@ == failure_bytes(
                            "cannot publish: "@ + answer->Err_0@,
                        )
                    }
            },
{
    if pairs.len() >= 7 {
        let r = choose|r: Result<Vec<u8>, String>|
            {
                &&& #[trigger] record_built(
                    anchor,
                    mode,
                    index,
                    can_prove,
                    round,
                    pairs,
                    aggregate,
                    r,
                )
                &&& record_answered(round, r, publish, reply)
            };
        assert(record_built(anchor, mode, index, can_prove, round, pairs, aggregate, r));
        if r is Ok {
            let answer = choose|answer: Result<(), String>|
                #[trigger] publish_asked(publish, round.version, r->Ok_0@, answer) && close_reply(
                    round,
                    answer,
                    reply,
                );
            let b = choose|b: &[u8]|
                b@ == r->Ok_0@ && #[trigger] call_ensures(publish, (round.version, b), answer);
            assert(call_ensures(publish, (round.version, b), answer));
        }
    }
}

/// An opened round asks for what it is about: its proposal goes to everyone with its own
/// predecessor, version and list, and the signatures that come back are counted for the
/// genesis slot plus its version and for the statement of its list and version. A list that
/// is full and a version without a slot are refused instead.
pub proof fn law_an_opened_round_asks_for_its_own_list<
    N: Fn(usize) -> Option<(usize, XmssSignature)>,
    B: FnOnce(&[u8]) -> N,
    V: Fn(&SignatureCheck) -> bool,
    A: FnOnce(&AggregateRequest) -> Vec<u8>,
    P: FnOnce(u32, &[u8]) -> Result<(), String>,
>(
    anchor: Anchor,
    mode: Mode,
    index: usize,
    can_prove: bool,
    round: RoundView,
    window: Seq<char>,
    broadcast: B,
    verify: V,
    aggregate: A,
    publish: P,
    reply: Reply,
)
    requires
        request_answered(
            anchor,
            mode,
            index,
            can_prove,
            Ok(round),
            window,
            broadcast,
            verify,
            aggregate,
            publish,
            reply,
        ),
    ensures
        round.list.len() > MAX_ENTRIES ==> reply.kind == 5 && reply.payload@ == failure_bytes(
            "status list is full"@,
        ),
        round.list.len() <= MAX_ENTRIES && anchor.genesis_slot + round.version > u32::MAX
            ==> reply.kind == 5 && reply.payload@ == failure_bytes(
            "version has no slot under this anchor"@,
        ),
        round.list.len() <= MAX_ENTRIES && anchor.genesis_slot + round.version <= u32::MAX
            ==> exists|b: &[u8], next: N, pairs: Seq<(int, Seq<u8>)>|
            {
                &&& b@ == linked_bytes(round.predecessor, round.version, round.list)
                &&& #[trigger] call_ensures(broadcast, (b,), next)
                &&& #[trigger] gathered(
                    anchor,
                    (
                        (anchor.genesis_slot + round.version) as u32,
                        anchor.message(Algorithms::WotsXmss, round.list, round.version),
                    ),
                    next,
                    verify,
                    pairs,
                )
                &&& collected_answered(
                    anchor,
                    mode,
                    index,
                    can_prove,
                    round,
                    window,
                    pairs,
                    aggregate,
                    publish,
                    reply,
                )
            },
{
    if round.list.len() <= MAX_ENTRIES && anchor.genesis_slot + round.version <= u32::MAX {
        let sent = linked_bytes(round.predecessor, round.version, round.list);
        let next = choose|next: N|
            {
                &&& #[trigger] broadcast_asked(broadcast, sent, next)
                &&& gathered_answered(
                    anchor,
                    mode,
                    index,
                    can_prove,
                    round,
                    window,
                    next,
                    verify,
                    aggregate,
                    publish,
                    reply,
                )
            };
        let b = choose|b: &[u8]| b@ == sent && #[trigger] call_ensures(broadcast, (b,), next);
        let asked = round_asks(anchor, round);
        let pairs = choose|pairs: Seq<(int, Seq<u8>)>|
            {
                &&& #[trigger] gathered(anchor, asked, next, verify, pairs)
                &&& collected_answered(
                    anchor,
                    mode,
                    index,
                    can_prove,
                    round,
                    window,
                    pairs,
                    aggregate,
                    publish,
                    reply,
                )
            };
        assert(call_ensures(broadcast, (b,), next));
        assert(gathered(anchor, asked, next, verify, pairs));
    }
}

/// A request that opens no round is answered with the reason, and nothing else happens.
pub proof fn law_a_refused_request_is_answered_with_the_reason<
    N: Fn(usize) -> Option<(usize, XmssSignature)>,
    B: FnOnce(&[u8]) -> N,
    V: Fn(&SignatureCheck) -> bool,
    A: FnOnce(&AggregateRequest) -> Vec<u8>,
    P: FnOnce(u32, &[u8]) -> Result<(), String>,
>(
    anchor: Anchor,
    mode: Mode,
    index: usize,
    can_prove: bool,
    why: Seq<char>,
    window: Seq<char>,
    broadcast: B,
    verify: V,
    aggregate: A,
    publish: P,
    reply: Reply,
    bytes: Seq<u8>,
    version: u32,
)
    requires
        request_answered(
            anchor,
            mode,
            index,
            can_prove,
            Err(why),
            window,
            broadcast,
            verify,
            aggregate,
            publish,
            reply,
        ),
    ensures
        reply.kind == 5,
        failure_text(reply.payload@) == why,
        !request_may_broadcast(anchor, Err(why), bytes),
        !request_may_publish(
            anchor,
            mode,
            index,
            can_prove,
            Err(why),
            broadcast,
            verify,
            aggregate,
            version,
            bytes,
        ),
{
    law_a_reason_is_read_back(why);
}

/// A round waits for answers until seven signatures count, nothing more comes or all ten
/// members have answered, and takes every answer in the order it came.
pub proof fn law_a_round_waits_for_what_it_needs<
    N: Fn(usize) -> Option<(usize, XmssSignature)>,
    V: Fn(&SignatureCheck) -> bool,
>(
    anchor: Anchor,
    asked: (u32, Seq<u8>),
    next: N,
    verify: V,
    pairs: Seq<(int, Seq<u8>)>,
)
    requires
        gathered(anchor, asked, next, verify, pairs),
    ensures
        exists|arrivals: Seq<(int, Seq<u8>)>, trace: Seq<Seq<(int, Seq<u8>)>>|
            {
                &&& #[trigger] offered_in_turn(anchor, asked, verify, arrivals, trace)
                &&& trace.last() == pairs
                &&& forall|k: int|
                    0 <= k < arrivals.len() ==> arrived(next, k, #[trigger] arrivals[k])
                &&& pairs.len() < 7 && arrivals.len() < 10 ==> call_ensures(
                    next,
                    (arrivals.len() as usize,),
                    None,
                )
            },
{
    let (arrivals, trace) = choose|
        arrivals: Seq<(int, Seq<u8>)>,
        trace: Seq<Seq<(int, Seq<u8>)>>,
    |
        {
            &&& #[trigger] tallied(anchor, asked, next, verify, arrivals, trace)
            &&& trace.last() == pairs
            &&& stopped(next, arrivals.len(), pairs.len())
        };
    assert(offered_in_turn(anchor, asked, verify, arrivals, trace));
}

/// An answer that arrived is one that was handed out in its turn: its member and its
/// signature are those that came.
pub proof fn law_an_arrival_is_what_was_handed_out<N: Fn(usize) -> Option<(usize, XmssSignature)>>(
    next: N,
    k: usize,
    arrival: (int, Seq<u8>),
)
    ensures
        arrived(next, k as int, arrival) <==> exists|member: usize, signature: XmssSignature|
            {
                &&& member == arrival.0
                &&& signature@ == arrival.1
                &&& #[trigger] call_ensures(next, (k,), Some((member, signature)))
            },
{
    assert((k as int) as usize == k);
    if arrived(next, k as int, arrival) {
        let got = choose|got: (usize, XmssSignature)|
            (got.0 as int, got.1@) == arrival && #[trigger] call_ensures(
                next,
                ((k as int) as usize,),
                Some(got),
            );
        assert(call_ensures(next, (k,), Some((got.0, got.1))));
    }
    if exists|member: usize, signature: XmssSignature|
        {
            &&& member == arrival.0
            &&& signature@ == arrival.1
            &&& #[trigger] call_ensures(next, (k,), Some((member, signature)))
        } {
        let (member, signature) = choose|member: usize, signature: XmssSignature|
            {
                &&& member == arrival.0
                &&& signature@ == arrival.1
                &&& #[trigger] call_ensures(next, (k,), Some((member, signature)))
            };
        let got = (member, signature);
        assert(call_ensures(next, ((k as int) as usize,), Some(got)));
    }
}

/// What a round may send, have aggregated and publish is what it is about: its own proposal;
/// the quorum's signatures with their members' keys over its own statement, in the mode that
/// publishes aggregates; and the record of at least seven signatures under its own version.
pub proof fn law_a_round_may_do_what_it_is_about<A: FnOnce(&AggregateRequest) -> Vec<u8>>(
    anchor: Anchor,
    mode: Mode,
    index: usize,
    can_prove: bool,
    round: RoundView,
    pairs: Seq<(int, Seq<u8>)>,
    aggregate: A,
    q: AggregateRequest,
    version: u32,
    bytes: Seq<u8>,
)
    ensures
        may_broadcast(anchor, round, bytes) <==> {
            &&& round.list.len() <= MAX_ENTRIES
            &&& anchor.genesis_slot + round.version <= u32::MAX
            &&& bytes == linked_bytes(round.predecessor, round.version, round.list)
        },
        may_prove(anchor, mode, can_prove, round, pairs, q) ==> {
            &&& mode == Mode::Snark
            &&& can_prove
            &&& q.message@ == anchor.message(Algorithms::WotsXmss, round.list, round.version)
            &&& q.slot == anchor.genesis_slot + round.version
            &&& q.raws@.len() == pairs.len()
            &&& forall|k: int|
                0 <= k < pairs.len() ==> (#[trigger] q.raws@[k]).0@ == anchor.members[pairs[k].0]
                    && q.raws@[k].1@ == pairs[k].1
        },
        may_publish(
            anchor,
            mode,
            index,
            can_prove,
            round,
            pairs,
            aggregate,
            version,
            bytes,
        ) ==> {
            &&& pairs.len() >= 7
            &&& version == round.version
            &&& exists|record: Vec<u8>|
                record@ == bytes && #[trigger] record_built(
                    anchor,
                    mode,
                    index,
                    can_prove,
                    round,
                    pairs,
                    aggregate,
                    Ok(record),
                )
        },
{
    if may_prove(anchor, mode, can_prove, round, pairs, q) {
        let (raws, keys) = (raw_views(q.raws@), keyed(anchor, pairs));
        assert(raws.len() == q.raws@.len() && keys.len() == pairs.len());
        assert forall|k: int| 0 <= k < pairs.len() implies (#[trigger] q.raws@[k]).0@
            == anchor.members[pairs[k].0] && q.raws@[k].1@ == pairs[k].1 by {
            assert(raws[k] == keys[k]);
        }
    }
    if may_publish(anchor, mode, index, can_prove, round, pairs, aggregate, version, bytes) {
        let r = choose|r: Result<Vec<u8>, String>|
            {
                &&& #[trigger] record_built(
                    anchor,
                    mode,
                    index,
                    can_prove,
                    round,
                    pairs,
                    aggregate,
                    r,
                )
                &&& r is Ok && r->Ok_0@ == bytes
            };
        assert(record_built(
            anchor,
            mode,
            index,
            can_prove,
            round,
            pairs,
            aggregate,
            Ok(r->Ok_0),
        ));
    }
}

} // verus!

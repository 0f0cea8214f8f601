//! The relying party: it holds no key, and it knows the committee beforehand.
//!
//! A credential is worth nothing on its own. What makes it meaningful is that its
//! fingerprint stands in a record that enough members of a trusted committee signed,
//! so it is received first and verified afterwards, against bytes from a volume
//! nobody authenticates.
use crate::bitlist::{as_ints, count_set, set_indices};
use crate::bytes::{lemma_from_le32, views};
use crate::demo::config::{
    aggregator_indices, aggregators, contains_index, format_indices, index_list,
    law_who_can_aggregate, Mode, N_MEMBERS,
};
use crate::demo::member::{decode_list, failure, fails, published_list, replies, Reply};
use crate::demo::vc::{is_valid, random_bytes};
use crate::demo::wire::{
    failure_bytes, failure_text, law_a_container_has_one_form, law_a_reason_is_read_back,
    law_a_tail_is_read_back, law_a_versioned_message_is_read_back, single_bytes, tail, tail_framed,
    version_in, versioned_bytes, Failure, VcIssued, VcRequest, MSG_ROUND_REQUEST, MSG_ROUND_RESULT, MSG_VC_ISSUED,
};
use crate::hash::sha3_256;
use crate::node::raw_node::{raw_accepted, RawNode};
use crate::node::raw_verifier::{confirmed, SignatureCheck};
use crate::node::snark_node::{snark_accepted, SnarkNode};
use crate::node::snark_verifier::{proven, Aggregate};
use crate::node::{raw_node, snark_node, Outcome};
use crate::protocol::committee::Anchor;
use crate::protocol::status_list::{decode_raw, decode_snark, StatusList};
use crate::protocol::xmss::signature_views;
use crate::state::freshness::Mark;
use crate::text::{
    chars_of, decimal, is_text, joined, lemma_parse_decimal, lossy_text, numbered, parse_upto, parse_usize, push_decimal,
    text_bytes, utf8_text_lossy,
};
use vstd::prelude::*;
use vstd::string::*;
use vstd::utf8::encode_utf8;

verus! {

// ---- triggers ----------------------------------------------------------------

/// The subject a trigger asks a credential for: none for verifying only, the
/// configured one by default, otherwise the one it names. A trigger that cannot be
/// read is one for verifying only.
pub open spec fn trigger_subject(payload: Seq<u8>, configured: Seq<char>) -> Option<Seq<char>> {
    let asked = lossy_text(tail(payload, 0));
    if !tail_framed(payload, 0) || asked.len() == 0 {
        None
    } else if asked == "default"@ {
        Some(configured)
    } else {
        Some(asked)
    }
}

/// The subject a trigger asks a credential for.
pub fn subject_of(payload: &[u8], configured: &str) -> (subject: Option<String>)
    ensures
        match subject {
            Some(s) => trigger_subject(payload@, configured@) == Some(s@),
            None => trigger_subject(payload@, configured@) is None,
        },
{
    let request = match VcRequest::from_ssz_bytes(payload) {
        Ok(request) => request,
        Err(_) => {
            return None;
        },
    };
    let asked = utf8_text_lossy(request.subject.as_slice());
    let chars = chars_of(asked.as_str());
    if chars.len() == 0 {
        None
    } else if is_text(chars.as_slice(), "default") {
        Some(configured.to_owned())
    } else {
        Some(asked)
    }
}

/// The payload of a trigger: no subject for verifying only.
pub fn trigger_payload(kind: &str, subject: &str) -> (bytes: Vec<u8>)
    ensures
        bytes@ == single_bytes(
            if kind@ == "verify"@ {
                Seq::empty()
            } else {
                encode_utf8(subject@)
            },
        ),
{
    let chars = chars_of(kind);
    let plain: Vec<u8> = if is_text(chars.as_slice(), "verify") {
        Vec::new()
    } else {
        text_bytes(subject)
    };
    let request = VcRequest { subject: plain };
    request.as_ssz_bytes()
}

/// Whether a message to the resident relying party is a trigger, and the answer
/// where it is none.
pub fn refuse_other(kind: u8) -> (reply: Option<Reply>)
    ensures
        match reply {
            None => kind == MSG_ROUND_REQUEST,
            Some(r) => kind != MSG_ROUND_REQUEST && fails(r, "not a round request"@),
        },
{
    if kind == MSG_ROUND_REQUEST {
        None
    } else {
        Some(failure("not a round request"))
    }
}

/// The answer to a trigger: the verdict in one line.
pub fn verdict_reply(verdict: &Result<String, String>) -> (reply: Reply)
    ensures
        verdict_answered(*verdict, reply),
{
    match verdict {
        Ok(summary) => Reply { kind: MSG_ROUND_RESULT, payload: Failure::of(summary.as_str()) },
        Err(reason) => failure(reason.as_str()),
    }
}

// ---- asking for a credential -------------------------------------------------

/// What the members that aggregate in a mode are called.
pub open spec fn role_name(mode: Mode) -> Seq<char> {
    match mode {
        Mode::Raw => "member"@,
        Mode::Snark => "SNARK aggregator"@,
    }
}

/// What the members that aggregate in a mode are called.
pub fn role(mode: Mode) -> (name: &'static str)
    ensures
        name@ == role_name(mode),
{
    match mode {
        Mode::Raw => "member",
        Mode::Snark => "SNARK aggregator",
    }
}

/// The member to ask: the configured one, if it can aggregate, otherwise the one that
/// a number drawn at random picks.
pub open spec fn target_of(
    mode: Mode,
    provers: Seq<usize>,
    setting: Option<Seq<char>>,
    draw: u64,
) -> Result<usize, Seq<char>> {
    let candidates = aggregators(mode, provers);
    match setting {
        Some(raw) => match parse_upto(raw, usize::MAX as nat) {
            None => Err("TARGET_MEMBER must be a committee index, got `"@ + raw + "`"@),
            Some(n) => if candidates.contains(n as usize) {
                Ok(n as usize)
            } else {
                Err(
                    "member "@ + decimal(n) + " cannot aggregate in "@ + mode.name()
                        + " mode; allowed targets: ["@ + index_list(
                        candidates,
                        candidates.len() as int,
                    ) + "]"@,
                )
            },
        },
        None => Ok(candidates[draw as int % candidates.len() as int]),
    }
}

/// The contents of an optional setting.
pub open spec fn setting_view(setting: Option<&str>) -> Option<Seq<char>> {
    match setting {
        Some(s) => Some(s@),
        None => None,
    }
}

/// The member to ask, with `draw` drawn at random.
pub fn choose_target(mode: Mode, provers: &[usize], setting: Option<&str>, draw: u64) -> (r: Result<
    usize,
    String,
>)
    requires
        aggregators(mode, provers@).len() > 0,
    ensures
        match r {
            Ok(t) => target_of(mode, provers@, setting_view(setting), draw) == Ok::<
                usize,
                Seq<char>,
            >(t),
            Err(text) => target_of(mode, provers@, setting_view(setting), draw) == Err::<
                usize,
                Seq<char>,
            >(text@),
        },
{
    let candidates = aggregator_indices(mode, provers);
    match setting {
        Some(raw) => {
            let chars = chars_of(raw);
            match parse_usize(chars.as_slice()) {
                None => {
                    let mut text: String = joined(
                        "TARGET_MEMBER must be a committee index, got `",
                        raw,
                    );
                    text.append("`");
                    Err(text)
                },
                Some(target) => {
                    if contains_index(candidates.as_slice(), target) {
                        Ok(target)
                    } else {
                        let list = format_indices(candidates.as_slice());
                        let mut text: String = numbered(
                            "member ",
                            target as u64,
                            " cannot aggregate in ",
                        );
                        text.append(mode.as_str());
                        text.append(" mode; allowed targets: [");
                        text.append(list.as_str());
                        text.append("]");
                        Err(text)
                    }
                },
            }
        },
        None => {
            let n: u64 = candidates.len() as u64;
            Ok(candidates[(draw % n) as usize])
        },
    }
}

/// [`choose_target`] with a number drawn at random.
pub fn random_target(mode: Mode, provers: &[usize], setting: Option<&str>) -> (r: Result<
    usize,
    String,
>)
    requires
        aggregators(mode, provers@).len() > 0,
    ensures
        exists|draw: u64|
            match r {
                Ok(t) => #[trigger] target_of(mode, provers@, setting_view(setting), draw) == Ok::<
                    usize,
                    Seq<char>,
                >(t),
                Err(text) => target_of(mode, provers@, setting_view(setting), draw) == Err::<
                    usize,
                    Seq<char>,
                >(text@),
            },
{
    let bytes = random_bytes();
    let draw: u64 = crate::bytes::read_le64(bytes.as_slice(), 0);
    choose_target(mode, provers, setting, draw)
}

/// Whoever is asked can aggregate.
pub proof fn law_the_target_can_aggregate(
    mode: Mode,
    provers: Seq<usize>,
    setting: Option<Seq<char>>,
    draw: u64,
)
    requires
        aggregators(mode, provers).len() > 0,
        target_of(mode, provers, setting, draw) is Ok,
    ensures
        aggregators(mode, provers).contains(target_of(mode, provers, setting, draw)->Ok_0),
{
    let candidates = aggregators(mode, provers);
    let k = draw as int % candidates.len() as int;
    assert(candidates.contains(candidates[k]));
}

/// The credential that an aggregator's answer hands over, or why there is none.
pub fn credential_in(mode: Mode, target: usize, answer: Result<(u8, Vec<u8>), String>) -> (r: Result<
    VcIssued,
    String,
>)
    ensures
        credential_from(mode, target, answer, r),
{
    let mut text: String = role(mode).to_owned();
    text.append(" ");
    push_decimal(&mut text, target as u64);
    match answer {
        Err(why) => {
            text.append(" did not answer: ");
            text.append(why.as_str());
            Err(text)
        },
        Ok((kind, payload)) => {
            if kind != MSG_VC_ISSUED {
                let reason = Failure::text(payload.as_slice());
                text.append(" failed the round: ");
                text.append(reason.as_str());
                return Err(text);
            }
            match VcIssued::from_ssz_bytes(payload.as_slice()) {
                Ok(issued) => Ok(issued),
                Err(_) => Err("malformed credential".to_owned()),
            }
        },
    }
}

// ---- verifying ---------------------------------------------------------------

/// The relying party for one of the two published forms. Each owns its anchor and its
/// mark, so that all that is decided here is which form it is.
#[derive(Debug)]
pub enum Node {
    Raw(RawNode),
    Snark(SnarkNode),
}

/// Whether handing `bytes` to a relying party had this outcome.
pub open spec fn node_accepted<
    V: Fn(&SignatureCheck) -> bool,
    D: Fn(&[u8]) -> Option<Aggregate>,
    C: Fn(&[u8]) -> bool,
    P: FnOnce(&str) -> Result<(), String>,
>(
    mode: Mode,
    anchor: Anchor,
    before: Mark,
    bytes: Seq<u8>,
    checks: (V, D, C),
    persist: P,
    outcome: Outcome,
    after: Mark,
) -> bool {
    match mode {
        Mode::Raw => raw_accepted(anchor, before, bytes, checks.0, persist, outcome, after),
        Mode::Snark => snark_accepted(
            anchor,
            before,
            bytes,
            checks.1,
            checks.2,
            persist,
            outcome,
            after,
        ),
    }
}

/// Whether handing `bytes` to a relying party may make `line` durable.
pub open spec fn node_may_persist<
    V: Fn(&SignatureCheck) -> bool,
    D: Fn(&[u8]) -> Option<Aggregate>,
    C: Fn(&[u8]) -> bool,
>(
    mode: Mode,
    anchor: Anchor,
    before: Mark,
    bytes: Seq<u8>,
    checks: (V, D, C),
    line: Seq<char>,
) -> bool {
    match mode {
        Mode::Raw => raw_node::may_persist(anchor, before, bytes, checks.0, line),
        Mode::Snark => snark_node::may_persist(anchor, before, bytes, checks.1, checks.2, line),
    }
}

/// The list a published record carries, empty where it cannot be read.
pub open spec fn list_or_empty(mode: Mode, bytes: Seq<u8>) -> Seq<Seq<u8>> {
    match published_list(mode, bytes) {
        Ok(parts) => parts.1,
        Err(_) => Seq::empty(),
    }
}

/// The list a published record carries, empty where it cannot be read.
pub fn reported_list(mode: Mode, bytes: &[u8]) -> (list: Vec<[u8; 32]>)
    ensures
        views(list@) == list_or_empty(mode, bytes@),
{
    match decode_list(mode, bytes) {
        Ok((_, list)) => list,
        Err(_) => {
            let empty: Vec<[u8; 32]> = Vec::new();
            assert(views(empty@) =~= Seq::<Seq<u8>>::empty());
            empty
        },
    }
}

/// Whether a list holds what was issued; nothing issued is held by every list.
pub open spec fn holds_credential(list: Seq<Seq<u8>>, credential: Option<Seq<u8>>) -> bool {
    credential is Some ==> list.contains(sha3_256(credential->0))
}

/// The credential of an optional message.
pub open spec fn credential_view(issued: Option<&VcIssued>) -> Option<Seq<u8>> {
    match issued {
        Some(i) => Some(i.credential@),
        None => None,
    }
}

/// Whether the list the committee signed holds this credential. The fingerprint is
/// taken over the credential as it was received.
pub fn contains_credential(list: &[[u8; 32]], issued: Option<&VcIssued>) -> (r: bool)
    ensures
        r == holds_credential(views(list@), credential_view(issued)),
{
    match issued {
        None => true,
        Some(i) => is_valid(list, i.credential.as_slice()),
    }
}

/// The verdict of a round on a record fetched as `version`.
pub open spec fn verdict_of(
    version: u32,
    outcome: Outcome,
    list: Seq<Seq<u8>>,
    credential: Option<Seq<u8>>,
) -> Result<Seq<char>, Seq<char>> {
    let name = "v"@ + decimal(version as nat);
    match outcome {
        Outcome::Refused => Err(name + " did not verify, refusing it"@),
        Outcome::Accepted { version: newest } => if holds_credential(list, credential) {
            Ok(name + " verified, high-water now v"@ + decimal(newest as nat))
        } else {
            Err(name + " verified, but it does not contain this credential"@)
        },
        Outcome::Stale { version: _, mark } => if holds_credential(list, credential) {
            Ok(name + " verified, already seen, high-water stays at v"@ + decimal(mark as nat))
        } else {
            Err(name + " verified, but it does not contain this credential"@)
        },
    }
}

/// The verdict of a round: a record that did not verify, or that lacks the
/// credential, is an error; a replay of what was seen is not.
pub fn conclude(version: u32, outcome: Outcome, list: &[[u8; 32]], issued: Option<&VcIssued>) -> (r:
    Result<String, String>)
    ensures
        match r {
            Ok(text) => verdict_of(version, outcome, views(list@), credential_view(issued)) == Ok::<
                Seq<char>,
                Seq<char>,
            >(text@),
            Err(text) => verdict_of(version, outcome, views(list@), credential_view(issued))
                == Err::<Seq<char>, Seq<char>>(text@),
        },
{
    let mut text: String = "v".to_owned();
    push_decimal(&mut text, version as u64);
    match outcome {
        Outcome::Refused => {
            text.append(" did not verify, refusing it");
            return Err(text);
        },
        _ => {},
    }
    if !contains_credential(list, issued) {
        text.append(" verified, but it does not contain this credential");
        return Err(text);
    }
    match outcome {
        Outcome::Accepted { version: newest } => {
            text.append(" verified, high-water now v");
            push_decimal(&mut text, newest as u64);
        },
        Outcome::Stale { version: _, mark } => {
            text.append(" verified, already seen, high-water stays at v");
            push_decimal(&mut text, mark as u64);
        },
        Outcome::Refused => {},
    }
    Ok(text)
}

impl Node {
    /// The form the node verifies.
    pub open spec fn form(self) -> Mode {
        match self {
            Node::Raw(_) => Mode::Raw,
            Node::Snark(_) => Mode::Snark,
        }
    }

    /// The anchor the node verifies against.
    pub open spec fn anchor(self) -> Anchor {
        match self {
            Node::Raw(node) => node.anchor(),
            Node::Snark(node) => node.anchor(),
        }
    }

    /// The mark the node keeps.
    pub open spec fn gate(self) -> Mark {
        match self {
            Node::Raw(node) => node.gate(),
            Node::Snark(node) => node.gate(),
        }
    }

    /// The form the node verifies.
    pub fn mode(&self) -> (mode: Mode)
        ensures
            mode == self.form(),
    {
        match self {
            Node::Raw(_) => Mode::Raw,
            Node::Snark(_) => Mode::Snark,
        }
    }

    /// Decode, verify and offer the version to the mark, in that order.
    pub fn accept<
        V: Fn(&SignatureCheck) -> bool,
        D: Fn(&[u8]) -> Option<Aggregate>,
        C: Fn(&[u8]) -> bool,
        P: FnOnce(&str) -> Result<(), String>,
    >(&mut self, bytes: &[u8], xmss_verify: V, decode: D, check: C, persist: P) -> (outcome: Outcome)
        requires
            forall|c: &SignatureCheck| call_requires(xmss_verify, (c,)),
            forall|b: &[u8]| call_requires(decode, (b,)),
            forall|b: &[u8]| call_requires(check, (b,)),
            forall|line: &str|
                node_may_persist(
                    old(self).form(),
                    old(self).anchor(),
                    old(self).gate(),
                    bytes@,
                    (xmss_verify, decode, check),
                    line@,
                ) ==> #[trigger] call_requires(persist, (line,)),
        ensures
            final(self).form() == old(self).form(),
            final(self).anchor() == old(self).anchor(),
            node_accepted(
                old(self).form(),
                old(self).anchor(),
                old(self).gate(),
                bytes@,
                (xmss_verify, decode, check),
                persist,
                outcome,
                final(self).gate(),
            ),
    {
        match self {
            Node::Raw(node) => node.accept(bytes, xmss_verify, persist),
            Node::Snark(node) => node.accept(bytes, &decode, &check, persist),
        }
    }

    /// One round once the credential is there, unless this is a verifying-only pass,
    /// and the newest published record was fetched: the node decides about the record,
    /// and the verdict follows.
    pub fn run_round<
        V: Fn(&SignatureCheck) -> bool,
        D: Fn(&[u8]) -> Option<Aggregate>,
        C: Fn(&[u8]) -> bool,
        P: FnOnce(&str) -> Result<(), String>,
    >(
        &mut self,
        issued: Option<&VcIssued>,
        latest: Option<(u32, Vec<u8>)>,
        xmss_verify: V,
        decode: D,
        check: C,
        persist: P,
    ) -> (r: Result<String, String>)
        requires
            forall|c: &SignatureCheck| call_requires(xmss_verify, (c,)),
            forall|b: &[u8]| call_requires(decode, (b,)),
            forall|b: &[u8]| call_requires(check, (b,)),
            forall|line: &str|
                latest is Some && node_may_persist(
                    old(self).form(),
                    old(self).anchor(),
                    old(self).gate(),
                    (latest->0).1@,
                    (xmss_verify, decode, check),
                    line@,
                ) ==> #[trigger] call_requires(persist, (line,)),
        ensures
            final(self).form() == old(self).form(),
            final(self).anchor() == old(self).anchor(),
            round_went(
                old(self).form(),
                old(self).anchor(),
                old(self).gate(),
                latest,
                credential_view(issued),
                (xmss_verify, decode, check),
                persist,
                r,
                final(self).gate(),
            ),
    {
        let (version, bytes) = match latest {
            None => {
                return Err("nothing is published".to_owned());
            },
            Some(fetched) => fetched,
        };
        let mode = self.mode();
        let outcome = self.accept(bytes.as_slice(), xmss_verify, decode, check, persist);
        let list = reported_list(mode, bytes.as_slice());
        conclude(version, outcome, list.as_slice(), issued)
    }

    /// A round from its start: where there is a subject, a credential is asked for first,
    /// and without one the round ends; only then is the newest published record fetched
    /// and decided about.
    pub fn run_whole_round<
        Q: FnOnce(&str) -> Result<VcIssued, String>,
        F: FnOnce() -> Option<(u32, Vec<u8>)>,
        V: Fn(&SignatureCheck) -> bool,
        D: Fn(&[u8]) -> Option<Aggregate>,
        C: Fn(&[u8]) -> bool,
        P: FnOnce(&str) -> Result<(), String>,
    >(
        &mut self,
        subject: Option<&str>,
        ask: Q,
        fetch: F,
        xmss_verify: V,
        decode: D,
        check: C,
        persist: P,
    ) -> (r: Result<String, String>)
        requires
            forall|s: &str|
                subject is Some && s@ == (subject->0)@ ==> #[trigger] call_requires(ask, (s,)),
            may_fetch(setting_view(subject), ask) ==> call_requires(fetch, ()),
            forall|c: &SignatureCheck| call_requires(xmss_verify, (c,)),
            forall|b: &[u8]| call_requires(decode, (b,)),
            forall|b: &[u8]| call_requires(check, (b,)),
            forall|latest: Option<(u32, Vec<u8>)>, line: &str|
                may_fetch(setting_view(subject), ask) && #[trigger] call_ensures(
                    fetch,
                    (),
                    latest,
                ) && latest is Some && node_may_persist(
                    old(self).form(),
                    old(self).anchor(),
                    old(self).gate(),
                    (latest->0).1@,
                    (xmss_verify, decode, check),
                    line@,
                ) ==> #[trigger] call_requires(persist, (line,)),
        ensures
            final(self).form() == old(self).form(),
            final(self).anchor() == old(self).anchor(),
            match subject {
                None => fetched_round_went(
                    old(self).form(),
                    old(self).anchor(),
                    old(self).gate(),
                    fetch,
                    None,
                    (xmss_verify, decode, check),
                    persist,
                    r,
                    final(self).gate(),
                ),
                Some(s) => exists|answer: Result<VcIssued, String>|
                    {
                        &&& #[trigger] asked_for_credential(ask, s@, answer)
                        &&& match answer {
                            Err(why) => r is Err && r->Err_0@ == why@ && final(self).gate() == old(
                                self,
                            ).gate(),
                            Ok(issued) => fetched_round_went(
                                old(self).form(),
                                old(self).anchor(),
                                old(self).gate(),
                                fetch,
                                Some(issued.credential@),
                                (xmss_verify, decode, check),
                                persist,
                                r,
                                final(self).gate(),
                            ),
                        }
                    },
            },
    {
        let issued: Option<VcIssued> = match subject {
            None => None,
            Some(s) => {
                let answer = ask(s);
                assert(asked_for_credential(ask, s@, answer));
                match answer {
                    Err(why) => {
                        return Err(why);
                    },
                    Ok(issued) => {
                        assert(asked_for_credential(ask, setting_view(subject)->0, Ok(issued)));
                        Some(issued)
                    },
                }
            },
        };
        assert(may_fetch(setting_view(subject), ask));
        let latest = fetch();
        let ghost found = latest;
        let ghost before = (self.form(), self.anchor(), self.gate());
        let r = self.run_round(issued.as_ref(), latest, xmss_verify, decode, check, persist);
        assert(round_went(
            before.0,
            before.1,
            before.2,
            found,
            match issued {
                Some(i) => Some(i.credential@),
                None => None,
            },
            (xmss_verify, decode, check),
            persist,
            r,
            self.gate(),
        ));
        r
    }
}

/// Whether a round may fetch the published record: it asks for no credential, or one was
/// handed over.
pub open spec fn may_fetch<Q: FnOnce(&str) -> Result<VcIssued, String>>(
    subject: Option<Seq<char>>,
    ask: Q,
) -> bool {
    subject is Some ==> exists|issued: VcIssued|
        #[trigger] asked_for_credential(ask, subject->0, Ok(issued))
}

/// Whether `ask` was asked for a credential for this subject and answered so.
pub open spec fn asked_for_credential<Q: FnOnce(&str) -> Result<VcIssued, String>>(
    ask: Q,
    subject: Seq<char>,
    answer: Result<VcIssued, String>,
) -> bool {
    exists|s: &str| s@ == subject && #[trigger] call_ensures(ask, (s,), answer)
}

/// Whether a round on the record that was fetched went so.
pub open spec fn round_went<
    V: Fn(&SignatureCheck) -> bool,
    D: Fn(&[u8]) -> Option<Aggregate>,
    C: Fn(&[u8]) -> bool,
    P: FnOnce(&str) -> Result<(), String>,
>(
    form: Mode,
    anchor: Anchor,
    before: Mark,
    latest: Option<(u32, Vec<u8>)>,
    credential: Option<Seq<u8>>,
    checks: (V, D, C),
    persist: P,
    r: Result<String, String>,
    after: Mark,
) -> bool {
    match latest {
        None => r is Err && r->Err_0@ == "nothing is published"@ && after == before,
        Some(fetched) => exists|outcome: Outcome|
            {
                &&& #[trigger] node_accepted(
                    form,
                    anchor,
                    before,
                    fetched.1@,
                    checks,
                    persist,
                    outcome,
                    after,
                )
                &&& verdict_is(
                    r,
                    verdict_of(fetched.0, outcome, list_or_empty(form, fetched.1@), credential),
                )
            },
    }
}

/// Whether a round on what `fetch` brought went so.
pub open spec fn fetched_round_went<
    F: FnOnce() -> Option<(u32, Vec<u8>)>,
    V: Fn(&SignatureCheck) -> bool,
    D: Fn(&[u8]) -> Option<Aggregate>,
    C: Fn(&[u8]) -> bool,
    P: FnOnce(&str) -> Result<(), String>,
>(
    form: Mode,
    anchor: Anchor,
    before: Mark,
    fetch: F,
    credential: Option<Seq<u8>>,
    checks: (V, D, C),
    persist: P,
    r: Result<String, String>,
    after: Mark,
) -> bool {
    exists|latest: Option<(u32, Vec<u8>)>|
        {
            &&& #[trigger] call_ensures(fetch, (), latest)
            &&& round_went(form, anchor, before, latest, credential, checks, persist, r, after)
        }
}

/// Whether a verdict is the one that was stated.
pub open spec fn verdict_is(r: Result<String, String>, stated: Result<Seq<char>, Seq<char>>) -> bool {
    match r {
        Ok(text) => stated == Ok::<Seq<char>, Seq<char>>(text@),
        Err(text) => stated == Err::<Seq<char>, Seq<char>>(text@),
    }
}

/// A round on a credential succeeds only when the record verified and its list holds
/// the credential's fingerprint.
pub proof fn law_a_successful_round_shows_the_credential(
    version: u32,
    outcome: Outcome,
    list: Seq<Seq<u8>>,
    credential: Seq<u8>,
)
    requires
        verdict_of(version, outcome, list, Some(credential)) is Ok,
    ensures
        outcome !is Refused,
        list.contains(sha3_256(credential)),
{
}

// ---- exchanges ---------------------------------------------------------------

/// Whether `r` is what an aggregator's answer hands over, or why it hands over nothing.
pub open spec fn credential_from(
    mode: Mode,
    target: usize,
    answer: Result<(u8, Vec<u8>), String>,
    r: Result<VcIssued, String>,
) -> bool {
    match answer {
        Err(why) => r is Err && r->Err_0@ == role_name(mode) + " "@ + decimal(target as nat)
            + " did not answer: "@ + why@,
        Ok(frame) => if frame.0 != MSG_VC_ISSUED {
            r is Err && r->Err_0@ == role_name(mode) + " "@ + decimal(target as nat)
                + " failed the round: "@ + failure_text(frame.1@)
        } else if !tail_framed(frame.1@, 4) {
            r is Err && r->Err_0@ == "malformed credential"@
        } else {
            r is Ok && r->Ok_0.version == version_in(frame.1@) && r->Ok_0.credential@ == tail(
                frame.1@,
                4,
            )
        },
    }
}

/// Whether `send` was asked to send `payload` to member `target` and answered so.
pub open spec fn sent<S: FnOnce(usize, &[u8]) -> Result<(u8, Vec<u8>), String>>(
    send: S,
    target: usize,
    payload: Seq<u8>,
    answer: Result<(u8, Vec<u8>), String>,
) -> bool {
    exists|b: &[u8]| b@ == payload && #[trigger] call_ensures(send, (target, b), answer)
}

/// Whether a credential was asked for from the member that was chosen, and what came of
/// it.
pub open spec fn credential_asked<S: FnOnce(usize, &[u8]) -> Result<(u8, Vec<u8>), String>>(
    mode: Mode,
    target: Result<usize, Seq<char>>,
    subject: Seq<char>,
    send: S,
    r: Result<VcIssued, String>,
) -> bool {
    match target {
        Err(why) => r is Err && r->Err_0@ == why,
        Ok(t) => credential_sent(mode, t, subject, send, r),
    }
}

/// Whether a credential was asked for from member `target`, and what came of it.
pub open spec fn credential_sent<S: FnOnce(usize, &[u8]) -> Result<(u8, Vec<u8>), String>>(
    mode: Mode,
    target: usize,
    subject: Seq<char>,
    send: S,
    r: Result<VcIssued, String>,
) -> bool {
    exists|answer: Result<(u8, Vec<u8>), String>|
        #[trigger] sent(send, target, single_bytes(encode_utf8(subject)), answer)
            && credential_from(mode, target, answer, r)
}

/// Asks one member that can aggregate for a credential: the configured one, or one chosen
/// at random. `send` carries a request to a member and brings its answer.
pub fn request_credential<S: FnOnce(usize, &[u8]) -> Result<(u8, Vec<u8>), String>>(
    mode: Mode,
    provers: &[usize],
    setting: Option<&str>,
    subject: &str,
    send: S,
) -> (r: Result<VcIssued, String>)
    requires
        aggregators(mode, provers@).len() > 0,
        forall|draw: u64, t: usize, b: &[u8]|
            (#[trigger] target_of(mode, provers@, setting_view(setting), draw)) == Ok::<
                usize,
                Seq<char>,
            >(t) && b@ == single_bytes(encode_utf8(subject@)) ==> #[trigger] call_requires(
                send,
                (t, b),
            ),
    ensures
        exists|draw: u64|
            credential_asked(
                mode,
                #[trigger] target_of(mode, provers@, setting_view(setting), draw),
                subject@,
                send,
                r,
            ),
{
    let target: usize = match random_target(mode, provers, setting) {
        Ok(target) => target,
        Err(why) => {
            return Err(why);
        },
    };
    let request = VcRequest { subject: text_bytes(subject) };
    let payload = request.as_ssz_bytes();
    let answer = send(target, payload.as_slice());
    let ghost kept = answer;
    let r = credential_in(mode, target, answer);
    proof {
        let asked = single_bytes(encode_utf8(subject@));
        assert(sent(send, target, asked, kept));
        assert(credential_from(mode, target, kept, r));
        assert(credential_sent(mode, target, subject@, send, r));
    }
    r
}

/// Whether `run` was asked for a round on this subject and came to this verdict.
pub open spec fn round_run<R: FnOnce(Option<String>) -> Result<String, String>>(
    run: R,
    subject: Option<Seq<char>>,
    verdict: Result<String, String>,
) -> bool {
    exists|s: Option<String>|
        string_view(s) == subject && #[trigger] call_ensures(run, (s,), verdict)
}

/// The contents of an optional text.
pub open spec fn string_view(s: Option<String>) -> Option<Seq<char>> {
    match s {
        Some(text) => Some(text@),
        None => None,
    }
}

/// The answer for a verdict.
pub open spec fn verdict_answered(verdict: Result<String, String>, reply: Reply) -> bool {
    match verdict {
        Ok(summary) => replies(reply, MSG_ROUND_RESULT, failure_bytes(summary@)),
        Err(reason) => fails(reply, reason@),
    }
}

/// One message to the resident relying party: a trigger runs a round, and the verdict
/// goes back in one line; anything else is refused.
pub fn handle<R: FnOnce(Option<String>) -> Result<String, String>>(
    kind: u8,
    payload: &[u8],
    configured: &str,
    run: R,
) -> (reply: Reply)
    requires
        forall|s: Option<String>|
            kind == MSG_ROUND_REQUEST && string_view(s) == trigger_subject(payload@, configured@)
                ==> #[trigger] call_requires(run, (s,)),
    ensures
        if kind != MSG_ROUND_REQUEST {
            fails(reply, "not a round request"@)
        } else {
            exists|verdict: Result<String, String>|
                #[trigger] round_run(run, trigger_subject(payload@, configured@), verdict)
                    && verdict_answered(verdict, reply)
        },
{
    match refuse_other(kind) {
        Some(reply) => {
            return reply;
        },
        None => {},
    }
    let subject = subject_of(payload, configured);
    let ghost asked = string_view(subject);
    let verdict = run(subject);
    assert(round_run(run, asked, verdict));
    let reply = verdict_reply(&verdict);
    assert(verdict_answered(verdict, reply));
    reply
}

/// What a trigger's answer comes to: the text to show, and whether the round succeeded.
pub fn trigger_result(kind: u8, reply: &[u8]) -> (r: (String, bool))
    ensures
        r.0@ == failure_text(reply@),
        r.1 == (kind == MSG_ROUND_RESULT),
{
    (Failure::text(reply), kind == MSG_ROUND_RESULT)
}

// ---- describing a record -----------------------------------------------------

/// What a raw record is made of.
#[derive(Debug)]
pub struct RawReport {
    pub signers: usize,
    pub slots: usize,
    pub indices: Vec<usize>,
    pub signatures: usize,
    pub entries: usize,
}

/// Describes a raw record that was already ruled on. It decides nothing.
pub fn raw_report(bytes: &[u8]) -> (r: Option<RawReport>)
    ensures
        match r {
            None => decode_raw(bytes@) is Err,
            Some(report) => {
                &&& decode_raw(bytes@) is Ok
                &&& ({
                    let record = decode_raw(bytes@)->Ok_0;
                    &&& report.signers == count_set(record.bits)
                    &&& report.slots == record.bits.len()
                    &&& as_ints(report.indices@) == set_indices(record.bits)
                    &&& report.signatures == record.signatures.len()
                    &&& report.entries == record.list.len()
                })
            },
        },
{
    match StatusList::from_bytes(bytes) {
        Err(_) => None,
        Ok(record) => {
            let signatures = record.signatures();
            let list = record.list();
            assert(signature_views(signatures@).len() == signatures@.len());
            assert(views(list@).len() == list@.len());
            Some(
                RawReport {
                    signers: record.signer_count(),
                    slots: record.signer_slots(),
                    indices: record.signer_indices(),
                    signatures: signatures.len(),
                    entries: list.len(),
                },
            )
        },
    }
}

/// A verdict is read off the record: without a credential every authenticated record is
/// good; with one the record is good exactly when the credential's fingerprint stands at
/// some place of its list. A refused record never is.
pub proof fn law_a_round_is_judged_by_the_record(
    version: u32,
    outcome: Outcome,
    list: Seq<Seq<u8>>,
    credential: Option<Seq<u8>>,
)
    ensures
        ({
            let r = verdict_of(version, outcome, list, credential);
            let listed = credential is Some ==> exists|i: int|
                0 <= i < list.len() && #[trigger] list[i] == sha3_256(credential->0);
            &&& outcome is Refused ==> r == Err::<Seq<char>, Seq<char>>(
                "v"@ + decimal(version as nat) + " did not verify, refusing it"@,
            )
            &&& outcome !is Refused && !listed ==> r == Err::<Seq<char>, Seq<char>>(
                "v"@ + decimal(version as nat)
                    + " verified, but it does not contain this credential"@,
            )
            &&& outcome is Accepted && listed ==> r == Ok::<Seq<char>, Seq<char>>(
                "v"@ + decimal(version as nat) + " verified, high-water now v"@ + decimal(
                    outcome->Accepted_version as nat,
                ),
            )
            &&& outcome is Stale && listed ==> r == Ok::<Seq<char>, Seq<char>>(
                "v"@ + decimal(version as nat)
                    + " verified, already seen, high-water stays at v"@ + decimal(
                    outcome->mark as nat,
                ),
            )
        }),
{
    if credential is Some {
        let entry = sha3_256(credential->0);
        if exists|i: int| 0 <= i < list.len() && #[trigger] list[i] == entry {
            assert(list.contains(entry));
        }
    }
}

/// A trigger asks a credential for the subject that it names, for the configured one where
/// it says `default`, and for none where it names nobody or is no container.
pub proof fn law_a_trigger_asks_for_the_subject_it_names(
    payload: Seq<u8>,
    subject: Seq<char>,
    configured: Seq<char>,
)
    ensures
        subject.len() > 0 && subject != "default"@ ==> trigger_subject(
            single_bytes(encode_utf8(subject)),
            configured,
        ) == Some(subject),
        trigger_subject(single_bytes(encode_utf8("default"@)), configured) == Some(configured),
        trigger_subject(single_bytes(Seq::empty()), configured) is None,
        !tail_framed(payload, 0) ==> trigger_subject(payload, configured) is None,
{
    reveal_strlit("default");
    law_a_reason_is_read_back(subject);
    law_a_reason_is_read_back("default"@);
    law_a_tail_is_read_back(Seq::empty(), encode_utf8(subject));
    law_a_tail_is_read_back(Seq::empty(), encode_utf8("default"@));
    law_a_reason_is_read_back(Seq::empty());
    law_a_tail_is_read_back(Seq::empty(), encode_utf8(Seq::empty()));
    assert(encode_utf8(Seq::empty()) =~= Seq::<u8>::empty());
}

/// The configured member is asked where it can aggregate and refused where it cannot; a
/// setting that is no number is refused as it stands; and without a setting every member
/// that can aggregate may be drawn.
pub proof fn law_every_aggregator_can_be_asked(
    mode: Mode,
    provers: Seq<usize>,
    raw: Seq<char>,
    member: usize,
    draw: u64,
    place: int,
)
    ensures
        ({
            let able = match mode {
                Mode::Raw => member < N_MEMBERS,
                Mode::Snark => provers.contains(member),
            };
            let named = target_of(mode, provers, Some(decimal(member as nat)), draw);
            &&& able ==> named == Ok::<usize, Seq<char>>(member)
            &&& !able ==> named is Err
        }),
        parse_upto(raw, usize::MAX as nat) is None ==> target_of(mode, provers, Some(raw), draw)
            == Err::<usize, Seq<char>>(
            "TARGET_MEMBER must be a committee index, got `"@ + raw + "`"@,
        ),
        mode == Mode::Raw && member < N_MEMBERS ==> target_of(mode, provers, None, member as u64)
            == Ok::<usize, Seq<char>>(member),
        mode == Mode::Snark && 0 <= place < provers.len() && place <= u64::MAX ==> target_of(
            mode,
            provers,
            None,
            place as u64,
        ) == Ok::<usize, Seq<char>>(provers[place]),
        target_of(mode, provers, None, draw) is Ok,
{
    lemma_parse_decimal(member as nat);
    law_who_can_aggregate(mode, provers, member);
    if 0 <= place < provers.len() {
        vstd::arithmetic::div_mod::lemma_small_mod(place as nat, provers.len());
    }
}

/// The credential that an aggregator hands over is read from its answer as it was sent, and
/// an answer that hands over none fails with the reason it gives.
pub proof fn law_a_credential_is_read_back(
    mode: Mode,
    target: usize,
    version: u32,
    credential: Seq<u8>,
    reason: Seq<char>,
    kind: u8,
    payload: Vec<u8>,
    r: Result<VcIssued, String>,
)
    requires
        credential_from(mode, target, Ok((kind, payload)), r),
    ensures
        kind == 4 && payload@ == versioned_bytes(version, credential) ==> r is Ok
            && r->Ok_0.version == version && r->Ok_0.credential@ == credential,
        kind != 4 && payload@ == failure_bytes(reason) ==> r is Err && r->Err_0@ == (match mode {
            Mode::Raw => "member"@,
            Mode::Snark => "SNARK aggregator"@,
        }) + " "@ + decimal(target as nat) + " failed the round: "@ + reason,
        r is Ok ==> kind == 4 && payload@ == versioned_bytes(
            r->Ok_0.version,
            r->Ok_0.credential@,
        ),
{
    law_a_versioned_message_is_read_back(version, credential);
    law_a_reason_is_read_back(reason);
    if r is Ok {
        law_a_container_has_one_form(payload@, 4);
        lemma_from_le32(payload@.subrange(0, 4));
    }
}

/// A round on a record is about that record's own list and version: it succeeds only when
/// the node did not refuse the record, and says of the credential what the list shows.
pub proof fn law_a_round_reads_the_record_it_was_given<
    V: Fn(&SignatureCheck) -> bool,
    D: Fn(&[u8]) -> Option<Aggregate>,
    C: Fn(&[u8]) -> bool,
    P: FnOnce(&str) -> Result<(), String>,
>(
    form: Mode,
    anchor: Anchor,
    before: Mark,
    fetched: (u32, Vec<u8>),
    credential: Seq<u8>,
    checks: (V, D, C),
    persist: P,
    r: Result<String, String>,
    after: Mark,
)
    requires
        round_went(
            form,
            anchor,
            before,
            Some(fetched),
            Some(credential),
            checks,
            persist,
            r,
            after,
        ),
        r is Ok,
    ensures
        form == Mode::Raw ==> decode_raw(fetched.1@) is Ok && decode_raw(
            fetched.1@,
        )->Ok_0.list.contains(sha3_256(credential)) && confirmed(
            anchor,
            decode_raw(fetched.1@)->Ok_0,
            checks.0,
        ),
        form == Mode::Snark ==> decode_snark(fetched.1@) is Ok && decode_snark(
            fetched.1@,
        )->Ok_0.list.contains(sha3_256(credential)) && proven(
            anchor,
            decode_snark(fetched.1@)->Ok_0,
            checks.1,
            checks.2,
        ),
{
    let outcome = choose|outcome: Outcome|
        {
            &&& #[trigger] node_accepted(
                form,
                anchor,
                before,
                fetched.1@,
                checks,
                persist,
                outcome,
                after,
            )
            &&& verdict_is(
                r,
                verdict_of(fetched.0, outcome, list_or_empty(form, fetched.1@), Some(credential)),
            )
        };
    assert(node_accepted(form, anchor, before, fetched.1@, checks, persist, outcome, after));
}

/// A credential is asked for from the chosen member alone, for the subject that was given,
/// and what its answer hands over is what comes of it; where no member could be chosen, the
/// reason is.
pub proof fn law_one_member_is_asked_for_the_subject<
    S: FnOnce(usize, &[u8]) -> Result<(u8, Vec<u8>), String>,
>(
    mode: Mode,
    target: Result<usize, Seq<char>>,
    subject: Seq<char>,
    send: S,
    r: Result<VcIssued, String>,
)
    requires
        credential_asked(mode, target, subject, send, r),
    ensures
        target is Err ==> r is Err && r->Err_0@ == target->Err_0,
        target is Ok ==> exists|b: &[u8], answer: Result<(u8, Vec<u8>), String>|
            {
                &&& b@ == single_bytes(encode_utf8(subject))
                &&& #[trigger] call_ensures(send, (target->Ok_0, b), answer)
                &&& credential_from(mode, target->Ok_0, answer, r)
            },
{
    if target is Ok {
        let payload = single_bytes(encode_utf8(subject));
        let answer = choose|answer: Result<(u8, Vec<u8>), String>|
            #[trigger] sent(send, target->Ok_0, payload, answer) && credential_from(
                mode,
                target->Ok_0,
                answer,
                r,
            );
        let b = choose|b: &[u8]|
            b@ == payload && #[trigger] call_ensures(send, (target->Ok_0, b), answer);
        assert(call_ensures(send, (target->Ok_0, b), answer));
    }
}

/// A round was run for a subject exactly when it was handed that subject, and its verdict
/// goes back in one line: as a result where it is good, as a failure where it is not.
pub proof fn law_a_round_is_run_for_its_subject_and_answered<
    R: FnOnce(Option<String>) -> Result<String, String>,
>(
    run: R,
    subject: Option<Seq<char>>,
    verdict: Result<String, String>,
    reply: Reply,
)
    ensures
        round_run(run, subject, verdict) <==> exists|s: Option<String>|
            {
                &&& #[trigger] call_ensures(run, (s,), verdict)
                &&& s is Some == subject is Some
                &&& s is Some ==> s->0@ == subject->0
            },
        verdict_answered(verdict, reply) <==> match verdict {
            Ok(summary) => reply.kind == 9 && reply.payload@ == failure_bytes(summary@),
            Err(reason) => reply.kind == 5 && reply.payload@ == failure_bytes(reason@),
        },
        verdict_answered(verdict, reply) ==> failure_text(reply.payload@) == match verdict {
            Ok(summary) => summary@,
            Err(reason) => reason@,
        },
{
    match verdict {
        Ok(summary) => {
            law_a_reason_is_read_back(summary@);
        },
        Err(reason) => {
            law_a_reason_is_read_back(reason@);
        },
    }
    if round_run(run, subject, verdict) {
        let s = choose|s: Option<String>|
            string_view(s) == subject && #[trigger] call_ensures(run, (s,), verdict);
        assert(call_ensures(run, (s,), verdict));
    }
    if exists|s: Option<String>|
        {
            &&& #[trigger] call_ensures(run, (s,), verdict)
            &&& s is Some == subject is Some
            &&& s is Some ==> s->0@ == subject->0
        } {
        let s = choose|s: Option<String>|
            {
                &&& #[trigger] call_ensures(run, (s,), verdict)
                &&& s is Some == subject is Some
                &&& s is Some ==> s->0@ == subject->0
            };
        assert(string_view(s) == subject);
    }
}

/// A round looks at what was fetched and at nothing else: without a published record it
/// fails and the mark stays, and a record is fetched only for a round without a subject or
/// one whose credential was handed over.
pub proof fn law_a_round_looks_at_what_was_fetched<
    Q: FnOnce(&str) -> Result<VcIssued, String>,
    F: FnOnce() -> Option<(u32, Vec<u8>)>,
    V: Fn(&SignatureCheck) -> bool,
    D: Fn(&[u8]) -> Option<Aggregate>,
    C: Fn(&[u8]) -> bool,
    P: FnOnce(&str) -> Result<(), String>,
>(
    form: Mode,
    anchor: Anchor,
    before: Mark,
    ask: Q,
    subject: Option<Seq<char>>,
    fetch: F,
    credential: Option<Seq<u8>>,
    checks: (V, D, C),
    persist: P,
    r: Result<String, String>,
    after: Mark,
)
    ensures
        round_went(form, anchor, before, None, credential, checks, persist, r, after) <==> {
            &&& r is Err
            &&& r->Err_0@ == "nothing is published"@
            &&& after == before
        },
        fetched_round_went(
            form,
            anchor,
            before,
            fetch,
            credential,
            checks,
            persist,
            r,
            after,
        ) ==> exists|latest: Option<(u32, Vec<u8>)>|
            {
                &&& #[trigger] call_ensures(fetch, (), latest)
                &&& round_went(
                    form,
                    anchor,
                    before,
                    latest,
                    credential,
                    checks,
                    persist,
                    r,
                    after,
                )
            },
        may_fetch(None, ask),
        subject is Some && may_fetch(subject, ask) ==> exists|s: &str, issued: VcIssued|
            s@ == subject->0 && #[trigger] call_ensures(ask, (s,), Ok(issued)),
{
    if subject is Some && may_fetch(subject, ask) {
        let issued = choose|issued: VcIssued|
            #[trigger] asked_for_credential(ask, subject->0, Ok(issued));
        let s = choose|s: &str|
            s@ == subject->0 && #[trigger] call_ensures(ask, (s,), Ok(issued));
        assert(call_ensures(ask, (s,), Ok(issued)));
    }
}

/// Which form a relying party is for decides how it takes a record, and nothing else does.
pub proof fn law_a_relying_party_takes_records_of_its_form<
    V: Fn(&SignatureCheck) -> bool,
    D: Fn(&[u8]) -> Option<Aggregate>,
    C: Fn(&[u8]) -> bool,
    P: FnOnce(&str) -> Result<(), String>,
>(
    anchor: Anchor,
    before: Mark,
    bytes: Seq<u8>,
    checks: (V, D, C),
    persist: P,
    outcome: Outcome,
    after: Mark,
    line: Seq<char>,
)
    ensures
        node_accepted(Mode::Raw, anchor, before, bytes, checks, persist, outcome, after)
            == raw_accepted(anchor, before, bytes, checks.0, persist, outcome, after),
        node_accepted(Mode::Snark, anchor, before, bytes, checks, persist, outcome, after)
            == snark_accepted(
            anchor,
            before,
            bytes,
            checks.1,
            checks.2,
            persist,
            outcome,
            after,
        ),
        node_may_persist(Mode::Raw, anchor, before, bytes, checks, line) == raw_node::may_persist(
            anchor,
            before,
            bytes,
            checks.0,
            line,
        ),
        node_may_persist(Mode::Snark, anchor, before, bytes, checks, line)
            == snark_node::may_persist(anchor, before, bytes, checks.1, checks.2, line),
{
}

/// A trigger that was written is read as what it was written for: `verify` asks for no
/// credential, and every other kind for one for its subject.
pub proof fn law_a_written_trigger_is_read(
    kind: &str,
    subject: &str,
    configured: &str,
    written: Vec<u8>,
    payload: &[u8],
    read: Option<String>,
)
    requires
        call_ensures(trigger_payload, (kind, subject), written),
        payload@ == written@,
        call_ensures(subject_of, (payload, configured), read),
    ensures
        kind@ == "verify"@ ==> read is None,
        kind@ != "verify"@ && subject@.len() > 0 && subject@ != "default"@ ==> read is Some
            && read->0@ == subject@,
        kind@ != "verify"@ && subject@ == "default"@ ==> read is Some && read->0@ == configured@,
{
    law_a_trigger_asks_for_the_subject_it_names(payload@, subject@, configured@);
}

} // verus!

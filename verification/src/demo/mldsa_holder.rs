//! The relying party under the stateless scheme.
use crate::bytes::{to_vec, views};
use crate::demo::config::N_MEMBERS;
use crate::demo::holder::{
    refuse_other, sent, setting_view, verdict_answered, verdict_is, verdict_reply,
};
use crate::demo::member::{failure, fails, Reply};
use crate::demo::vc::{is_valid, random_bytes};
use crate::demo::wire::{
    action_bytes, failure_bytes, failure_text, law_a_reason_is_read_back, law_a_tail_is_read_back,
    law_a_versioned_message_is_read_back, tail, tail_framed, tail_refusal, version_in, versioned_bytes,
    Failure, StatusRequest,
    StatusUpdated, ACTION_ISSUE, ACTION_REVOKE, ACTION_VERIFY, MSG_ROUND_REQUEST, MSG_STATUS_UPDATED,
};
use crate::hash::sha3_256;
use crate::mldsa::committee::{Committee, MlDsaAnchor};
use crate::mldsa::status_list::{body_view, decodes_to, MlDsaStatusList, MlDsaStatusListError};
use crate::mldsa::verification::{authorized, RawVerifier};
use crate::node::{advanced, law_a_stored_line_moves_the_mark_forward, may_store, Outcome};
use crate::protocol::record::Body;
use crate::protocol::status_list::copy_entries;
use crate::state::freshness::{is_newer, read_mark, HighWaterMark, Mark, MarkStateError};
use crate::text::{
    chars_of, debug_quoted, decimal, is_text, joined, numbered, parse_upto, parse_usize,
    push_decimal, quoted, text_bytes, utf8_text,
};
use vstd::prelude::*;
use vstd::string::*;
use vstd::utf8::{decode_utf8, encode_utf8, valid_utf8};

verus! {

/// What a round is to do.
pub enum Action {
    /// Have a credential issued for a subject.
    Issue(String),
    /// Have the saved credential revoked.
    Revoke,
    /// Verify what is published.
    Verify,
}

/// What a round is to do.
pub enum ActionView {
    Issue(Seq<char>),
    Revoke,
    Verify,
}

impl View for Action {
    type V = ActionView;

    open spec fn view(&self) -> ActionView {
        match self {
            Action::Issue(subject) => ActionView::Issue(subject@),
            Action::Revoke => ActionView::Revoke,
            Action::Verify => ActionView::Verify,
        }
    }
}

/// What a trigger asks for, or why it asks for nothing.
pub open spec fn trigger_action(payload: Seq<u8>, configured: Seq<char>) -> Result<
    ActionView,
    Seq<char>,
> {
    if !tail_framed(payload, 1) {
        Err("malformed request: "@ + tail_refusal(payload, 1)->0.message())
    } else if payload[0] == ACTION_VERIFY {
        Ok(ActionView::Verify)
    } else if payload[0] == ACTION_REVOKE {
        Ok(ActionView::Revoke)
    } else if payload[0] == ACTION_ISSUE {
        let data = tail(payload, 1);
        if !valid_utf8(data) {
            Err("credential subject is not UTF-8"@)
        } else if decode_utf8(data) == "default"@ {
            Ok(ActionView::Issue(configured))
        } else {
            Ok(ActionView::Issue(decode_utf8(data)))
        }
    } else {
        Err("unknown status action "@ + decimal(payload[0] as nat))
    }
}

/// What a trigger asks for.
pub fn action_of(payload: &[u8], configured: &str) -> (r: Result<Action, String>)
    ensures
        match r {
            Ok(action) => trigger_action(payload@, configured@) == Ok::<ActionView, Seq<char>>(
                action@,
            ),
            Err(text) => trigger_action(payload@, configured@) == Err::<ActionView, Seq<char>>(
                text@,
            ),
        },
{
    let request = match StatusRequest::from_ssz_bytes(payload) {
        Ok(request) => request,
        Err(e) => {
            return Err(joined("malformed request: ", e.text().as_str()));
        },
    };
    if request.action == ACTION_VERIFY {
        Ok(Action::Verify)
    } else if request.action == ACTION_REVOKE {
        Ok(Action::Revoke)
    } else if request.action == ACTION_ISSUE {
        match utf8_text(request.data) {
            None => Err("credential subject is not UTF-8".to_owned()),
            Some(subject) => {
                let chars = chars_of(subject.as_str());
                if is_text(chars.as_slice(), "default") {
                    Ok(Action::Issue(configured.to_owned()))
                } else {
                    Ok(Action::Issue(subject))
                }
            },
        }
    } else {
        let mut text: String = "unknown status action ".to_owned();
        push_decimal(&mut text, request.action as u64);
        Err(text)
    }
}

/// The payload of a trigger, or nothing for one that does not exist.
pub fn trigger_payload(kind: &str, subject: &str) -> (bytes: Option<Vec<u8>>)
    ensures
        match bytes {
            Some(b) => {
                ||| kind@ == "round"@ && b@ == action_bytes(ACTION_ISSUE, encode_utf8(subject@))
                ||| kind@ == "revoke"@ && b@ == action_bytes(ACTION_REVOKE, Seq::empty())
                ||| kind@ == "verify"@ && b@ == action_bytes(ACTION_VERIFY, Seq::empty())
            },
            None => kind@ != "round"@ && kind@ != "revoke"@ && kind@ != "verify"@,
        },
{
    let chars = chars_of(kind);
    let empty: Vec<u8> = Vec::new();
    let request = if is_text(chars.as_slice(), "round") {
        StatusRequest { action: ACTION_ISSUE, data: text_bytes(subject) }
    } else if is_text(chars.as_slice(), "revoke") {
        StatusRequest { action: ACTION_REVOKE, data: empty }
    } else if is_text(chars.as_slice(), "verify") {
        StatusRequest { action: ACTION_VERIFY, data: empty }
    } else {
        return None;
    };
    assert(empty@ =~= Seq::<u8>::empty());
    Some(request.as_ssz_bytes())
}

// ---- asking for an update ----------------------------------------------------

/// The member to ask: the configured one, otherwise the one that a number drawn at
/// random picks.
pub open spec fn target_of(setting: Option<Seq<char>>, draw: u64) -> Result<usize, Seq<char>> {
    match setting {
        Some(value) => match parse_upto(value, usize::MAX as nat) {
            None => Err("invalid TARGET_MEMBER "@ + debug_quoted(value)),
            Some(n) => if n < N_MEMBERS {
                Ok(n as usize)
            } else {
                Err("member "@ + decimal(n) + " is outside the committee"@)
            },
        },
        None => Ok((draw % (N_MEMBERS as u64)) as usize),
    }
}

/// The member to ask, with `draw` drawn at random.
pub fn choose_target(setting: Option<&str>, draw: u64) -> (r: Result<usize, String>)
    ensures
        match r {
            Ok(t) => target_of(setting_view(setting), draw) == Ok::<usize, Seq<char>>(t) && t
                < N_MEMBERS,
            Err(text) => target_of(setting_view(setting), draw) == Err::<usize, Seq<char>>(text@),
        },
{
    match setting {
        Some(value) => {
            let chars = chars_of(value);
            match parse_usize(chars.as_slice()) {
                None => Err(joined("invalid TARGET_MEMBER ", quoted(value).as_str())),
                Some(target) => if target < N_MEMBERS {
                    Ok(target)
                } else {
                    Err(numbered("member ", target as u64, " is outside the committee"))
                },
            }
        },
        None => Ok((draw % (N_MEMBERS as u64)) as usize),
    }
}

/// [`choose_target`] with a number drawn at random.
pub fn random_target(setting: Option<&str>) -> (r: Result<usize, String>)
    ensures
        exists|draw: u64|
            match r {
                Ok(t) => #[trigger] target_of(setting_view(setting), draw) == Ok::<
                    usize,
                    Seq<char>,
                >(t),
                Err(text) => target_of(setting_view(setting), draw) == Err::<usize, Seq<char>>(
                    text@,
                ),
            },
{
    let bytes = random_bytes();
    let draw: u64 = crate::bytes::read_le64(bytes.as_slice(), 0);
    choose_target(setting, draw)
}

/// The request that is sent to an aggregator.
pub fn update_request(action: u8, data: &[u8]) -> (bytes: Vec<u8>)
    ensures
        bytes@ == action_bytes(action, data@),
{
    let request = StatusRequest { action, data: to_vec(data) };
    request.as_ssz_bytes()
}

/// The update that an aggregator's answer reports, or why there is none.
pub fn update_in(target: usize, answer: Result<(u8, Vec<u8>), String>) -> (r: Result<
    StatusUpdated,
    String,
>)
    ensures
        update_from(target, answer, r),
{
    match answer {
        Err(why) => {
            let mut text: String = numbered("aggregator ", target as u64, " did not answer: ");
            text.append(why.as_str());
            Err(text)
        },
        Ok((kind, payload)) => {
            if kind != MSG_STATUS_UPDATED {
                let reason = Failure::text(payload.as_slice());
                let mut text: String = numbered("aggregator ", target as u64, " failed: ");
                text.append(reason.as_str());
                return Err(text);
            }
            match StatusUpdated::from_ssz_bytes(payload.as_slice()) {
                Ok(updated) => Ok(updated),
                Err(e) => Err(joined("malformed update response: ", e.text().as_str())),
            }
        },
    }
}

// ---- verifying ---------------------------------------------------------------

/// Whether handing bytes that decode to `decoded` to a relying party had this outcome:
/// without a record that is authorized under the anchor nothing moves; otherwise its
/// version is offered to the mark.
pub open spec fn decoded_accepted<P: FnOnce(&str) -> Result<(), String>>(
    anchor: MlDsaAnchor,
    before: Mark,
    decoded: Result<Body, MlDsaStatusListError>,
    persist: P,
    outcome: Outcome,
    after: Mark,
) -> bool {
    if decoded is Ok && authorized(anchor, decoded->Ok_0) {
        advanced(before, decoded->Ok_0.version, persist, outcome, after)
    } else {
        outcome == Outcome::Refused && after == before
    }
}

/// Whether handing bytes to a relying party had this outcome.
pub open spec fn mldsa_accepted<P: FnOnce(&str) -> Result<(), String>>(
    anchor: MlDsaAnchor,
    before: Mark,
    bytes: Seq<u8>,
    persist: P,
    outcome: Outcome,
    after: Mark,
) -> bool {
    exists|decoded: Result<Body, MlDsaStatusListError>|
        decodes_to(bytes, decoded) && #[trigger] decoded_accepted(
            anchor,
            before,
            decoded,
            persist,
            outcome,
            after,
        )
}

/// Whether handing bytes to a relying party may make `line` durable: they are a record
/// that is authorized under the anchor, and the line moves the mark to its newer version.
pub open spec fn may_persist(
    anchor: MlDsaAnchor,
    before: Mark,
    bytes: Seq<u8>,
    line: Seq<char>,
) -> bool {
    exists|decoded: Result<Body, MlDsaStatusListError>|
        {
            &&& #[trigger] decodes_to(bytes, decoded)
            &&& decoded is Ok && authorized(anchor, decoded->Ok_0)
            &&& may_store(before, decoded->Ok_0.version, line)
        }
}

/// The relying party: anchor verification and a durable freshness mark.
#[derive(Debug)]
pub struct Node {
    predicate: RawVerifier,
    mark: HighWaterMark,
}

impl Node {
    /// The anchor the node verifies against.
    pub closed spec fn anchor(self) -> MlDsaAnchor {
        self.predicate@
    }

    /// The mark the node keeps.
    pub closed spec fn gate(self) -> Mark {
        self.mark@
    }

    pub fn new(committee: Committee, mark: HighWaterMark) -> (node: Node)
        ensures
            node.anchor() == committee@,
            node.gate() == mark@,
    {
        Node { predicate: RawVerifier::new(committee), mark }
    }

    /// The highest version accepted so far, if any.
    pub fn high_water(&self) -> (newest: Option<u32>)
        ensures
            newest == self.gate().newest,
    {
        self.mark.current()
    }

    /// Decode, verify, and only then offer the version to the mark: nothing is made
    /// durable for a record that is not authorized or not newer.
    pub fn accept<P: FnOnce(&str) -> Result<(), String>>(&mut self, bytes: &[u8], persist: P) -> (outcome:
        Outcome)
        requires
            forall|line: &str|
                may_persist(old(self).anchor(), old(self).gate(), bytes@, line@)
                    ==> #[trigger] call_requires(persist, (line,)),
        ensures
            final(self).anchor() == old(self).anchor(),
            mldsa_accepted(
                old(self).anchor(),
                old(self).gate(),
                bytes@,
                persist,
                outcome,
                final(self).gate(),
            ),
    {
        let ghost (anchor, before) = (self.anchor(), self.gate());
        let decoded = MlDsaStatusList::from_bytes(bytes);
        let ghost body = body_view(decoded);
        let outcome = match &decoded {
            Err(_) => Outcome::Refused,
            Ok(record) => if self.predicate.verify_status_list(record) {
                Outcome::advance(&mut self.mark, record.version(), persist)
            } else {
                Outcome::Refused
            },
        };
        assert(decodes_to(bytes@, body) && decoded_accepted(
            anchor,
            before,
            body,
            persist,
            outcome,
            self.gate(),
        ));
        outcome
    }
}

/// The list a published record carries, empty where it cannot be read.
pub fn reported_list(bytes: &[u8]) -> (list: Vec<[u8; 32]>)
    ensures
        lists(bytes@, views(list@)),
{
    let decoded = MlDsaStatusList::from_bytes(bytes);
    let ghost body = body_view(decoded);
    let list: Vec<[u8; 32]> = match &decoded {
        Err(_) => Vec::new(),
        Ok(record) => copy_entries(record.list()),
    };
    assert(decodes_to(bytes@, body) && views(list@) =~= list_in(body));
    list
}

/// The list of a decoded record.
pub open spec fn list_in(decoded: Result<Body, MlDsaStatusListError>) -> Seq<Seq<u8>> {
    match decoded {
        Ok(body) => body.list,
        Err(_) => Seq::empty(),
    }
}

// ---- the verdict -------------------------------------------------------------

/// The version an outcome is about and what it says of freshness.
pub open spec fn freshness_note(outcome: Outcome) -> (u32, Seq<char>) {
    match outcome {
        Outcome::Accepted { version } => (version, "high-water now v"@ + decimal(version as nat)),
        Outcome::Stale { version, mark } => (
            version,
            "already seen, high-water remains v"@ + decimal(mark as nat),
        ),
        Outcome::Refused => (0, Seq::empty()),
    }
}

/// What the round says of the credential. `expected` is whether it is to be present,
/// if the round changed anything; `present` is whether it is.
pub open spec fn operation_text(expected: Option<bool>, present: Option<bool>) -> Seq<char> {
    match expected {
        Some(true) => "credential issued and present: valid"@,
        Some(false) => "credential removed: revoked"@,
        None => match present {
            Some(true) => "saved credential is present: valid"@,
            Some(false) => "saved credential is absent: revoked"@,
            None => "no saved credential to query"@,
        },
    }
}

/// The verdict of a round. `updated` is the version and credential the aggregator
/// reported, `saved` the credential kept from before.
pub open spec fn verdict_of(
    outcome: Outcome,
    updated: Option<(u32, Seq<u8>)>,
    saved: Option<Seq<u8>>,
    expected: Option<bool>,
    list: Seq<Seq<u8>>,
) -> Result<Seq<char>, Seq<char>> {
    let (version, note) = freshness_note(outcome);
    let present = credential_present(updated, saved, list);
    if outcome is Refused {
        Err("record failed ML-DSA quorum verification; freshness unchanged"@)
    } else if updated is Some && (updated->0).0 != version {
        Err("aggregator version differs from stored record"@)
    } else if expected is Some && present is Some && expected->0 != present->0 {
        Err("authenticated snapshot has the wrong credential state"@)
    } else {
        Ok(
            "v"@ + decimal(version as nat) + " verified, "@ + operation_text(expected, present)
                + ", "@ + note,
        )
    }
}

/// Whether the credential the round is about is in the list: the reported one, or the
/// saved one, or none.
pub open spec fn credential_present(
    updated: Option<(u32, Seq<u8>)>,
    saved: Option<Seq<u8>>,
    list: Seq<Seq<u8>>,
) -> Option<bool> {
    match updated {
        Some(u) => Some(list.contains(sha3_256(u.1))),
        None => match saved {
            Some(credential) => Some(list.contains(sha3_256(credential))),
            None => None,
        },
    }
}

/// What an optional update says.
pub open spec fn update_view(updated: Option<&StatusUpdated>) -> Option<(u32, Seq<u8>)> {
    match updated {
        Some(u) => Some((u.version, u.credential@)),
        None => None,
    }
}

/// The contents of an optional credential.
pub open spec fn saved_view(saved: Option<&[u8]>) -> Option<Seq<u8>> {
    match saved {
        Some(s) => Some(s@),
        None => None,
    }
}

/// The verdict of a round.
pub fn conclude(
    outcome: Outcome,
    updated: Option<&StatusUpdated>,
    saved: Option<&[u8]>,
    expected: Option<bool>,
    list: &[[u8; 32]],
) -> (r: Result<String, String>)
    ensures
        verdict_is(
            r,
            verdict_of(outcome, update_view(updated), saved_view(saved), expected, views(list@)),
        ),
{
    let (version, note): (u32, String) = match outcome {
        Outcome::Refused => {
            return Err(
                "record failed ML-DSA quorum verification; freshness unchanged".to_owned(),
            );
        },
        Outcome::Accepted { version } => {
            let mut note: String = "high-water now v".to_owned();
            push_decimal(&mut note, version as u64);
            (version, note)
        },
        Outcome::Stale { version, mark } => {
            let mut note: String = "already seen, high-water remains v".to_owned();
            push_decimal(&mut note, mark as u64);
            (version, note)
        },
    };
    let present: Option<bool> = match updated {
        Some(u) => {
            if u.version != version {
                return Err("aggregator version differs from stored record".to_owned());
            }
            Some(is_valid(list, u.credential.as_slice()))
        },
        None => match saved {
            Some(credential) => Some(is_valid(list, credential)),
            None => None,
        },
    };
    match (expected, present) {
        (Some(e), Some(p)) => {
            if e != p {
                return Err("authenticated snapshot has the wrong credential state".to_owned());
            }
        },
        _ => {},
    }
    let operation: &str = match expected {
        Some(issued) => if issued {
            "credential issued and present: valid"
        } else {
            "credential removed: revoked"
        },
        None => match present {
            Some(there) => if there {
                "saved credential is present: valid"
            } else {
                "saved credential is absent: revoked"
            },
            None => "no saved credential to query",
        },
    };
    let mut text: String = numbered("v", version as u64, " verified, ");
    text.append(operation);
    text.append(", ");
    text.append(note.as_str());
    Ok(text)
}

/// A round that issued or revoked succeeds only when the record verified, is the one
/// the aggregator reported, and shows the credential in the expected state.
pub proof fn law_a_successful_round_shows_the_change(
    outcome: Outcome,
    updated: (u32, Seq<u8>),
    saved: Option<Seq<u8>>,
    expected: bool,
    list: Seq<Seq<u8>>,
)
    requires
        verdict_of(outcome, Some(updated), saved, Some(expected), list) is Ok,
    ensures
        outcome !is Refused,
        freshness_note(outcome).0 == updated.0,
        list.contains(sha3_256(updated.1)) == expected,
{
}

/// A record that is not authorized never moves the mark.
pub proof fn law_an_unauthorized_record_moves_nothing<P: FnOnce(&str) -> Result<(), String>>(
    anchor: MlDsaAnchor,
    before: Mark,
    decoded: Result<Body, MlDsaStatusListError>,
    persist: P,
    outcome: Outcome,
    after: Mark,
)
    requires
        decoded_accepted(anchor, before, decoded, persist, outcome, after),
        after != before,
    ensures
        decoded is Ok,
        authorized(anchor, decoded->Ok_0),
        outcome == (Outcome::Accepted { version: decoded->Ok_0.version }),
        after.newest == Some(decoded->Ok_0.version),
{
}

/// A durable mark moves only by a record that is authorized: after a restart it stands at
/// that record's version, which is newer.
pub proof fn law_only_an_authorized_record_is_made_durable(
    anchor: MlDsaAnchor,
    before: Mark,
    bytes: Seq<u8>,
    line: Seq<char>,
)
    requires
        before.anchor.len() == 32,
        may_persist(anchor, before, bytes, line),
    ensures
        exists|record: Body|
            {
                &&& #[trigger] decodes_to(bytes, Ok(record))
                &&& authorized(anchor, record)
                &&& is_newer(before.newest, record.version)
                &&& read_mark(encode_utf8(line), before.anchor) == Ok::<
                    Option<u32>,
                    MarkStateError,
                >(Some(record.version))
            },
{
    let decoded = choose|decoded: Result<Body, MlDsaStatusListError>|
        {
            &&& #[trigger] decodes_to(bytes, decoded)
            &&& decoded is Ok && authorized(anchor, decoded->Ok_0)
            &&& may_store(before, decoded->Ok_0.version, line)
        };
    law_a_stored_line_moves_the_mark_forward(before, decoded->Ok_0.version, line);
    assert(decodes_to(bytes, Ok(decoded->Ok_0)));
}

/// The same bytes are never accepted twice: once they were, they are stale.
pub proof fn law_a_replay_is_stale<
    P: FnOnce(&str) -> Result<(), String>,
    Q: FnOnce(&str) -> Result<(), String>,
>(
    anchor: MlDsaAnchor,
    marks: (Mark, Mark, Mark),
    bytes: Seq<u8>,
    first: (P, Outcome),
    second: (Q, Outcome),
)
    requires
        mldsa_accepted(anchor, marks.0, bytes, first.0, first.1, marks.1),
        mldsa_accepted(anchor, marks.1, bytes, second.0, second.1, marks.2),
        first.1 is Accepted,
    ensures
        second.1 is Stale,
        marks.2 == marks.1,
{
}

// ---- exchanges and rounds ----------------------------------------------------

/// Whether `r` is the update that an aggregator's answer reports, or why it reports none.
pub open spec fn update_from(
    target: usize,
    answer: Result<(u8, Vec<u8>), String>,
    r: Result<StatusUpdated, String>,
) -> bool {
    match answer {
        Err(why) => r is Err && r->Err_0@ == "aggregator "@ + decimal(target as nat)
            + " did not answer: "@ + why@,
        Ok(frame) => if frame.0 != MSG_STATUS_UPDATED {
            r is Err && r->Err_0@ == "aggregator "@ + decimal(target as nat) + " failed: "@
                + failure_text(frame.1@)
        } else if !tail_framed(frame.1@, 4) {
            r is Err && r->Err_0@ == "malformed update response: "@ + tail_refusal(
                frame.1@,
                4,
            )->0.message()
        } else {
            r is Ok && r->Ok_0.version == version_in(frame.1@) && r->Ok_0.credential@ == tail(
                frame.1@,
                4,
            )
        },
    }
}

/// Whether an update was asked for from member `target`, and what came of it.
pub open spec fn update_sent<S: FnOnce(usize, &[u8]) -> Result<(u8, Vec<u8>), String>>(
    target: usize,
    request: Seq<u8>,
    send: S,
    r: Result<StatusUpdated, String>,
) -> bool {
    exists|answer: Result<(u8, Vec<u8>), String>|
        #[trigger] sent(send, target, request, answer) && update_from(target, answer, r)
}

/// Whether an update was asked for from the member that was chosen, and what came of it.
pub open spec fn update_asked<S: FnOnce(usize, &[u8]) -> Result<(u8, Vec<u8>), String>>(
    target: Result<usize, Seq<char>>,
    request: Seq<u8>,
    send: S,
    r: Result<StatusUpdated, String>,
) -> bool {
    match target {
        Err(why) => r is Err && r->Err_0@ == why,
        Ok(t) => update_sent(t, request, send, r),
    }
}

/// Asks one member for an update of the list: the configured one, or one chosen at
/// random. `send` carries a request to a member and brings its answer.
pub fn request_status_update<S: FnOnce(usize, &[u8]) -> Result<(u8, Vec<u8>), String>>(
    action: u8,
    data: &[u8],
    setting: Option<&str>,
    send: S,
) -> (r: Result<StatusUpdated, String>)
    requires
        forall|draw: u64, t: usize, b: &[u8]|
            (#[trigger] target_of(setting_view(setting), draw)) == Ok::<usize, Seq<char>>(t) && b@
                == action_bytes(action, data@) ==> #[trigger] call_requires(send, (t, b)),
    ensures
        exists|draw: u64|
            update_asked(
                #[trigger] target_of(setting_view(setting), draw),
                action_bytes(action, data@),
                send,
                r,
            ),
{
    let target: usize = match random_target(setting) {
        Ok(target) => target,
        Err(why) => {
            return Err(why);
        },
    };
    let payload = update_request(action, data);
    let answer = send(target, payload.as_slice());
    let ghost kept = answer;
    let r = update_in(target, answer);
    proof {
        let request = action_bytes(action, data@);
        assert(sent(send, target, request, kept));
        assert(update_sent(target, request, send, r));
    }
    r
}

/// Whether `run` was asked for a round on this action and came to this verdict.
pub open spec fn round_run<R: FnOnce(Action) -> Result<String, String>>(
    run: R,
    action: ActionView,
    verdict: Result<String, String>,
) -> bool {
    exists|a: Action| a@ == action && #[trigger] call_ensures(run, (a,), verdict)
}

/// Whether a trigger for this action was answered so.
pub open spec fn action_answered<R: FnOnce(Action) -> Result<String, String>>(
    run: R,
    action: ActionView,
    reply: Reply,
) -> bool {
    exists|verdict: Result<String, String>|
        #[trigger] round_run(run, action, verdict) && verdict_answered(verdict, reply)
}

/// One message to the resident relying party: a trigger runs a round, and the verdict
/// goes back in one line; anything else is refused.
pub fn handle<R: FnOnce(Action) -> Result<String, String>>(
    kind: u8,
    payload: &[u8],
    configured: &str,
    run: R,
) -> (reply: Reply)
    requires
        forall|a: Action|
            kind == MSG_ROUND_REQUEST && trigger_action(payload@, configured@) == Ok::<
                ActionView,
                Seq<char>,
            >(a@) ==> #[trigger] call_requires(run, (a,)),
    ensures
        if kind != MSG_ROUND_REQUEST {
            fails(reply, "not a round request"@)
        } else {
            match trigger_action(payload@, configured@) {
                Err(why) => fails(reply, why),
                Ok(action) => action_answered(run, action, reply),
            }
        },
{
    match refuse_other(kind) {
        Some(reply) => {
            return reply;
        },
        None => {},
    }
    match action_of(payload, configured) {
        Err(why) => failure(why.as_str()),
        Ok(action) => {
            let ghost asked = action@;
            let verdict = run(action);
            assert(round_run(run, asked, verdict));
            let reply = verdict_reply(&verdict);
            assert(action_answered(run, asked, reply));
            reply
        },
    }
}

/// What a round asks an aggregator for, with the action and its data; nothing when it
/// only verifies. Revoking takes the credential that was saved.
pub open spec fn asks_for(action: ActionView, saved: Result<Seq<u8>, Seq<char>>) -> Result<
    Option<(u8, Seq<u8>)>,
    Seq<char>,
> {
    match action {
        ActionView::Issue(subject) => Ok(Some((ACTION_ISSUE, encode_utf8(subject)))),
        ActionView::Revoke => match saved {
            Ok(credential) => Ok(Some((ACTION_REVOKE, credential))),
            Err(why) => Err("no issued credential is available: "@ + why),
        },
        ActionView::Verify => Ok(None),
    }
}

/// What a round asks an aggregator for, where `saved` is the saved credential or why it
/// could not be read.
pub fn plan(action: &Action, saved: &Result<Vec<u8>, String>) -> (r: Result<
    Option<(u8, Vec<u8>)>,
    String,
>)
    ensures
        ({
            let there = credential_there(*saved);
            match r {
                Ok(None) => asks_for(action@, there) == Ok::<
                    Option<(u8, Seq<u8>)>,
                    Seq<char>,
                >(None),
                Ok(Some(request)) => asks_for(action@, there) == Ok::<
                    Option<(u8, Seq<u8>)>,
                    Seq<char>,
                >(Some((request.0, request.1@))),
                Err(text) => asks_for(action@, there) == Err::<
                    Option<(u8, Seq<u8>)>,
                    Seq<char>,
                >(text@),
            }
        }),
{
    match action {
        Action::Issue(subject) => Ok(Some((ACTION_ISSUE, text_bytes(subject.as_str())))),
        Action::Revoke => match saved {
            Ok(credential) => Ok(Some((ACTION_REVOKE, to_vec(credential.as_slice())))),
            Err(why) => Err(joined("no issued credential is available: ", why.as_str())),
        },
        Action::Verify => Ok(None),
    }
}

/// What an action leads one to expect of the credential.
pub fn expectation(action: &Action) -> (expected: Option<bool>)
    ensures
        expected == expected_of(action@),
{
    match action {
        Action::Issue(_) => Some(true),
        Action::Revoke => Some(false),
        Action::Verify => None,
    }
}

/// Whether `save` was asked to keep a credential and answered so.
pub open spec fn save_asked<S: FnOnce(&[u8]) -> Result<(), String>>(
    save: S,
    credential: Seq<u8>,
    answer: Result<(), String>,
) -> bool {
    exists|b: &[u8]| b@ == credential && #[trigger] call_ensures(save, (b,), answer)
}

/// Whether a round that issued a credential and came to this verdict ended so: the
/// credential is saved, and a failure to save it fails the round.
pub open spec fn saved_and_ended<S: FnOnce(&[u8]) -> Result<(), String>>(
    verdict: Seq<char>,
    credential: Seq<u8>,
    save: S,
    r: Result<String, String>,
) -> bool {
    exists|answer: Result<(), String>|
        #[trigger] save_asked(save, credential, answer) && match answer {
            Ok(_) => r is Ok && r->Ok_0@ == verdict,
            Err(why) => r is Err && r->Err_0@ == "cannot save credential: "@ + why@,
        }
}

/// Whether a round with this verdict ended so.
pub open spec fn ended<S: FnOnce(&[u8]) -> Result<(), String>>(
    verdict: Result<Seq<char>, Seq<char>>,
    updated: Option<(u32, Seq<u8>)>,
    expected: Option<bool>,
    save: S,
    r: Result<String, String>,
) -> bool {
    match verdict {
        Err(why) => r is Err && r->Err_0@ == why,
        Ok(text) => if expected == Some(true) && updated is Some {
            saved_and_ended(text, (updated->0).1, save, r)
        } else {
            r is Ok && r->Ok_0@ == text
        },
    }
}

/// Whether a round on a record with these bytes went so.
pub open spec fn round_went<
    P: FnOnce(&str) -> Result<(), String>,
    S: FnOnce(&[u8]) -> Result<(), String>,
>(
    anchor: MlDsaAnchor,
    before: Mark,
    bytes: Seq<u8>,
    asked: (Option<(u32, Seq<u8>)>, Option<Seq<u8>>, Option<bool>),
    persist: P,
    save: S,
    r: Result<String, String>,
    after: Mark,
) -> bool {
    exists|outcome: Outcome, list: Seq<Seq<u8>>|
        {
            &&& #[trigger] mldsa_accepted(anchor, before, bytes, persist, outcome, after)
            &&& #[trigger] lists(bytes, list)
            &&& ended(
                verdict_of(outcome, asked.0, asked.1, asked.2, list),
                asked.0,
                asked.2,
                save,
                r,
            )
        }
}

/// Whether a round on a record with these bytes may save `credential`: it is the one that
/// was to be issued and was reported, and the verdict on the record is good.
pub open spec fn may_save<P: FnOnce(&str) -> Result<(), String>>(
    anchor: MlDsaAnchor,
    before: Mark,
    bytes: Seq<u8>,
    asked: (Option<(u32, Seq<u8>)>, Option<Seq<u8>>, Option<bool>),
    persist: P,
    credential: Seq<u8>,
) -> bool {
    &&& asked.2 == Some(true)
    &&& asked.0 is Some && credential == (asked.0->0).1
    &&& exists|outcome: Outcome, list: Seq<Seq<u8>>, after: Mark|
        {
            &&& #[trigger] mldsa_accepted(anchor, before, bytes, persist, outcome, after)
            &&& #[trigger] lists(bytes, list)
            &&& verdict_of(outcome, asked.0, asked.1, asked.2, list) is Ok
        }
}

/// Whether `list` is what a published record carries, empty where it cannot be read.
pub open spec fn lists(bytes: Seq<u8>, list: Seq<Seq<u8>>) -> bool {
    exists|decoded: Result<Body, MlDsaStatusListError>|
        decodes_to(bytes, decoded) && list == #[trigger] list_in(decoded)
}

impl Node {
    /// One round once the aggregator has answered, unless this is a verifying-only pass,
    /// and the published record was fetched: the node decides about the record, the
    /// verdict follows, and a credential that was issued is saved.
    pub fn run_round<
        P: FnOnce(&str) -> Result<(), String>,
        S: FnOnce(&[u8]) -> Result<(), String>,
    >(
        &mut self,
        updated: Option<&StatusUpdated>,
        saved: Option<&[u8]>,
        expected: Option<bool>,
        current: Option<&[u8]>,
        persist: P,
        save: S,
    ) -> (r: Result<String, String>)
        requires
            forall|line: &str|
                current is Some && may_persist(
                    old(self).anchor(),
                    old(self).gate(),
                    (current->0)@,
                    line@,
                ) ==> #[trigger] call_requires(persist, (line,)),
            forall|b: &[u8]|
                current is Some && may_save(
                    old(self).anchor(),
                    old(self).gate(),
                    (current->0)@,
                    (update_view(updated), saved_view(saved), expected),
                    persist,
                    b@,
                ) ==> #[trigger] call_requires(save, (b,)),
        ensures
            final(self).anchor() == old(self).anchor(),
            match current {
                None => r is Err && r->Err_0@ == "nothing is published"@ && final(self).gate()
                    == old(self).gate(),
                Some(bytes) => round_went(
                    old(self).anchor(),
                    old(self).gate(),
                    bytes@,
                    (update_view(updated), saved_view(saved), expected),
                    persist,
                    save,
                    r,
                    final(self).gate(),
                ),
            },
    {
        let bytes: &[u8] = match current {
            None => {
                return Err("nothing is published".to_owned());
            },
            Some(bytes) => bytes,
        };
        let outcome = self.accept(bytes, persist);
        let list = reported_list(bytes);
        let verdict = conclude(outcome, updated, saved, expected, list.as_slice());
        proof {
            let entries = views(list@);
            assert(lists(bytes@, entries));
        }
        let r = end_round(verdict, updated, expected, save);
        r
    }

    /// A round from its start: what the action needs is asked of an aggregator first, and
    /// without an answer the round ends; only then is the published record fetched and
    /// decided about. `saved` is the saved credential, or why it could not be read.
    pub fn run_whole_round<
        Q: FnOnce(u8, &[u8]) -> Result<StatusUpdated, String>,
        F: FnOnce() -> Option<Vec<u8>>,
        P: FnOnce(&str) -> Result<(), String>,
        S: FnOnce(&[u8]) -> Result<(), String>,
    >(
        &mut self,
        action: &Action,
        saved: &Result<Vec<u8>, String>,
        ask: Q,
        fetch: F,
        persist: P,
        save: S,
    ) -> (r: Result<String, String>)
        requires
            forall|kind: u8, b: &[u8]|
                may_ask(action@, credential_there(*saved), kind, b@) ==> #[trigger] call_requires(
                    ask,
                    (kind, b),
                ),
            may_fetch(action@, credential_there(*saved), ask) ==> call_requires(fetch, ()),
            forall|current: Option<Vec<u8>>, line: &str|
                may_fetch(action@, credential_there(*saved), ask) && #[trigger] call_ensures(
                    fetch,
                    (),
                    current,
                ) && current is Some && may_persist(
                    old(self).anchor(),
                    old(self).gate(),
                    (current->0)@,
                    line@,
                ) ==> #[trigger] call_requires(persist, (line,)),
            forall|current: Option<Vec<u8>>, updated: StatusUpdated, b: &[u8]|
                #[trigger] reported(action@, credential_there(*saved), ask, updated)
                    && #[trigger] call_ensures(fetch, (), current) && current is Some && may_save(
                    old(self).anchor(),
                    old(self).gate(),
                    (current->0)@,
                    asked_of(action@, credential_there(*saved), Some(updated)),
                    persist,
                    b@,
                ) ==> #[trigger] call_requires(save, (b,)),
        ensures
            final(self).anchor() == old(self).anchor(),
            match asks_for(action@, credential_there(*saved)) {
                Err(why) => r is Err && r->Err_0@ == why && final(self).gate() == old(self).gate(),
                Ok(None) => fetched_round_went(
                    old(self).anchor(),
                    old(self).gate(),
                    fetch,
                    asked_of(action@, credential_there(*saved), None),
                    persist,
                    save,
                    r,
                    final(self).gate(),
                ),
                Ok(Some(request)) => exists|answer: Result<StatusUpdated, String>|
                    {
                        &&& #[trigger] update_was_asked(ask, request, answer)
                        &&& match answer {
                            Err(why) => r is Err && r->Err_0@ == why@ && final(self).gate() == old(
                                self,
                            ).gate(),
                            Ok(updated) => fetched_round_went(
                                old(self).anchor(),
                                old(self).gate(),
                                fetch,
                                asked_of(action@, credential_there(*saved), Some(updated)),
                                persist,
                                save,
                                r,
                                final(self).gate(),
                            ),
                        }
                    },
            },
    {
        let ghost there = credential_there(*saved);
        let request = match plan(action, saved) {
            Err(why) => {
                return Err(why);
            },
            Ok(request) => request,
        };
        let updated: Option<StatusUpdated> = match &request {
            None => None,
            Some((kind, data)) => {
                let ghost asked = asks_for(action@, there)->Ok_0->0;
                assert(asked == (*kind, data@));
                let bytes: &[u8] = data.as_slice();
                let answer = ask(*kind, bytes);
                assert(bytes@ == asked.1 && call_ensures(ask, (asked.0, bytes), answer));
                assert(update_was_asked(ask, asked, answer));
                match answer {
                    Err(why) => {
                        return Err(why);
                    },
                    Ok(updated) => {
                        assert(update_was_asked(ask, asked, Ok(updated)));
                        assert(reported(action@, there, ask, updated));
                        Some(updated)
                    },
                }
            },
        };
        assert(may_fetch(action@, there, ask));
        let current = fetch();
        let ghost found = current;
        let ghost (anchor, before) = (self.anchor(), self.gate());
        let kept: Option<&[u8]> = match saved {
            Ok(bytes) => Some(bytes.as_slice()),
            Err(_) => None,
        };
        let bytes: Option<&[u8]> = match &current {
            Some(bytes) => Some(bytes.as_slice()),
            None => None,
        };
        let expected = expectation(action);
        let r = self.run_round(updated.as_ref(), kept, expected, bytes, persist, save);
        assert(fetched_round_went(
            anchor,
            before,
            fetch,
            asked_of(action@, there, updated),
            persist,
            save,
            r,
            self.gate(),
        )) by {
            assert(call_ensures(fetch, (), found));
        }
        r
    }
}

/// The saved credential, or why it could not be read.
pub open spec fn credential_there(saved: Result<Vec<u8>, String>) -> Result<Seq<u8>, Seq<char>> {
    match saved {
        Ok(bytes) => Ok(bytes@),
        Err(why) => Err(why@),
    }
}

/// What an action leads one to expect of the credential.
pub open spec fn expected_of(action: ActionView) -> Option<bool> {
    match action {
        ActionView::Issue(_) => Some(true),
        ActionView::Revoke => Some(false),
        ActionView::Verify => None,
    }
}

/// What a round on an action goes by: the update that was reported, the saved credential,
/// and what is expected.
pub open spec fn asked_of(
    action: ActionView,
    saved: Result<Seq<u8>, Seq<char>>,
    updated: Option<StatusUpdated>,
) -> (Option<(u32, Seq<u8>)>, Option<Seq<u8>>, Option<bool>) {
    (
        match updated {
            Some(u) => Some((u.version, u.credential@)),
            None => None,
        },
        match saved {
            Ok(bytes) => Some(bytes),
            Err(_) => None,
        },
        expected_of(action),
    )
}

/// Whether a round on an action may ask an aggregator for this.
pub open spec fn may_ask(
    action: ActionView,
    saved: Result<Seq<u8>, Seq<char>>,
    kind: u8,
    data: Seq<u8>,
) -> bool {
    asks_for(action, saved) == Ok::<Option<(u8, Seq<u8>)>, Seq<char>>(Some((kind, data)))
}

/// Whether `ask` was asked for this update and answered so.
pub open spec fn update_was_asked<Q: FnOnce(u8, &[u8]) -> Result<StatusUpdated, String>>(
    ask: Q,
    request: (u8, Seq<u8>),
    answer: Result<StatusUpdated, String>,
) -> bool {
    exists|b: &[u8]| b@ == request.1 && #[trigger] call_ensures(ask, (request.0, b), answer)
}

/// Whether an aggregator reported this update when asked for what the action needs.
pub open spec fn reported<Q: FnOnce(u8, &[u8]) -> Result<StatusUpdated, String>>(
    action: ActionView,
    saved: Result<Seq<u8>, Seq<char>>,
    ask: Q,
    updated: StatusUpdated,
) -> bool {
    let asked = asks_for(action, saved);
    &&& asked is Ok && asked->Ok_0 is Some
    &&& update_was_asked(ask, asked->Ok_0->0, Ok(updated))
}

/// Whether a round may fetch the published record: its action needs no update, or one was
/// reported.
pub open spec fn may_fetch<Q: FnOnce(u8, &[u8]) -> Result<StatusUpdated, String>>(
    action: ActionView,
    saved: Result<Seq<u8>, Seq<char>>,
    ask: Q,
) -> bool {
    ||| asks_for(action, saved) == Ok::<Option<(u8, Seq<u8>)>, Seq<char>>(None)
    ||| exists|updated: StatusUpdated| #[trigger] reported(action, saved, ask, updated)
}

/// Whether a round on what `fetch` brought went so.
pub open spec fn fetched_round_went<
    F: FnOnce() -> Option<Vec<u8>>,
    P: FnOnce(&str) -> Result<(), String>,
    S: FnOnce(&[u8]) -> Result<(), String>,
>(
    anchor: MlDsaAnchor,
    before: Mark,
    fetch: F,
    asked: (Option<(u32, Seq<u8>)>, Option<Seq<u8>>, Option<bool>),
    persist: P,
    save: S,
    r: Result<String, String>,
    after: Mark,
) -> bool {
    exists|current: Option<Vec<u8>>|
        {
            &&& #[trigger] call_ensures(fetch, (), current)
            &&& match current {
                None => r is Err && r->Err_0@ == "nothing is published"@ && after == before,
                Some(bytes) => round_went(
                    anchor,
                    before,
                    bytes@,
                    asked,
                    persist,
                    save,
                    r,
                    after,
                ),
            }
        }
}

/// Ends a round: a credential that was issued is saved, and what was found is returned.
fn end_round<S: FnOnce(&[u8]) -> Result<(), String>>(
    verdict: Result<String, String>,
    updated: Option<&StatusUpdated>,
    expected: Option<bool>,
    save: S,
) -> (r: Result<String, String>)
    requires
        forall|b: &[u8]|
            verdict is Ok && expected == Some(true) && updated is Some && b@
                == (updated->0).credential@ ==> #[trigger] call_requires(save, (b,)),
    ensures
        forall|stated: Result<Seq<char>, Seq<char>>|
            verdict_is(verdict, stated) ==> #[trigger] ended(
                stated,
                update_view(updated),
                expected,
                save,
                r,
            ),
{
    let text: String = match verdict {
        Err(why) => {
            return Err(why);
        },
        Ok(text) => text,
    };
    let issued: bool = match expected {
        Some(present) => present,
        None => false,
    };
    match updated {
        Some(u) => {
            if issued {
                let answer = save(u.credential.as_slice());
                assert(save_asked(save, u.credential@, answer));
                let ghost (kept, stated) = (answer, text@);
                let r = match answer {
                    Ok(_) => Ok(text),
                    Err(why) => Err(joined("cannot save credential: ", why.as_str())),
                };
                assert(saved_and_ended(stated, u.credential@, save, r));
                return r;
            }
        },
        None => {},
    }
    Ok(text)
}

/// How the mark of a relying party comes about when it starts.
#[derive(Clone, Copy, PartialEq, Eq, Structural, Debug)]
pub enum StateMode {
    Create,
    Open,
}

/// How the mark comes about: opened unless a setting says otherwise, and nothing for a
/// setting that says neither.
pub fn state_mode(setting: Option<&str>) -> (mode: Option<StateMode>)
    ensures
        mode == match setting {
            None => Some(StateMode::Open),
            Some(s) => if s@ == "create"@ {
                Some(StateMode::Create)
            } else if s@ == "open"@ {
                Some(StateMode::Open)
            } else {
                None
            },
        },
{
    match setting {
        None => Some(StateMode::Open),
        Some(s) => {
            let chars = chars_of(s);
            if is_text(chars.as_slice(), "create") {
                Some(StateMode::Create)
            } else if is_text(chars.as_slice(), "open") {
                Some(StateMode::Open)
            } else {
                None
            }
        },
    }
}

/// A round that only verifies reports of a saved credential, once the record is
/// authenticated, that it is valid exactly when its fingerprint stands at some place of the
/// record's list, and that it is revoked exactly when it stands at none.
pub proof fn law_a_saved_credential_is_reported_as_it_stands(
    outcome: Outcome,
    credential: Seq<u8>,
    list: Seq<Seq<u8>>,
)
    requires
        outcome !is Refused,
    ensures
        ({
            let r = verdict_of(outcome, None, Some(credential), None, list);
            let (version, note) = match outcome {
                Outcome::Accepted { version } => (
                    version,
                    "high-water now v"@ + decimal(version as nat),
                ),
                Outcome::Stale { version, mark } => (
                    version,
                    "already seen, high-water remains v"@ + decimal(mark as nat),
                ),
                Outcome::Refused => (0u32, ""@),
            };
            let listed = exists|i: int|
                0 <= i < list.len() && #[trigger] list[i] == sha3_256(credential);
            &&& listed ==> r == Ok::<Seq<char>, Seq<char>>(
                "v"@ + decimal(version as nat) + " verified, "@
                    + "saved credential is present: valid"@ + ", "@ + note,
            )
            &&& !listed ==> r == Ok::<Seq<char>, Seq<char>>(
                "v"@ + decimal(version as nat) + " verified, "@
                    + "saved credential is absent: revoked"@ + ", "@ + note,
            )
        }),
{
    let entry = sha3_256(credential);
    if exists|i: int| 0 <= i < list.len() && #[trigger] list[i] == entry {
        assert(list.contains(entry));
    }
}

/// Without a saved credential a round that only verifies has nothing to look up and
/// succeeds on every authenticated record.
pub proof fn law_verifying_without_a_credential_queries_none(
    outcome: Outcome,
    list: Seq<Seq<u8>>,
)
    requires
        outcome !is Refused,
    ensures
        match outcome {
            Outcome::Accepted { version } => verdict_of(outcome, None, None, None, list) == Ok::<
                Seq<char>,
                Seq<char>,
            >(
                "v"@ + decimal(version as nat) + " verified, "@ + "no saved credential to query"@
                    + ", "@ + ("high-water now v"@ + decimal(version as nat)),
            ),
            Outcome::Stale { version, mark } => verdict_of(outcome, None, None, None, list) == Ok::<
                Seq<char>,
                Seq<char>,
            >(
                "v"@ + decimal(version as nat) + " verified, "@ + "no saved credential to query"@
                    + ", "@ + ("already seen, high-water remains v"@ + decimal(mark as nat)),
            ),
            Outcome::Refused => true,
        },
{
}

/// A round that issued or revoked is judged by the record alone: it succeeds when the
/// record verified at the reported version and its list shows the reported credential, or
/// no longer shows it, and otherwise it fails for the first of these that does not hold.
/// What was saved before plays no part.
pub proof fn law_a_change_is_judged_by_the_record(
    outcome: Outcome,
    updated: (u32, Seq<u8>),
    saved: Option<Seq<u8>>,
    expected: bool,
    list: Seq<Seq<u8>>,
)
    ensures
        ({
            let r = verdict_of(outcome, Some(updated), saved, Some(expected), list);
            let listed = exists|i: int|
                0 <= i < list.len() && #[trigger] list[i] == sha3_256(updated.1);
            let (version, note) = match outcome {
                Outcome::Accepted { version } => (
                    version,
                    "high-water now v"@ + decimal(version as nat),
                ),
                Outcome::Stale { version, mark } => (
                    version,
                    "already seen, high-water remains v"@ + decimal(mark as nat),
                ),
                Outcome::Refused => (0u32, ""@),
            };
            let said = if expected {
                "credential issued and present: valid"@
            } else {
                "credential removed: revoked"@
            };
            &&& outcome is Refused ==> r == Err::<Seq<char>, Seq<char>>(
                "record failed ML-DSA quorum verification; freshness unchanged"@,
            )
            &&& outcome !is Refused && version != updated.0 ==> r == Err::<Seq<char>, Seq<char>>(
                "aggregator version differs from stored record"@,
            )
            &&& outcome !is Refused && version == updated.0 && listed != expected ==> r == Err::<
                Seq<char>,
                Seq<char>,
            >("authenticated snapshot has the wrong credential state"@)
            &&& outcome !is Refused && version == updated.0 && listed == expected ==> r == Ok::<
                Seq<char>,
                Seq<char>,
            >("v"@ + decimal(version as nat) + " verified, "@ + said + ", "@ + note)
        }),
{
    let entry = sha3_256(updated.1);
    if exists|i: int| 0 <= i < list.len() && #[trigger] list[i] == entry {
        assert(list.contains(entry));
    }
}

/// A whole round that only verifies, on a record that is authorized under the anchor:
/// it never asks an aggregator for anything, and it says of the saved credential what the
/// record's own list shows.
pub proof fn law_a_verifying_round_reads_the_record<
    P: FnOnce(&str) -> Result<(), String>,
    S: FnOnce(&[u8]) -> Result<(), String>,
>(
    anchor: MlDsaAnchor,
    before: Mark,
    bytes: Seq<u8>,
    record: Body,
    saved: Result<Seq<u8>, Seq<char>>,
    persist: P,
    save: S,
    r: Result<String, String>,
    after: Mark,
)
    requires
        saved is Ok,
        decodes_to(bytes, Ok(record)),
        round_went(
            anchor,
            before,
            bytes,
            asked_of(ActionView::Verify, saved, None),
            persist,
            save,
            r,
            after,
        ),
        r is Ok,
    ensures
        asks_for(ActionView::Verify, saved) == Ok::<Option<(u8, Seq<u8>)>, Seq<char>>(None),
        authorized(anchor, record),
        exists|outcome: Outcome|
            {
                &&& #[trigger] mldsa_accepted(anchor, before, bytes, persist, outcome, after)
                &&& outcome !is Refused
                &&& Ok::<Seq<char>, Seq<char>>(r->Ok_0@) == verdict_of(
                    outcome,
                    None,
                    Some(saved->Ok_0),
                    None,
                    record.list,
                )
            },
{
    let asked = asked_of(ActionView::Verify, saved, None);
    let (outcome, list) = choose|outcome: Outcome, list: Seq<Seq<u8>>|
        {
            &&& #[trigger] mldsa_accepted(anchor, before, bytes, persist, outcome, after)
            &&& #[trigger] lists(bytes, list)
            &&& ended(
                verdict_of(outcome, asked.0, asked.1, asked.2, list),
                asked.0,
                asked.2,
                save,
                r,
            )
        };
    let read = choose|decoded: Result<Body, MlDsaStatusListError>|
        decodes_to(bytes, decoded) && list == #[trigger] list_in(decoded);
    assert(read == Ok::<Body, MlDsaStatusListError>(record));
    assert(mldsa_accepted(anchor, before, bytes, persist, outcome, after));
    let decoded = choose|decoded: Result<Body, MlDsaStatusListError>|
        decodes_to(bytes, decoded) && #[trigger] decoded_accepted(
            anchor,
            before,
            decoded,
            persist,
            outcome,
            after,
        );
    assert(decoded == Ok::<Body, MlDsaStatusListError>(record));
}

/// A trigger asks for what its bytes spell: issuing for the subject it names, or for the
/// configured one where it says `default`; revoking; or verifying. Every other action is
/// refused.
pub proof fn law_a_trigger_asks_for_what_it_spells(
    action: u8,
    data: Seq<u8>,
    subject: Seq<char>,
    configured: Seq<char>,
)
    ensures
        trigger_action(action_bytes(1, encode_utf8(subject)), configured) == Ok::<
            ActionView,
            Seq<char>,
        >(
            ActionView::Issue(
                if subject == "default"@ {
                    configured
                } else {
                    subject
                },
            ),
        ),
        !valid_utf8(data) ==> trigger_action(action_bytes(1, data), configured) == Err::<
            ActionView,
            Seq<char>,
        >("credential subject is not UTF-8"@),
        trigger_action(action_bytes(2, data), configured) == Ok::<ActionView, Seq<char>>(
            ActionView::Revoke,
        ),
        trigger_action(action_bytes(3, data), configured) == Ok::<ActionView, Seq<char>>(
            ActionView::Verify,
        ),
        !(1 <= action <= 3) ==> trigger_action(action_bytes(action, data), configured) == Err::<
            ActionView,
            Seq<char>,
        >("unknown status action "@ + decimal(action as nat)),
{
    let plain = encode_utf8(subject);
    vstd::utf8::encode_utf8_valid_utf8(subject);
    vstd::utf8::encode_utf8_decode_utf8(subject);
    lemma_asked(1, plain);
    lemma_asked(1, data);
    lemma_asked(2, data);
    lemma_asked(3, data);
    lemma_asked(action, data);
}

proof fn lemma_asked(action: u8, data: Seq<u8>)
    ensures
        ({
            let payload = action_bytes(action, data);
            &&& tail_framed(payload, 1)
            &&& payload[0] == action
            &&& tail(payload, 1) == data
        }),
{
    law_a_tail_is_read_back(seq![action], data);
    assert(action_bytes(action, data)[0] == action_bytes(action, data).subrange(0, 1)[0]);
}

/// A round asks an aggregator for what its action is: the subject's bytes when it issues,
/// the saved credential as it is when it revokes, and for nothing when it verifies. It
/// expects to see what it issued and not to see what it revoked.
pub proof fn law_a_round_asks_for_its_action(
    subject: Seq<char>,
    saved: Result<Seq<u8>, Seq<char>>,
    updated: StatusUpdated,
)
    ensures
        asks_for(ActionView::Issue(subject), saved) == Ok::<Option<(u8, Seq<u8>)>, Seq<char>>(
            Some((1u8, encode_utf8(subject))),
        ),
        saved is Ok ==> asks_for(ActionView::Revoke, saved) == Ok::<
            Option<(u8, Seq<u8>)>,
            Seq<char>,
        >(Some((2u8, saved->Ok_0))),
        saved is Err ==> asks_for(ActionView::Revoke, saved) == Err::<
            Option<(u8, Seq<u8>)>,
            Seq<char>,
        >("no issued credential is available: "@ + saved->Err_0),
        asks_for(ActionView::Verify, saved) == Ok::<Option<(u8, Seq<u8>)>, Seq<char>>(None),
        asked_of(ActionView::Issue(subject), saved, Some(updated)).0 == Some(
            (updated.version, updated.credential@),
        ),
        asked_of(ActionView::Issue(subject), saved, Some(updated)).2 == Some(true),
        asked_of(ActionView::Revoke, saved, Some(updated)).0 == Some(
            (updated.version, updated.credential@),
        ),
        asked_of(ActionView::Revoke, saved, Some(updated)).2 == Some(false),
        asked_of(ActionView::Verify, saved, None).0 is None,
        asked_of(ActionView::Verify, saved, None).1 == match saved {
            Ok(credential) => Some(credential),
            Err(_) => None,
        },
        asked_of(ActionView::Verify, saved, None).2 is None,
{
}

/// Whoever is asked is a member: the configured one where it is one, and without a setting
/// every member can be drawn.
pub proof fn law_every_member_can_be_asked(setting: Option<Seq<char>>, draw: u64, member: usize)
    ensures
        target_of(setting, draw) is Ok ==> target_of(setting, draw)->Ok_0 < N_MEMBERS,
        member < N_MEMBERS ==> target_of(Some(decimal(member as nat)), draw) == Ok::<
            usize,
            Seq<char>,
        >(member),
        member < N_MEMBERS ==> target_of(None, member as u64) == Ok::<usize, Seq<char>>(member),
        member >= N_MEMBERS ==> target_of(Some(decimal(member as nat)), draw) == Err::<
            usize,
            Seq<char>,
        >("member "@ + decimal(member as nat) + " is outside the committee"@),
        target_of(None, draw) is Ok,
{
    crate::text::lemma_parse_decimal(member as nat);
}

/// The update that an aggregator reports is read from its answer as it was sent.
pub proof fn law_a_reported_update_is_read_back(
    target: usize,
    version: u32,
    credential: Seq<u8>,
    payload: Vec<u8>,
    r: Result<StatusUpdated, String>,
)
    requires
        payload@ == versioned_bytes(version, credential),
        update_from(target, Ok((7u8, payload)), r),
    ensures
        r is Ok,
        r->Ok_0.version == version,
        r->Ok_0.credential@ == credential,
{
    law_a_versioned_message_is_read_back(version, credential);
}

/// An answer that is no update fails the round, with the reason it gives.
pub proof fn law_a_refusal_is_passed_on(
    target: usize,
    kind: u8,
    reason: Seq<char>,
    payload: Vec<u8>,
    r: Result<StatusUpdated, String>,
)
    requires
        kind != 7,
        payload@ == failure_bytes(reason),
        update_from(target, Ok((kind, payload)), r),
    ensures
        r is Err,
        r->Err_0@ == "aggregator "@ + decimal(target as nat) + " failed: "@ + reason,
{
    law_a_reason_is_read_back(reason);
}

/// A record that is authorized and newer is accepted whenever its mark can be kept, and
/// one that is no newer is stale.
pub proof fn law_an_authorized_newer_record_is_accepted<P: FnOnce(&str) -> Result<(), String>>(
    anchor: MlDsaAnchor,
    before: Mark,
    bytes: Seq<u8>,
    record: Body,
    persist: P,
    outcome: Outcome,
    after: Mark,
)
    requires
        decodes_to(bytes, Ok(record)),
        authorized(anchor, record),
        mldsa_accepted(anchor, before, bytes, persist, outcome, after),
        forall|line: &str, answer: Result<(), String>|
            #[trigger] call_ensures(persist, (line,), answer) ==> answer is Ok,
    ensures
        before.newest is None || before.newest->0 < record.version ==> outcome == (
        Outcome::Accepted { version: record.version }) && after.newest == Some(record.version),
        before.newest is Some && before.newest->0 >= record.version ==> outcome == (
        Outcome::Stale { version: record.version, mark: before.newest->0 }) && after == before,
        after.anchor == before.anchor,
{
    let decoded = choose|decoded: Result<Body, MlDsaStatusListError>|
        decodes_to(bytes, decoded) && #[trigger] decoded_accepted(
            anchor,
            before,
            decoded,
            persist,
            outcome,
            after,
        );
    assert(decoded == Ok::<Body, MlDsaStatusListError>(record));
}

/// An update is asked for from the chosen member alone, with the request that was given, and
/// what its answer reports is what comes of it; where no member could be chosen, the reason
/// is.
pub proof fn law_one_member_is_asked_for_the_update<
    S: FnOnce(usize, &[u8]) -> Result<(u8, Vec<u8>), String>,
>(
    target: Result<usize, Seq<char>>,
    request: Seq<u8>,
    send: S,
    r: Result<StatusUpdated, String>,
)
    requires
        update_asked(target, request, send, r),
    ensures
        target is Err ==> r is Err && r->Err_0@ == target->Err_0,
        target is Ok ==> exists|b: &[u8], answer: Result<(u8, Vec<u8>), String>|
            {
                &&& b@ == request
                &&& #[trigger] call_ensures(send, (target->Ok_0, b), answer)
                &&& update_from(target->Ok_0, answer, r)
            },
{
    if target is Ok {
        let answer = choose|answer: Result<(u8, Vec<u8>), String>|
            #[trigger] sent(send, target->Ok_0, request, answer) && update_from(
                target->Ok_0,
                answer,
                r,
            );
        let b = choose|b: &[u8]|
            b@ == request && #[trigger] call_ensures(send, (target->Ok_0, b), answer);
        assert(call_ensures(send, (target->Ok_0, b), answer));
    }
}

/// A trigger runs a round on the action it asks for, and the verdict of that round goes back
/// in one line.
pub proof fn law_a_trigger_is_answered_with_its_verdict<
    R: FnOnce(Action) -> Result<String, String>,
>(run: R, action: ActionView, reply: Reply)
    requires
        action_answered(run, action, reply),
    ensures
        exists|a: Action, verdict: Result<String, String>|
            {
                &&& a@ == action
                &&& #[trigger] call_ensures(run, (a,), verdict)
                &&& verdict is Ok ==> reply.kind == 9 && failure_text(reply.payload@)
                    == verdict->Ok_0@
                &&& verdict is Err ==> reply.kind == 5 && failure_text(reply.payload@)
                    == verdict->Err_0@
            },
{
    let verdict = choose|verdict: Result<String, String>|
        #[trigger] round_run(run, action, verdict) && verdict_answered(verdict, reply);
    let a = choose|a: Action| a@ == action && #[trigger] call_ensures(run, (a,), verdict);
    assert(call_ensures(run, (a,), verdict));
    match verdict {
        Ok(summary) => {
            law_a_reason_is_read_back(summary@);
        },
        Err(reason) => {
            law_a_reason_is_read_back(reason@);
        },
    }
}

/// A round ends with its verdict. Only where it issued a credential, and the verdict is good,
/// is that very credential saved, and a failure to save it fails the round.
pub proof fn law_an_issued_credential_is_saved_as_reported<S: FnOnce(&[u8]) -> Result<(), String>>(
    verdict: Result<Seq<char>, Seq<char>>,
    updated: Option<(u32, Seq<u8>)>,
    expected: Option<bool>,
    save: S,
    r: Result<String, String>,
)
    requires
        ended(verdict, updated, expected, save, r),
    ensures
        verdict is Err ==> r is Err && r->Err_0@ == verdict->Err_0,
        verdict is Ok && (expected != Some(true) || updated is None) ==> r is Ok && r->Ok_0@
            == verdict->Ok_0,
        verdict is Ok && expected == Some(true) && updated is Some ==> exists|
            b: &[u8],
            answer: Result<(), String>,
        |
            {
                &&& b@ == (updated->0).1
                &&& #[trigger] call_ensures(save, (b,), answer)
                &&& answer is Ok ==> r is Ok && r->Ok_0@ == verdict->Ok_0
                &&& answer is Err ==> r is Err && r->Err_0@ == "cannot save credential: "@
                    + answer->Err_0@
            },
{
    if verdict is Ok && expected == Some(true) && updated is Some {
        let credential = (updated->0).1;
        let answer = choose|answer: Result<(), String>|
            #[trigger] save_asked(save, credential, answer) && match answer {
                Ok(_) => r is Ok && r->Ok_0@ == verdict->Ok_0,
                Err(why) => r is Err && r->Err_0@ == "cannot save credential: "@ + why@,
            };
        let b = choose|b: &[u8]| b@ == credential && #[trigger] call_ensures(save, (b,), answer);
        assert(call_ensures(save, (b,), answer));
    }
}

/// A round on a record that decodes takes its verdict from that record: from the outcome of
/// offering it and from its own list. Without a published record it fails and the mark stays.
pub proof fn law_a_round_looks_at_what_was_fetched<
    F: FnOnce() -> Option<Vec<u8>>,
    P: FnOnce(&str) -> Result<(), String>,
    S: FnOnce(&[u8]) -> Result<(), String>,
>(
    anchor: MlDsaAnchor,
    before: Mark,
    fetch: F,
    asked: (Option<(u32, Seq<u8>)>, Option<Seq<u8>>, Option<bool>),
    persist: P,
    save: S,
    r: Result<String, String>,
    after: Mark,
)
    requires
        fetched_round_went(anchor, before, fetch, asked, persist, save, r, after),
    ensures
        exists|current: Option<Vec<u8>>|
            {
                &&& #[trigger] call_ensures(fetch, (), current)
                &&& current is None ==> r is Err && r->Err_0@ == "nothing is published"@ && after
                    == before
                &&& current is Some ==> round_went(
                    anchor,
                    before,
                    (current->0)@,
                    asked,
                    persist,
                    save,
                    r,
                    after,
                )
            },
{
}

/// A round on a record that decodes is decided by the outcome of offering that record and by
/// the record's own list, whatever was asked.
pub proof fn law_a_round_is_decided_by_its_record<
    P: FnOnce(&str) -> Result<(), String>,
    S: FnOnce(&[u8]) -> Result<(), String>,
>(
    anchor: MlDsaAnchor,
    before: Mark,
    bytes: Seq<u8>,
    record: Body,
    asked: (Option<(u32, Seq<u8>)>, Option<Seq<u8>>, Option<bool>),
    persist: P,
    save: S,
    r: Result<String, String>,
    after: Mark,
)
    requires
        decodes_to(bytes, Ok(record)),
        round_went(anchor, before, bytes, asked, persist, save, r, after),
    ensures
        exists|outcome: Outcome|
            {
                &&& #[trigger] mldsa_accepted(anchor, before, bytes, persist, outcome, after)
                &&& ended(
                    verdict_of(outcome, asked.0, asked.1, asked.2, record.list),
                    asked.0,
                    asked.2,
                    save,
                    r,
                )
            },
{
    let (outcome, list) = choose|outcome: Outcome, list: Seq<Seq<u8>>|
        {
            &&& #[trigger] mldsa_accepted(anchor, before, bytes, persist, outcome, after)
            &&& #[trigger] lists(bytes, list)
            &&& ended(
                verdict_of(outcome, asked.0, asked.1, asked.2, list),
                asked.0,
                asked.2,
                save,
                r,
            )
        };
    let read = choose|decoded: Result<Body, MlDsaStatusListError>|
        decodes_to(bytes, decoded) && list == #[trigger] list_in(decoded);
    assert(read == Ok::<Body, MlDsaStatusListError>(record));
    assert(mldsa_accepted(anchor, before, bytes, persist, outcome, after));
}

/// Bytes that are no record, and a record that is not authorized, are refused and move
/// nothing.
pub proof fn law_what_is_not_authorized_is_refused<P: FnOnce(&str) -> Result<(), String>>(
    anchor: MlDsaAnchor,
    before: Mark,
    bytes: Seq<u8>,
    persist: P,
    outcome: Outcome,
    after: Mark,
)
    requires
        mldsa_accepted(anchor, before, bytes, persist, outcome, after),
        forall|record: Body| #[trigger] decodes_to(bytes, Ok(record)) ==> !authorized(anchor, record),
    ensures
        outcome == Outcome::Refused,
        after == before,
{
    let decoded = choose|decoded: Result<Body, MlDsaStatusListError>|
        decodes_to(bytes, decoded) && #[trigger] decoded_accepted(
            anchor,
            before,
            decoded,
            persist,
            outcome,
            after,
        );
    if decoded is Ok {
        assert(decodes_to(bytes, Ok(decoded->Ok_0)));
    }
}

/// A credential may be saved only in a round that issued it, as it was reported, once the
/// record verified at the reported version and shows its fingerprint.
pub proof fn law_only_a_shown_credential_may_be_saved<P: FnOnce(&str) -> Result<(), String>>(
    anchor: MlDsaAnchor,
    before: Mark,
    bytes: Seq<u8>,
    record: Body,
    asked: (Option<(u32, Seq<u8>)>, Option<Seq<u8>>, Option<bool>),
    persist: P,
    credential: Seq<u8>,
)
    requires
        decodes_to(bytes, Ok(record)),
        may_save(anchor, before, bytes, asked, persist, credential),
    ensures
        asked.2 == Some(true),
        asked.0 is Some,
        (asked.0->0).1 == credential,
        (asked.0->0).0 == record.version,
        authorized(anchor, record),
        record.list.contains(sha3_256(credential)),
{
    let (outcome, list, after) = choose|outcome: Outcome, list: Seq<Seq<u8>>, after: Mark|
        {
            &&& #[trigger] mldsa_accepted(anchor, before, bytes, persist, outcome, after)
            &&& #[trigger] lists(bytes, list)
            &&& verdict_of(outcome, asked.0, asked.1, asked.2, list) is Ok
        };
    let read = choose|decoded: Result<Body, MlDsaStatusListError>|
        decodes_to(bytes, decoded) && list == #[trigger] list_in(decoded);
    assert(read == Ok::<Body, MlDsaStatusListError>(record));
    let decoded = choose|decoded: Result<Body, MlDsaStatusListError>|
        decodes_to(bytes, decoded) && #[trigger] decoded_accepted(
            anchor,
            before,
            decoded,
            persist,
            outcome,
            after,
        );
    assert(decoded == Ok::<Body, MlDsaStatusListError>(record));
}

/// A trigger that was written is read as what it was written for: `round` issues for its
/// subject, `revoke` revokes and `verify` verifies, and nothing else is written.
pub proof fn law_a_written_trigger_is_read(
    kind: &str,
    subject: &str,
    configured: &str,
    written: Option<Vec<u8>>,
    payload: &[u8],
    read: Result<Action, String>,
)
    requires
        call_ensures(trigger_payload, (kind, subject), written),
        written is Some ==> payload@ == (written->0)@,
        call_ensures(action_of, (payload, configured), read),
    ensures
        kind@ == "round"@ && subject@ != "default"@ ==> written is Some && read is Ok
            && read->Ok_0@ == ActionView::Issue(subject@),
        kind@ == "revoke"@ ==> written is Some && read is Ok && read->Ok_0@ == ActionView::Revoke,
        kind@ == "verify"@ ==> written is Some && read is Ok && read->Ok_0@ == ActionView::Verify,
        written is Some <==> kind@ == "round"@ || kind@ == "revoke"@ || kind@ == "verify"@,
{
    reveal_strlit("round");
    reveal_strlit("revoke");
    reveal_strlit("verify");
    assert("round"@.len() == 5 && "revoke"@.len() == 6 && "verify"@.len() == 6);
    assert("revoke"@[0] == 'r' && "verify"@[0] == 'v');
    law_a_trigger_asks_for_what_it_spells(0, Seq::empty(), subject@, configured@);
}

} // verus!

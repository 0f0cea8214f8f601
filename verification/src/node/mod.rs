//! Long-lived roles that act on the protocol objects.
use crate::state::freshness::{
    is_newer, law_the_mark_survives_a_restart, read_mark, Decision, HighWaterMark, Mark,
    MarkStateError,
};
use crate::text::{decimal, hex_text};
use vstd::prelude::*;
use vstd::string::*;
use vstd::utf8::encode_utf8;

pub mod raw_node;
pub mod raw_verifier;
pub mod signer;
pub mod snark_node;
pub mod snark_prover;
pub mod snark_verifier;

verus! {

/// What a relying party did with a record it was handed. "These signatures are
/// good" and "this is worth acting on" are different answers, and a caller that
/// cannot tell them apart will eventually treat a replay as an update.
#[derive(Clone, Copy, PartialEq, Eq, Structural, Debug)]
pub enum Outcome {
    /// Authenticated under the anchor and strictly newer than anything accepted
    /// before. The mark advanced and was durable before.
    Accepted { version: u32 },
    /// Authenticated, but not newer than `mark`. Nothing moved.
    Stale { version: u32, mark: u32 },
    /// It did not decode, did not verify under this anchor, or could not be
    /// recorded. Nothing moved. The version it claimed is not reported.
    Refused,
}

impl Outcome {
    /// The version, if this record was accepted.
    pub fn accepted(self) -> (version: Option<u32>)
        ensures
            version == match self {
                Outcome::Accepted { version } => Some(version),
                _ => None,
            },
    {
        match self {
            Outcome::Accepted { version } => Some(version),
            _ => None,
        }
    }

    /// Offers a version that was already authenticated to the mark. This is the one
    /// place where a mark moves. `persist` makes a line durable and says whether
    /// that succeeded; it is called for a newer version only, and only with the line
    /// of the mark moved to it.
    pub(crate) fn advance<P: FnOnce(&str) -> Result<(), String>>(
        mark: &mut HighWaterMark,
        version: u32,
        persist: P,
    ) -> (outcome: Outcome)
        requires
            forall|line: &str|
                may_store(old(mark)@, version, line@) ==> #[trigger] call_requires(
                    persist,
                    (line,),
                ),
        ensures
            advanced(old(mark)@, version, persist, outcome, final(mark)@),
    {
        match mark.pending_line(version) {
            None => match mark.try_advance(version, Ok(())) {
                Ok(Decision::Stale(newest)) => Outcome::Stale { version, mark: newest },
                _ => Outcome::Refused,
            },
            Some(line) => {
                let stored = persist(line.as_str());
                match mark.try_advance(version, stored) {
                    Ok(Decision::Accepted) => Outcome::Accepted { version },
                    _ => Outcome::Refused,
                }
            },
        }
    }
}

/// Whether `persist` was asked to store `line` and answered with success or not.
pub open spec fn stored<P: FnOnce(&str) -> Result<(), String>>(
    persist: P,
    line: Seq<char>,
    success: bool,
) -> bool {
    exists|text: &str, answer: Result<(), String>|
        text@ == line && answer is Ok == success && #[trigger] call_ensures(
            persist,
            (text,),
            answer,
        )
}

/// Whether offering a version may make `line` durable: the version is newer than the
/// mark, and the line is that of the mark moved to it.
pub open spec fn may_store(before: Mark, version: u32, line: Seq<char>) -> bool {
    &&& is_newer(before.newest, version)
    &&& line == (Mark { anchor: before.anchor, newest: Some(version) }).line()
}

/// The durable mark never goes back: what may be stored is read back after a restart as
/// the mark at the version that was offered, which is newer than the mark before.
pub proof fn law_a_stored_line_moves_the_mark_forward(
    before: Mark,
    version: u32,
    line: Seq<char>,
)
    requires
        before.anchor.len() == 32,
        may_store(before, version, line),
    ensures
        read_mark(encode_utf8(line), before.anchor) == Ok::<Option<u32>, MarkStateError>(
            Some(version),
        ),
        is_newer(before.newest, version),
        forall|v: u32| !is_newer(before.newest, v) ==> !#[trigger] is_newer(Some(version), v),
{
    law_the_mark_survives_a_restart(Mark { anchor: before.anchor, newest: Some(version) });
}

/// What offering an authenticated version does: it is stale, or it is stored
/// first and then accepted, or it could not be stored and nothing moved.
pub open spec fn advanced<P: FnOnce(&str) -> Result<(), String>>(
    before: Mark,
    version: u32,
    persist: P,
    outcome: Outcome,
    after: Mark,
) -> bool {
    let next = Mark { anchor: before.anchor, newest: Some(version) };
    if !is_newer(before.newest, version) {
        outcome == (Outcome::Stale { version, mark: before.newest->0 }) && after == before
    } else {
        ||| outcome == (Outcome::Accepted { version }) && after == next && stored(
            persist,
            next.line(),
            true,
        )
        ||| outcome == Outcome::Refused && after == before && stored(persist, next.line(), false)
    }
}

/// Offering an authenticated version: one that is not higher than the mark is stale and
/// moves nothing. A higher one asks for exactly one line, with the anchor's fingerprint and
/// the version, to be stored; where that succeeds it is accepted and is the mark, and where
/// it fails it is refused and nothing moves.
pub proof fn law_an_offer_is_decided_by_the_mark_and_the_disk<P: FnOnce(&str) -> Result<(), String>>(
    before: Mark,
    version: u32,
    persist: P,
    outcome: Outcome,
    after: Mark,
)
    requires
        advanced(before, version, persist, outcome, after),
    ensures
        after.anchor == before.anchor,
        before.newest is Some && version <= before.newest->0 ==> outcome == (Outcome::Stale {
            version,
            mark: before.newest->0,
        }) && after.newest == before.newest,
        before.newest is None || version > before.newest->0 ==> exists|
            line: &str,
            answer: Result<(), String>,
        |
            {
                &&& #[trigger] call_ensures(persist, (line,), answer)
                &&& line@ == hex_text(before.anchor) + " "@ + decimal(version as nat) + "\n"@
                &&& answer is Ok ==> outcome == (Outcome::Accepted { version }) && after.newest
                    == Some(version)
                &&& answer is Err ==> outcome == Outcome::Refused && after.newest == before.newest
            },
{
    let next = Mark { anchor: before.anchor, newest: Some(version) };
    if before.newest is None || version > before.newest->0 {
        let success = outcome is Accepted;
        assert(stored(persist, next.line(), success));
        let (line, answer) = choose|line: &str, answer: Result<(), String>|
            line@ == next.line() && answer is Ok == success && #[trigger] call_ensures(
                persist,
                (line,),
                answer,
            );
        assert(call_ensures(persist, (line,), answer));
    }
}

/// What may be made durable for a version is the one line that names the anchor's
/// fingerprint and that version, and only where the version is higher than the mark.
pub proof fn law_one_line_may_be_stored_for_a_higher_version(
    before: Mark,
    version: u32,
    line: Seq<char>,
)
    ensures
        may_store(before, version, line) <==> {
            &&& before.newest is None || version > before.newest->0
            &&& line == hex_text(before.anchor) + " "@ + decimal(version as nat) + "\n"@
        },
{
}

} // verus!

//! Raw-path relying party: anchor verification plus a durable freshness mark.
//!
//! Records are verified before their version can advance the mark, so that a peer
//! cannot pin the node to a forged high version.
use crate::node::raw_verifier::{confirmed, refuted, SignatureCheck, VerifierNode};
use crate::node::{
    advanced, law_a_stored_line_moves_the_mark_forward,
    law_one_line_may_be_stored_for_a_higher_version, may_store, Outcome,
};
use crate::protocol::committee::{Anchor, Committee};
use crate::protocol::status_list::{decode_raw, RawRecord, StatusList, StatusListError};
use crate::state::freshness::{is_newer, read_mark, HighWaterMark, Mark, MarkStateError};
use crate::text::{decimal, hex_text};
use vstd::prelude::*;
use vstd::string::*;
use vstd::utf8::encode_utf8;

verus! {

/// What handing bytes to a raw node does: without a record that decodes and is
/// confirmed under the anchor nothing moves; otherwise its version is offered to
/// the mark.
pub open spec fn raw_accepted<
    V: Fn(&SignatureCheck) -> bool,
    P: FnOnce(&str) -> Result<(), String>,
>(
    anchor: Anchor,
    before: Mark,
    bytes: Seq<u8>,
    verify: V,
    persist: P,
    outcome: Outcome,
    after: Mark,
) -> bool {
    match decode_raw(bytes) {
        Err(_) => outcome == Outcome::Refused && after == before,
        Ok(record) => {
            ||| refuted(anchor, record, verify) && outcome == Outcome::Refused && after == before
            ||| confirmed(anchor, record, verify) && advanced(
                before,
                record.version,
                persist,
                outcome,
                after,
            )
        },
    }
}

/// Whether handing bytes to a raw node may make `line` durable: they are a record that
/// is confirmed under the anchor, and the line moves the mark to its newer version.
pub open spec fn may_persist<V: Fn(&SignatureCheck) -> bool>(
    anchor: Anchor,
    before: Mark,
    bytes: Seq<u8>,
    verify: V,
    line: Seq<char>,
) -> bool {
    &&& decode_raw(bytes) is Ok
    &&& confirmed(anchor, decode_raw(bytes)->Ok_0, verify)
    &&& may_store(before, decode_raw(bytes)->Ok_0.version, line)
}

/// A relying party for raw records.
#[derive(Debug)]
pub struct RawNode {
    verifier: VerifierNode,
    mark: HighWaterMark,
}

impl RawNode {
    /// The anchor the node verifies against.
    pub closed spec fn anchor(self) -> Anchor {
        self.verifier@
    }

    /// The mark the node keeps.
    pub closed spec fn gate(self) -> Mark {
        self.mark@
    }

    /// Builds a node from its anchor and a mark that belongs to it.
    pub fn new(committee: Committee, mark: HighWaterMark) -> (node: RawNode)
        ensures
            node.anchor() == committee@,
            node.gate() == mark@,
    {
        RawNode { verifier: VerifierNode::new(committee), mark }
    }

    pub fn committee(&self) -> (committee: &Committee)
        ensures
            committee@ == self.anchor(),
    {
        self.verifier.get_committee()
    }

    /// The stateless predicate underneath.
    pub fn predicate(&self) -> (predicate: &VerifierNode)
        ensures
            predicate@ == self.anchor(),
    {
        &self.verifier
    }

    /// The highest accepted version, if any.
    pub fn high_water(&self) -> (newest: Option<u32>)
        ensures
            newest == self.gate().newest,
    {
        self.mark.current()
    }

    /// Decode, verify, and only then offer the version to the mark: nothing is made
    /// durable for a record that is not confirmed or not newer.
    pub fn accept<V: Fn(&SignatureCheck) -> bool, P: FnOnce(&str) -> Result<(), String>>(
        &mut self,
        bytes: &[u8],
        xmss_verify: V,
        persist: P,
    ) -> (outcome: Outcome)
        requires
            forall|c: &SignatureCheck| call_requires(xmss_verify, (c,)),
            forall|line: &str|
                may_persist(
                    old(self).anchor(),
                    old(self).gate(),
                    bytes@,
                    xmss_verify,
                    line@,
                ) ==> #[trigger] call_requires(persist, (line,)),
        ensures
            final(self).anchor() == old(self).anchor(),
            raw_accepted(
                old(self).anchor(),
                old(self).gate(),
                bytes@,
                xmss_verify,
                persist,
                outcome,
                final(self).gate(),
            ),
    {
        let record = match StatusList::from_bytes(bytes) {
            Ok(record) => record,
            Err(_) => {
                return Outcome::Refused;
            },
        };
        if !self.verifier.verify_status_list(&record, xmss_verify) {
            return Outcome::Refused;
        }
        Outcome::advance(&mut self.mark, record.version(), persist)
    }
}

/// The same bytes are never accepted twice: once they were, they are stale.
pub proof fn law_a_replay_is_stale<
    V: Fn(&SignatureCheck) -> bool,
    P: FnOnce(&str) -> Result<(), String>,
    W: Fn(&SignatureCheck) -> bool,
    Q: FnOnce(&str) -> Result<(), String>,
>(
    anchor: Anchor,
    marks: (Mark, Mark, Mark),
    bytes: Seq<u8>,
    first: (V, P, Outcome),
    second: (W, Q, Outcome),
)
    requires
        raw_accepted(anchor, marks.0, bytes, first.0, first.1, first.2, marks.1),
        raw_accepted(anchor, marks.1, bytes, second.0, second.1, second.2, marks.2),
        first.2 is Accepted,
    ensures
        second.2 !is Accepted,
        marks.2 == marks.1,
{
}

/// A mark moves only by a record that decodes and whose every signature was
/// confirmed, and then to that record's version.
pub proof fn law_only_a_confirmed_record_moves_the_mark<
    V: Fn(&SignatureCheck) -> bool,
    P: FnOnce(&str) -> Result<(), String>,
>(
    anchor: Anchor,
    before: Mark,
    bytes: Seq<u8>,
    verify: V,
    persist: P,
    outcome: Outcome,
    after: Mark,
)
    requires
        raw_accepted(anchor, before, bytes, verify, persist, outcome, after),
        after != before,
    ensures
        decode_raw(bytes) is Ok,
        confirmed(anchor, decode_raw(bytes)->Ok_0, verify),
        after.newest == Some(decode_raw(bytes)->Ok_0.version),
        outcome == (Outcome::Accepted { version: decode_raw(bytes)->Ok_0.version }),
{
}

/// A durable mark moves only by a record that decodes and whose every signature was
/// confirmed: after a restart it stands at that record's version, which is newer.
pub proof fn law_only_a_confirmed_record_is_made_durable<V: Fn(&SignatureCheck) -> bool>(
    anchor: Anchor,
    before: Mark,
    bytes: Seq<u8>,
    verify: V,
    line: Seq<char>,
)
    requires
        before.anchor.len() == 32,
        may_persist(anchor, before, bytes, verify, line),
    ensures
        decode_raw(bytes) is Ok,
        confirmed(anchor, decode_raw(bytes)->Ok_0, verify),
        is_newer(before.newest, decode_raw(bytes)->Ok_0.version),
        read_mark(encode_utf8(line), before.anchor) == Ok::<Option<u32>, MarkStateError>(
            Some(decode_raw(bytes)->Ok_0.version),
        ),
{
    law_a_stored_line_moves_the_mark_forward(before, decode_raw(bytes)->Ok_0.version, line);
}

/// A record that decodes and that the check does not refute is accepted when its version is
/// higher than the mark and the mark can be stored, and is stale when it is not higher.
/// Bytes that are no record, and a record that the check does not confirm, are refused and
/// move nothing.
pub proof fn law_every_confirmed_newer_record_is_accepted<
    V: Fn(&SignatureCheck) -> bool,
    P: FnOnce(&str) -> Result<(), String>,
>(
    anchor: Anchor,
    before: Mark,
    bytes: Seq<u8>,
    verify: V,
    persist: P,
    outcome: Outcome,
    after: Mark,
)
    requires
        raw_accepted(anchor, before, bytes, verify, persist, outcome, after),
        forall|line: &str, answer: Result<(), String>|
            #[trigger] call_ensures(persist, (line,), answer) ==> answer is Ok,
    ensures
        after.anchor == before.anchor,
        decode_raw(bytes) is Err ==> outcome == Outcome::Refused && after == before,
        decode_raw(bytes) is Ok && !confirmed(anchor, decode_raw(bytes)->Ok_0, verify) ==> outcome
            == Outcome::Refused && after == before,
        decode_raw(bytes) is Ok && !refuted(anchor, decode_raw(bytes)->Ok_0, verify) ==> {
            let version = decode_raw(bytes)->Ok_0.version;
            if before.newest is None || version > before.newest->0 {
                outcome == (Outcome::Accepted { version }) && after.newest == Some(version)
            } else {
                outcome == (Outcome::Stale { version, mark: before.newest->0 }) && after == before
            }
        },
{
}

/// What a raw node may store is the one line for a record that decodes and is confirmed,
/// and only when its version is higher than the mark.
pub proof fn law_a_confirmed_newer_record_may_be_stored<V: Fn(&SignatureCheck) -> bool>(
    anchor: Anchor,
    before: Mark,
    bytes: Seq<u8>,
    verify: V,
    record: RawRecord,
    line: Seq<char>,
)
    requires
        decode_raw(bytes) == Ok::<RawRecord, StatusListError>(record),
    ensures
        may_persist(anchor, before, bytes, verify, line) <==> {
            &&& confirmed(anchor, record, verify)
            &&& before.newest is None || record.version > before.newest->0
            &&& line == hex_text(before.anchor) + " "@ + decimal(record.version as nat) + "\n"@
        },
{
    law_one_line_may_be_stored_for_a_higher_version(before, record.version, line);
}

} // verus!

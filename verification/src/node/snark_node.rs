//! SNARK-path relying party: the composition of the raw node over the other
//! published form.
use crate::node::snark_verifier::{
    chosen_at, claims_hold, disproven, may_check, may_decode, proven, selected, Aggregate,
    PQSNARKVerifierModule,
};
use crate::node::{
    advanced, law_a_stored_line_moves_the_mark_forward,
    law_one_line_may_be_stored_for_a_higher_version, may_store, Outcome,
};
use crate::protocol::committee::{Anchor, Committee};
use crate::protocol::status_list::{
    decode_snark, SnarkRecord, SnarkStatusList, StatusListError,
};
use crate::state::freshness::{is_newer, read_mark, HighWaterMark, Mark, MarkStateError};
use crate::text::{decimal, hex_text};
use vstd::prelude::*;
use vstd::string::*;
use vstd::utf8::encode_utf8;

verus! {

/// What handing bytes to a SNARK node does: without a record that decodes and is
/// proven under the anchor nothing moves; otherwise its version is offered to the
/// mark.
pub open spec fn snark_accepted<
    D: Fn(&[u8]) -> Option<Aggregate>,
    C: Fn(&[u8]) -> bool,
    P: FnOnce(&str) -> Result<(), String>,
>(
    anchor: Anchor,
    before: Mark,
    bytes: Seq<u8>,
    decode: D,
    check: C,
    persist: P,
    outcome: Outcome,
    after: Mark,
) -> bool {
    match decode_snark(bytes) {
        Err(_) => outcome == Outcome::Refused && after == before,
        Ok(record) => {
            ||| disproven(anchor, record, decode, check) && outcome == Outcome::Refused && after
                == before
            ||| proven(anchor, record, decode, check) && advanced(
                before,
                record.version,
                persist,
                outcome,
                after,
            )
        },
    }
}

/// Whether handing bytes to a SNARK node may make `line` durable: they are a record that
/// is proven under the anchor, and the line moves the mark to its newer version.
pub open spec fn may_persist<D: Fn(&[u8]) -> Option<Aggregate>, C: Fn(&[u8]) -> bool>(
    anchor: Anchor,
    before: Mark,
    bytes: Seq<u8>,
    decode: D,
    check: C,
    line: Seq<char>,
) -> bool {
    &&& decode_snark(bytes) is Ok
    &&& proven(anchor, decode_snark(bytes)->Ok_0, decode, check)
    &&& may_store(before, decode_snark(bytes)->Ok_0.version, line)
}

/// Whether handing candidates to a SNARK node may make `line` durable: it moves the mark
/// to the version of the one that is selected above it.
pub open spec fn may_persist_best<D: Fn(&[u8]) -> Option<Aggregate>, C: Fn(&[u8]) -> bool>(
    anchor: Anchor,
    before: Mark,
    candidates: Seq<Vec<u8>>,
    decode: D,
    check: C,
    line: Seq<char>,
) -> bool {
    exists|record: SnarkRecord|
        #[trigger] selected(anchor, candidates, before.newest, decode, check, Some(record))
            && may_store(before, record.version, line)
}

/// A relying party for SNARK records.
#[derive(Debug)]
pub struct SnarkNode {
    module: PQSNARKVerifierModule,
    mark: HighWaterMark,
}

impl SnarkNode {
    /// The anchor the node verifies against.
    pub closed spec fn anchor(self) -> Anchor {
        self.module@
    }

    /// The mark the node keeps.
    pub closed spec fn gate(self) -> Mark {
        self.mark@
    }

    /// Builds a node from its anchor and a mark that belongs to it.
    pub fn new(committee: Committee, mark: HighWaterMark) -> (node: SnarkNode)
        ensures
            node.anchor() == committee@,
            node.gate() == mark@,
            node.seeded() == match mark@.newest {
                Some(version) => version,
                None => 0,
            },
    {
        let last: u32 = match mark.current() {
            Some(version) => version,
            None => 0,
        };
        SnarkNode { module: PQSNARKVerifierModule::new(committee, last), mark }
    }

    pub fn committee(&self) -> (committee: &Committee)
        ensures
            committee@ == self.anchor(),
    {
        self.module.committee_as_ref()
    }

    /// The predicate on its own, for a caller that wants to check a record without
    /// offering it to the mark.
    pub fn predicate(&self) -> (module: &PQSNARKVerifierModule)
        ensures
            module@ == self.anchor(),
            module.last_version() == self.seeded(),
    {
        &self.module
    }

    /// The version the predicate was seeded with.
    pub closed spec fn seeded(self) -> u32 {
        self.module.last_version()
    }

    /// The highest version accepted so far, if any.
    pub fn high_water(&self) -> (newest: Option<u32>)
        ensures
            newest == self.gate().newest,
    {
        self.mark.current()
    }

    /// Decode, verify the proof, and only then offer the version to the mark: nothing is
    /// made durable for a record that is not proven or not newer.
    pub fn accept<
        D: Fn(&[u8]) -> Option<Aggregate>,
        C: Fn(&[u8]) -> bool,
        P: FnOnce(&str) -> Result<(), String>,
    >(&mut self, bytes: &[u8], decode: &D, check: &C, persist: P) -> (outcome: Outcome)
        requires
            forall|b: &[u8]|
                decode_snark(bytes@) is Ok && b@ == decode_snark(bytes@)->Ok_0.proof
                    ==> #[trigger] call_requires(*decode, (b,)),
            forall|b: &[u8]|
                decode_snark(bytes@) is Ok && b@ == decode_snark(bytes@)->Ok_0.proof && claims_hold(
                    old(self).anchor(),
                    decode_snark(bytes@)->Ok_0,
                    *decode,
                ) ==> #[trigger] call_requires(*check, (b,)),
            forall|line: &str|
                may_persist(
                    old(self).anchor(),
                    old(self).gate(),
                    bytes@,
                    *decode,
                    *check,
                    line@,
                ) ==> #[trigger] call_requires(persist, (line,)),
        ensures
            final(self).anchor() == old(self).anchor(),
            final(self).seeded() == old(self).seeded(),
            snark_accepted(
                old(self).anchor(),
                old(self).gate(),
                bytes@,
                *decode,
                *check,
                persist,
                outcome,
                final(self).gate(),
            ),
    {
        let record = match SnarkStatusList::from_bytes(bytes) {
            Ok(record) => record,
            Err(_) => {
                return Outcome::Refused;
            },
        };
        if !self.module.verify(&record, decode, check) {
            return Outcome::Refused;
        }
        Outcome::advance(&mut self.mark, record.version(), persist)
    }

    /// Takes the freshest candidate that verifies, out of what several peers
    /// returned. Candidates at or below the mark are dropped before a proof is
    /// checked.
    pub fn accept_best<
        D: Fn(&[u8]) -> Option<Aggregate>,
        C: Fn(&[u8]) -> bool,
        P: FnOnce(&str) -> Result<(), String>,
    >(&mut self, candidates: &[Vec<u8>], decode: &D, check: &C, persist: P) -> (outcome: Outcome)
        requires
            forall|b: &[u8]|
                may_decode(candidates@, old(self).gate().newest, b@) ==> #[trigger] call_requires(
                    *decode,
                    (b,),
                ),
            forall|b: &[u8]|
                may_check(
                    old(self).anchor(),
                    candidates@,
                    old(self).gate().newest,
                    *decode,
                    b@,
                ) ==> #[trigger] call_requires(*check, (b,)),
            forall|line: &str|
                may_persist_best(
                    old(self).anchor(),
                    old(self).gate(),
                    candidates@,
                    *decode,
                    *check,
                    line@,
                ) ==> #[trigger] call_requires(persist, (line,)),
        ensures
            final(self).anchor() == old(self).anchor(),
            final(self).seeded() == old(self).seeded(),
            exists|best: Option<SnarkRecord>|
                {
                    &&& #[trigger] selected(
                        old(self).anchor(),
                        candidates@,
                        old(self).gate().newest,
                        *decode,
                        *check,
                        best,
                    )
                    &&& match best {
                        None => outcome == Outcome::Refused && final(self).gate() == old(
                            self,
                        ).gate(),
                        Some(record) => advanced(
                            old(self).gate(),
                            record.version,
                            persist,
                            outcome,
                            final(self).gate(),
                        ),
                    }
                },
    {
        let floor = self.mark.current();
        let best = self.module.select_freshest_above(candidates, floor, decode, check);
        assert(selected(
            old(self).anchor(),
            candidates@,
            old(self).gate().newest,
            *decode,
            *check,
            crate::node::snark_verifier::record_view(best),
        ));
        match best {
            None => Outcome::Refused,
            Some(record) => Outcome::advance(&mut self.mark, record.version(), persist),
        }
    }
}

/// What selection above the mark gives is never stale.
pub proof fn law_the_best_candidate_is_never_stale<
    D: Fn(&[u8]) -> Option<Aggregate>,
    C: Fn(&[u8]) -> bool,
    P: FnOnce(&str) -> Result<(), String>,
>(
    anchor: Anchor,
    candidates: Seq<Vec<u8>>,
    before: Mark,
    decode: D,
    check: C,
    record: SnarkRecord,
    persist: P,
    outcome: Outcome,
    after: Mark,
)
    requires
        selected(anchor, candidates, before.newest, decode, check, Some(record)),
        advanced(before, record.version, persist, outcome, after),
    ensures
        outcome !is Stale,
        proven(anchor, record, decode, check),
{
    let j = choose|j: int|
        #[trigger] chosen_at(anchor, candidates, before.newest, decode, check, j, record);
    assert(chosen_at(anchor, candidates, before.newest, decode, check, j, record));
    assert(is_newer(before.newest, record.version));
}

/// The same bytes are never accepted twice: once they were, they are stale.
pub proof fn law_a_replay_is_stale<
    D: Fn(&[u8]) -> Option<Aggregate>,
    C: Fn(&[u8]) -> bool,
    P: FnOnce(&str) -> Result<(), String>,
    E: Fn(&[u8]) -> Option<Aggregate>,
    F: Fn(&[u8]) -> bool,
    Q: FnOnce(&str) -> Result<(), String>,
>(
    anchor: Anchor,
    marks: (Mark, Mark, Mark),
    bytes: Seq<u8>,
    first: (D, C, P, Outcome),
    second: (E, F, Q, Outcome),
)
    requires
        snark_accepted(anchor, marks.0, bytes, first.0, first.1, first.2, first.3, marks.1),
        snark_accepted(anchor, marks.1, bytes, second.0, second.1, second.2, second.3, marks.2),
        first.3 is Accepted,
    ensures
        second.3 !is Accepted,
        marks.2 == marks.1,
{
}

/// A mark moves only by a record that decodes and whose aggregate was proven, and then
/// to that record's version.
pub proof fn law_only_a_proven_record_moves_the_mark<
    D: Fn(&[u8]) -> Option<Aggregate>,
    C: Fn(&[u8]) -> bool,
    P: FnOnce(&str) -> Result<(), String>,
>(
    anchor: Anchor,
    before: Mark,
    bytes: Seq<u8>,
    decode: D,
    check: C,
    persist: P,
    outcome: Outcome,
    after: Mark,
)
    requires
        snark_accepted(anchor, before, bytes, decode, check, persist, outcome, after),
        after != before,
    ensures
        decode_snark(bytes) is Ok,
        proven(anchor, decode_snark(bytes)->Ok_0, decode, check),
        after.newest == Some(decode_snark(bytes)->Ok_0.version),
        outcome == (Outcome::Accepted { version: decode_snark(bytes)->Ok_0.version }),
{
}

/// A durable mark moves only by a record that decodes and whose aggregate was proven:
/// after a restart it stands at that record's version, which is newer.
pub proof fn law_only_a_proven_record_is_made_durable<
    D: Fn(&[u8]) -> Option<Aggregate>,
    C: Fn(&[u8]) -> bool,
>(
    anchor: Anchor,
    before: Mark,
    bytes: Seq<u8>,
    decode: D,
    check: C,
    line: Seq<char>,
)
    requires
        before.anchor.len() == 32,
        may_persist(anchor, before, bytes, decode, check, line),
    ensures
        decode_snark(bytes) is Ok,
        proven(anchor, decode_snark(bytes)->Ok_0, decode, check),
        is_newer(before.newest, decode_snark(bytes)->Ok_0.version),
        read_mark(encode_utf8(line), before.anchor) == Ok::<Option<u32>, MarkStateError>(
            Some(decode_snark(bytes)->Ok_0.version),
        ),
{
    law_a_stored_line_moves_the_mark_forward(before, decode_snark(bytes)->Ok_0.version, line);
}

/// No proof is checked for a candidate at or below the mark, nor for one whose aggregate
/// claims what does not hold.
pub proof fn law_no_proof_is_checked_below_the_mark<D: Fn(&[u8]) -> Option<Aggregate>>(
    anchor: Anchor,
    candidates: Seq<Vec<u8>>,
    before: Mark,
    decode: D,
    bytes: Seq<u8>,
)
    requires
        may_check(anchor, candidates, before.newest, decode, bytes),
    ensures
        exists|k: int|
            {
                let found = decode_snark(#[trigger] candidates[k]@);
                &&& 0 <= k < candidates.len()
                &&& found is Ok && found->Ok_0.proof == bytes
                &&& is_newer(before.newest, found->Ok_0.version)
                &&& claims_hold(anchor, found->Ok_0, decode)
            },
{
}

/// A record that decodes and that is not disproven is accepted when its version is higher
/// than the mark and the mark can be stored, and is stale when it is not higher. Bytes that
/// are no record, and a record that is not proven, are refused and move nothing.
pub proof fn law_every_proven_newer_record_is_accepted<
    D: Fn(&[u8]) -> Option<Aggregate>,
    C: Fn(&[u8]) -> bool,
    P: FnOnce(&str) -> Result<(), String>,
>(
    anchor: Anchor,
    before: Mark,
    bytes: Seq<u8>,
    decode: D,
    check: C,
    persist: P,
    outcome: Outcome,
    after: Mark,
)
    requires
        snark_accepted(anchor, before, bytes, decode, check, persist, outcome, after),
        forall|line: &str, answer: Result<(), String>|
            #[trigger] call_ensures(persist, (line,), answer) ==> answer is Ok,
    ensures
        after.anchor == before.anchor,
        decode_snark(bytes) is Err ==> outcome == Outcome::Refused && after == before,
        decode_snark(bytes) is Ok && !proven(anchor, decode_snark(bytes)->Ok_0, decode, check)
            ==> outcome == Outcome::Refused && after == before,
        decode_snark(bytes) is Ok && !disproven(anchor, decode_snark(bytes)->Ok_0, decode, check)
            ==> {
            let version = decode_snark(bytes)->Ok_0.version;
            if before.newest is None || version > before.newest->0 {
                outcome == (Outcome::Accepted { version }) && after.newest == Some(version)
            } else {
                outcome == (Outcome::Stale { version, mark: before.newest->0 }) && after == before
            }
        },
{
}

/// What a SNARK node may store is the one line for a record that decodes and is proven, and
/// only when its version is higher than the mark.
pub proof fn law_a_proven_newer_record_may_be_stored<
    D: Fn(&[u8]) -> Option<Aggregate>,
    C: Fn(&[u8]) -> bool,
>(
    anchor: Anchor,
    before: Mark,
    bytes: Seq<u8>,
    decode: D,
    check: C,
    record: SnarkRecord,
    line: Seq<char>,
)
    requires
        decode_snark(bytes) == Ok::<SnarkRecord, StatusListError>(record),
    ensures
        may_persist(anchor, before, bytes, decode, check, line) <==> {
            &&& proven(anchor, record, decode, check)
            &&& before.newest is None || record.version > before.newest->0
            &&& line == hex_text(before.anchor) + " "@ + decimal(record.version as nat) + "\n"@
        },
{
    law_one_line_may_be_stored_for_a_higher_version(before, record.version, line);
}

} // verus!

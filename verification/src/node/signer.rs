//! A committee member: one key and the counter of the slots it has spent.
//!
//! A slot is durably spent before the key touches it. A crash in between loses a
//! signature but never produces a second one under the same slot.
use crate::protocol::xmss::{XmssPublicKey, XmssSignature};
use crate::state::slot_counter::{
    law_a_restart_resumes_where_the_counter_stood, refused_generation, resumed, with_record,
    AtomicSlotCounter, AtomicSlotCounterError, CounterView, PendingWrite, RecordView,
    SlotStateError,
};
use crate::text::{decimal, push_decimal};
use vstd::prelude::*;
use vstd::string::*;

verus! {

/// Why a signature could not be produced. Neither gives a slot back.
#[derive(Debug)]
pub enum SignerNodeError {
    /// No slot could be issued.
    Slot(AtomicSlotCounterError),
    /// A slot was issued but the key refused to sign with it. The slot is burned.
    Sign(String),
}

impl SignerNodeError {
    /// The refusal in words.
    pub open spec fn message(self) -> Seq<char> {
        match self {
            SignerNodeError::Slot(e) => e.message(),
            SignerNodeError::Sign(why) => "signing failed: "@ + why@,
        }
    }

    /// The refusal in words.
    pub fn text(&self) -> (text: String)
        ensures
            text@ == self.message(),
    {
        match self {
            SignerNodeError::Slot(e) => e.text(),
            SignerNodeError::Sign(why) => {
                let mut text: String = "signing failed: ".to_owned();
                text.append(why.as_str());
                text
            },
        }
    }
}

/// Whether `persist` was asked to write `record` in its place and answered so.
pub open spec fn write_asked<P: FnOnce(&PendingWrite) -> Result<(), String>>(
    persist: P,
    record: RecordView,
    answer: Result<(), String>,
) -> bool {
    exists|w: &PendingWrite|
        w.writes(record) && #[trigger] call_ensures(persist, (w,), answer)
}

/// Whether `sign` was asked for a signature at `slot` over `message` and answered
/// so.
pub open spec fn signature_asked<S: FnOnce(u32, &[u8; 32]) -> Result<XmssSignature, String>>(
    sign: S,
    slot: u32,
    message: Seq<u8>,
    answer: Result<XmssSignature, String>,
) -> bool {
    exists|m: &[u8; 32]| m@ == message && #[trigger] call_ensures(sign, (slot, m), answer)
}

/// Whether signing at `slot` may ask for this write: the slot may be handed out, and
/// the write is the one that makes it and all below it spent.
pub open spec fn may_write(before: CounterView, slot: u32, w: PendingWrite) -> bool {
    &&& before.open_at(slot)
    &&& before.can_write()
    &&& w.writes(before.record((slot + 1) as u64))
}

/// Whether signing `message` at `slot` may have the key sign `m` at `s`: they are that
/// message and that slot, the slot may be handed out, and the write that spends it was
/// asked for and succeeded.
pub open spec fn may_sign<P: FnOnce(&PendingWrite) -> Result<(), String>>(
    before: CounterView,
    slot: u32,
    message: Seq<u8>,
    persist: P,
    s: u32,
    m: Seq<u8>,
) -> bool {
    &&& s == slot && m == message
    &&& before.open_at(slot)
    &&& before.can_write()
    &&& write_asked(persist, before.record((slot + 1) as u64), Ok(()))
}

/// The key is never asked for a signature at a slot that is not durably spent: before it
/// is, a record behind which the slot cannot be handed out was written.
pub proof fn law_a_slot_is_spent_before_the_key_signs<
    P: FnOnce(&PendingWrite) -> Result<(), String>,
>(
    before: CounterView,
    slot: u32,
    message: Seq<u8>,
    persist: P,
    s: u32,
    m: Seq<u8>,
)
    requires
        may_sign(before, slot, message, persist, s, m),
    ensures
        before.open_at(s),
        !before.advanced((s + 1) as u64).open_at(s),
        exists|w: &PendingWrite|
            w.writes(before.record((s + 1) as u64)) && #[trigger] call_ensures(
                persist,
                (w,),
                Ok(()),
            ),
{
}

/// A slot that the key was asked to sign at stays spent for good: when the write that
/// came before is in the journal, a counter that is opened from it does not hand the slot
/// out, nor any below it.
pub proof fn law_a_signed_slot_stays_spent_across_a_restart<
    P: FnOnce(&PendingWrite) -> Result<(), String>,
>(
    journal: Seq<u8>,
    before: CounterView,
    slot: u32,
    message: Seq<u8>,
    persist: P,
    s: u32,
    m: Seq<u8>,
)
    requires
        before.key_tag.len() == 32,
        resumed(journal, before.key_tag, before.end) == Ok::<(CounterView, bool), SlotStateError>(
            (before, false),
        ),
        may_sign(before, slot, message, persist, s, m),
    ensures
        ({
            let written = with_record(journal, before.record((s + 1) as u64));
            let opened = resumed(written, before.key_tag, before.end);
            &&& opened is Ok
            &&& forall|again: u32| again <= s ==> !#[trigger] (opened->Ok_0).0.open_at(again)
        }),
{
    law_a_restart_resumes_where_the_counter_stood(journal, before, (s + 1) as u64);
}

/// What signing at `slot`, once it may be handed out, does: either the write that spends
/// the slot was asked for and failed, and nothing moved; or it succeeded, the slot is
/// spent, and the key was asked to sign at it.
pub open spec fn spent_and_signed<
    P: FnOnce(&PendingWrite) -> Result<(), String>,
    S: FnOnce(u32, &[u8; 32]) -> Result<XmssSignature, String>,
>(
    before: CounterView,
    slot: u32,
    message: Seq<u8>,
    persist: P,
    sign: S,
    r: Result<XmssSignature, SignerNodeError>,
    after: CounterView,
) -> bool {
    let target = (slot + 1) as u64;
    ||| exists|why: String|
        #[trigger] write_asked(persist, before.record(target), Err(why)) && r is Err && r->Err_0
            == SignerNodeError::Slot(AtomicSlotCounterError::Io(why)) && after == before
    ||| {
        &&& write_asked(persist, before.record(target), Ok(()))
        &&& after == before.advanced(target)
        &&& match r {
            Ok(signature) => signature_asked(sign, slot, message, Ok(signature)),
            Err(SignerNodeError::Sign(text)) => exists|why: String|
                #[trigger] signature_asked(sign, slot, message, Err(why)) && text@ == why@
                    + " at slot "@ + decimal(slot as nat),
            Err(SignerNodeError::Slot(_)) => false,
        }
    }
}

/// What signing at an assigned slot does: a slot beyond the key's window or already
/// spent is refused and nothing moves; otherwise it is spent and then signed at.
#[verifier::opaque]
pub open spec fn signs_at<
    P: FnOnce(&PendingWrite) -> Result<(), String>,
    S: FnOnce(u32, &[u8; 32]) -> Result<XmssSignature, String>,
>(
    before: CounterView,
    slot: u32,
    message: Seq<u8>,
    persist: P,
    sign: S,
    r: Result<XmssSignature, SignerNodeError>,
    after: CounterView,
) -> bool {
    if !before.open_next() || slot > before.end {
        &&& r is Err
        &&& r->Err_0 == SignerNodeError::Slot(
            AtomicSlotCounterError::Exhausted {
                next: if before.next >= slot {
                    before.next
                } else {
                    slot as u64
                },
                end: before.end,
            },
        )
        &&& after == before
    } else if slot < before.next {
        &&& r is Err
        &&& r->Err_0 == SignerNodeError::Slot(
            AtomicSlotCounterError::AlreadySpent { requested: slot, next: before.next },
        )
        &&& after == before
    } else if !before.can_write() {
        &&& r is Err
        &&& r->Err_0 is Slot && refused_generation(r->Err_0->Slot_0)
        &&& after == before
    } else {
        spent_and_signed(before, slot, message, persist, sign, r, after)
    }
}

/// A member that signs.
#[derive(Debug)]
pub struct SignerNode {
    pk: XmssPublicKey,
    a_slot_counter: AtomicSlotCounter,
}

impl SignerNode {
    /// The counter the member keeps.
    pub closed spec fn counter(self) -> CounterView {
        self.a_slot_counter@
    }

    /// The member's public key.
    pub closed spec fn key(self) -> Seq<u8> {
        self.pk@
    }

    pub fn new(pk: XmssPublicKey, a_slot_counter: AtomicSlotCounter) -> (node: SignerNode)
        ensures
            node.key() == pk@,
            node.counter() == a_slot_counter@,
    {
        SignerNode { pk, a_slot_counter }
    }

    /// The member's public key, as it appears in the committee anchor.
    pub fn public_key(&self) -> (pk: &XmssPublicKey)
        ensures
            pk@ == self.key(),
    {
        &self.pk
    }

    /// The slot the next signature would use.
    pub fn next_slot(&self) -> (slot: u64)
        ensures
            slot == self.counter().next,
    {
        self.a_slot_counter.next_slot()
    }

    /// Signatures this key can still produce before a new key is required.
    pub fn remaining_slots(&self) -> (n: u64)
        ensures
            n == if self.counter().next <= self.counter().end {
                self.counter().end + 1 - self.counter().next
            } else {
                0
            },
    {
        self.a_slot_counter.remaining()
    }

    /// Signs `message` at the next slot and gives that slot back with the
    /// signature. The slot is durably spent before the key is asked, and after a failed
    /// write the key is not asked at all.
    pub fn sign<
        P: FnOnce(&PendingWrite) -> Result<(), String>,
        S: FnOnce(u32, &[u8; 32]) -> Result<XmssSignature, String>,
    >(&mut self, message: &[u8; 32], persist: P, xmss_sign: S) -> (r: Result<
        (u32, XmssSignature),
        SignerNodeError,
    >)
        requires
            forall|w: &PendingWrite|
                may_write(old(self).counter(), old(self).counter().next as u32, *w)
                    ==> #[trigger] call_requires(persist, (w,)),
            forall|s: u32, m: &[u8; 32]|
                may_sign(
                    old(self).counter(),
                    old(self).counter().next as u32,
                    message@,
                    persist,
                    s,
                    m@,
                ) ==> #[trigger] call_requires(xmss_sign, (s, m)),
        ensures
            final(self).key() == old(self).key(),
            ({
                let before = old(self).counter();
                let after = final(self).counter();
                if !before.open_next() {
                    &&& r is Err
                    &&& r->Err_0 == SignerNodeError::Slot(
                        AtomicSlotCounterError::Exhausted { next: before.next, end: before.end },
                    )
                    &&& after == before
                } else if !before.can_write() {
                    &&& r is Err
                    &&& r->Err_0 is Slot && refused_generation(r->Err_0->Slot_0)
                    &&& after == before
                } else {
                    &&& r is Ok ==> r->Ok_0.0 == before.next
                    &&& spent_and_signed(
                        before,
                        before.next as u32,
                        message@,
                        persist,
                        xmss_sign,
                        without_slot(r),
                        after,
                    )
                }
            }),
    {
        let ghost before = self.a_slot_counter@;
        match self.a_slot_counter.reservation() {
            None => match self.a_slot_counter.reserve(Ok(())) {
                Err(e) => Err(SignerNodeError::Slot(e)),
                Ok(slot) => {
                    assert(false);
                    Err(SignerNodeError::Sign(String::new()))
                },
            },
            Some(write) => {
                let stored = persist(&write);
                let ghost record = before.record((before.next + 1) as u64);
                proof {
                    if stored is Ok {
                        assert(write_asked(persist, record, Ok(stored->Ok_0)));
                    } else {
                        assert(write_asked(persist, record, Err(stored->Err_0)));
                    }
                }
                match self.a_slot_counter.reserve(stored) {
                    Err(e) => Err(SignerNodeError::Slot(e)),
                    Ok(slot) => match signature_at(slot, message, xmss_sign) {
                        Ok(signature) => Ok((slot, signature)),
                        Err(e) => Err(e),
                    },
                }
            },
        }
    }

    /// Signs `message` at the slot the protocol assigned to this round instead of
    /// the next one. A slot in this member's past is refused: the member abstains
    /// rather than signing a second message under a spent slot. The slot is durably
    /// spent before the key is asked, and after a failed write the key is not asked at
    /// all.
    pub fn sign_at<
        P: FnOnce(&PendingWrite) -> Result<(), String>,
        S: FnOnce(u32, &[u8; 32]) -> Result<XmssSignature, String>,
    >(&mut self, message: &[u8; 32], slot: u32, persist: P, xmss_sign: S) -> (r: Result<
        XmssSignature,
        SignerNodeError,
    >)
        requires
            forall|w: &PendingWrite|
                may_write(old(self).counter(), slot, *w) ==> #[trigger] call_requires(
                    persist,
                    (w,),
                ),
            forall|s: u32, m: &[u8; 32]|
                may_sign(old(self).counter(), slot, message@, persist, s, m@)
                    ==> #[trigger] call_requires(xmss_sign, (s, m)),
        ensures
            final(self).key() == old(self).key(),
            signs_at(
                old(self).counter(),
                slot,
                message@,
                persist,
                xmss_sign,
                r,
                final(self).counter(),
            ),
    {
        proof {
            reveal(signs_at);
        }
        let ghost before = self.a_slot_counter@;
        match self.a_slot_counter.reservation_at(slot) {
            None => match self.a_slot_counter.reserve_at(slot, Ok(())) {
                Err(e) => Err(SignerNodeError::Slot(e)),
                Ok(_) => {
                    assert(false);
                    Err(SignerNodeError::Sign(String::new()))
                },
            },
            Some(write) => {
                let stored = persist(&write);
                let ghost record = before.record((slot + 1) as u64);
                proof {
                    if stored is Ok {
                        assert(write_asked(persist, record, Ok(stored->Ok_0)));
                    } else {
                        assert(write_asked(persist, record, Err(stored->Err_0)));
                    }
                }
                match self.a_slot_counter.reserve_at(slot, stored) {
                    Err(e) => Err(SignerNodeError::Slot(e)),
                    Ok(_) => signature_at(slot, message, xmss_sign),
                }
            },
        }
    }
}

/// The signature without the slot it was made at.
pub open spec fn without_slot(r: Result<(u32, XmssSignature), SignerNodeError>) -> Result<
    XmssSignature,
    SignerNodeError,
> {
    match r {
        Ok(pair) => Ok(pair.1),
        Err(e) => Err(e),
    }
}

fn signature_at<S: FnOnce(u32, &[u8; 32]) -> Result<XmssSignature, String>>(
    slot: u32,
    message: &[u8; 32],
    xmss_sign: S,
) -> (r: Result<XmssSignature, SignerNodeError>)
    requires
        call_requires(xmss_sign, (slot, message)),
    ensures
        match r {
            Ok(signature) => signature_asked(xmss_sign, slot, message@, Ok(signature)),
            Err(SignerNodeError::Sign(text)) => exists|why: String|
                #[trigger] signature_asked(xmss_sign, slot, message@, Err(why)) && text@ == why@
                    + " at slot "@ + decimal(slot as nat),
            Err(SignerNodeError::Slot(_)) => false,
        },
{
    let answer = xmss_sign(slot, message);
    assert(signature_asked(xmss_sign, slot, message@, answer));
    match answer {
        Ok(signature) => Ok(signature),
        Err(why) => {
            let mut text: String = why.clone();
            text.append(" at slot ");
            push_decimal(&mut text, slot as u64);
            Err(SignerNodeError::Sign(text))
        },
    }
}

/// A signature, and equally a refusal by the key, leaves its slot spent for good:
/// whatever is signed afterwards is signed at a later slot.
pub proof fn law_a_used_slot_is_never_signed_again<
    P: FnOnce(&PendingWrite) -> Result<(), String>,
    S: FnOnce(u32, &[u8; 32]) -> Result<XmssSignature, String>,
>(
    before: CounterView,
    slot: u32,
    message: Seq<u8>,
    persist: P,
    sign: S,
    r: Result<XmssSignature, SignerNodeError>,
    after: CounterView,
    later: u32,
)
    requires
        before.open_at(slot),
        spent_and_signed(before, slot, message, persist, sign, r, after),
        r is Ok || r->Err_0 is Sign,
        after.open_at(later),
    ensures
        later > slot,
{
}

/// A slot that is free and in the key's window is signed at, whenever the write that spends
/// it succeeds and the key signs: the key is asked for exactly that message at exactly that
/// slot, its signature comes back, and every slot up to that one is spent.
pub proof fn law_a_free_slot_is_signed_at<
    P: FnOnce(&PendingWrite) -> Result<(), String>,
    S: FnOnce(u32, &[u8; 32]) -> Result<XmssSignature, String>,
>(
    before: CounterView,
    slot: u32,
    message: Seq<u8>,
    persist: P,
    sign: S,
    r: Result<XmssSignature, SignerNodeError>,
    after: CounterView,
)
    requires
        signs_at(before, slot, message, persist, sign, r, after),
        before.next <= slot <= before.end,
        before.generation < u64::MAX,
        forall|w: &PendingWrite, answer: Result<(), String>|
            #[trigger] call_ensures(persist, (w,), answer) ==> answer is Ok,
        forall|s: u32, m: &[u8; 32], answer: Result<XmssSignature, String>|
            #[trigger] call_ensures(sign, (s, m), answer) ==> answer is Ok,
    ensures
        r is Ok,
        exists|m: &[u8; 32]| m@ == message && #[trigger] call_ensures(sign, (slot, m), Ok(r->Ok_0)),
        exists|w: &PendingWrite|
            {
                &&& #[trigger] call_ensures(persist, (w,), Ok(()))
                &&& w.bytes@ == (RecordView {
                    generation: (before.generation + 1) as u64,
                    next_free: (slot + 1) as u64,
                    key_tag: before.key_tag,
                }).encode()
                &&& w.offset == 4096 * ((before.generation + 1) % 2)
            },
        after.next == slot + 1,
        after.generation == before.generation + 1,
        after.key_tag == before.key_tag,
        after.end == before.end,
{
    reveal(signs_at);
    let target = (slot + 1) as u64;
    assert(spent_and_signed(before, slot, message, persist, sign, r, after));
    assert forall|why: String| !#[trigger] write_asked(persist, before.record(target), Err(why)) by {
    }
    if r is Err && r->Err_0 is Sign {
        let why = choose|why: String| #[trigger] signature_asked(sign, slot, message, Err(why));
        assert(signature_asked(sign, slot, message, Err(why)));
    }
    let w = choose|w: &PendingWrite|
        w.writes(before.record(target)) && #[trigger] call_ensures(persist, (w,), Ok(()));
    assert(call_ensures(persist, (w,), Ok(())));
}

/// A slot that is spent, or lies outside the key's window, is refused for that reason, and
/// nothing moves; a key that refuses leaves its slot spent, and a failed write leaves it
/// free.
pub proof fn law_a_slot_that_is_not_free_is_refused<
    P: FnOnce(&PendingWrite) -> Result<(), String>,
    S: FnOnce(u32, &[u8; 32]) -> Result<XmssSignature, String>,
>(
    before: CounterView,
    slot: u32,
    message: Seq<u8>,
    persist: P,
    sign: S,
    r: Result<XmssSignature, SignerNodeError>,
    after: CounterView,
)
    requires
        signs_at(before, slot, message, persist, sign, r, after),
    ensures
        slot < before.next <= before.end ==> r is Err && r->Err_0 == SignerNodeError::Slot(
            AtomicSlotCounterError::AlreadySpent { requested: slot, next: before.next },
        ) && after == before,
        slot > before.end ==> r is Err && r->Err_0 is Slot && r->Err_0->Slot_0 is Exhausted && after
            == before,
        before.next > before.end ==> r is Err && r->Err_0 is Slot && r->Err_0->Slot_0 is Exhausted
            && after == before,
        r is Ok ==> before.next <= slot <= before.end && after.next == slot + 1,
        r is Err && r->Err_0 is Sign ==> before.next <= slot <= before.end && after.next == slot
            + 1,
        r is Err && r->Err_0 is Slot ==> after == before,
{
    reveal(signs_at);
}

} // verus!

//! Durable, monotonic slot allocation for one signing key.
//!
//! A slot is recorded as spent, and the record is durable, before the slot is
//! handed out. A crash may waste slots but cannot reuse one, which would give the
//! key away. Missing or invalid state therefore refuses signing; initialization
//! is explicit. The caller moves bytes to and from the disk.
use crate::bytes::{
    array32_at, bytes_eq, from_le64, le64, lemma_from_le64, lemma_le64, push_all, push_le64, read_le64,
};
use crate::hash::{sha3_256, sha3_256_digest};
use crate::protocol::xmss::XmssPublicKey;
use crate::state::{cannot_read, Locking, Stored};
use crate::text::{
    chars_of, decimal, hex_text, is_text, joined, law_a_byte_is_two_hexadecimal_digits,
    lemma_decimal_is_word, lemma_hex_injective, lemma_hex_is_word, lemma_parse_decimal,
    lemma_two_words, parse_upto, push_decimal, push_hex, split_words, text_of, u64_error_text,
    u64_or_why, utf8_error_text, utf8_or_why, words,
};
use vstd::prelude::*;
use vstd::string::*;
use vstd::utf8::{decode_utf8, valid_utf8};

verus! {

/// How many bytes a journal record has.
pub const RECORD_SIZE: usize = 128;

/// How far apart the two records lie, so that an interrupted block write does not
/// normally damage both.
pub const JOURNAL_SLOT_SIZE: usize = 4096;

/// How many bytes the journal has.
pub const JOURNAL_SIZE: usize = 8192;

/// Where a record's checksum begins.
pub const CHECKSUM_OFFSET: usize = 96;

/// What is wrong with one journal record.
#[derive(Clone, Copy, PartialEq, Eq, Structural, Debug)]
pub enum RecordError {
    WrongLength,
    WrongMagic,
    ReservedBytes,
    Checksum,
    WrongSlot,
}

/// What is wrong with stored slot state.
#[derive(Clone, Copy, PartialEq, Eq, Structural, Debug)]
pub enum SlotStateError {
    /// The journal has another length than all journals.
    JournalLength { len: usize },
    /// Neither record can be used; what is wrong with each that is not empty.
    NoValidRecord { first: Option<RecordError>, second: Option<RecordError> },
    /// A record belongs to another key.
    ForeignJournal,
    /// The two records do not follow one another.
    NotMonotonic,
    /// The next slot lies outside the key's window.
    OutsideWindow { next: u64, end: u32 },
    /// The file is neither a journal nor text.
    NotUtf8,
    /// The text holds no word.
    Empty,
    /// The text holds no counter.
    MissingCounter,
    /// The text belongs to another key.
    ForeignText,
    /// The counter is no number.
    Unparseable,
    /// The text holds more than a counter.
    Trailing,
    /// The text may mean two things, one of which would reuse a slot.
    Ambiguous,
}

/// Refusals from slot allocation. None permits guessing a slot.
#[derive(Debug)]
pub enum AtomicSlotCounterError {
    /// The key's slot window is used up. Only a new key fixes this.
    Exhausted { next: u64, end: u32 },
    /// A slot the protocol chose lies in this member's past; the member sits this
    /// round out.
    AlreadySpent { requested: u32, next: u64 },
    /// The state is missing, malformed, or belongs to a different key, in words.
    State(String),
    /// Another process already holds the lock on this key's state.
    Busy,
    /// The state could not be read or durably written.
    Io(String),
}

// ---- records -----------------------------------------------------------------

/// What a journal record says.
#[verifier::ext_equal]
pub struct RecordView {
    pub generation: u64,
    pub next_free: u64,
    pub key_tag: Seq<u8>,
}

/// What every record begins with.
pub open spec fn magic() -> Seq<u8> {
    "DROTSL03".spec_bytes()
}

proof fn lemma_magic()
    ensures
        magic().len() == 8,
        magic()[0] != 0,
{
    reveal_strlit("DROTSL03");
    broadcast use is_ascii_spec_bytes;

    assert(is_ascii("DROTSL03"));
    assert("DROTSL03"@[0] == 'D');
}

impl RecordView {
    /// The part that the checksum covers.
    pub open spec fn body(self) -> Seq<u8> {
        magic() + le64(self.generation) + le64(self.next_free) + self.key_tag + Seq::new(
            40,
            |i: int| 0u8,
        )
    }

    /// The record as it is stored.
    pub open spec fn encode(self) -> Seq<u8> {
        self.body() + sha3_256(self.body())
    }
}

/// Whether `s` is nothing but zero bytes.
pub open spec fn all_zero(s: Seq<u8>) -> bool {
    forall|i: int| 0 <= i < s.len() ==> #[trigger] s[i] == 0
}

/// The record in place `slot` of the journal, where `checksum` is what its checksum
/// has to be: none if the place is empty, or what is wrong with it. The checks come
/// in this order.
pub open spec fn record_given(b: Seq<u8>, slot: int, checksum: Seq<u8>) -> Result<
    Option<RecordView>,
    RecordError,
> {
    if b.len() != RECORD_SIZE {
        Err(RecordError::WrongLength)
    } else if all_zero(b) {
        Ok(None)
    } else if b.subrange(0, 8) != magic() {
        Err(RecordError::WrongMagic)
    } else if !all_zero(b.subrange(56, 96)) {
        Err(RecordError::ReservedBytes)
    } else if b.subrange(96, 128) != checksum {
        Err(RecordError::Checksum)
    } else if from_le64(b.subrange(8, 16)) as int % 2 != slot {
        Err(RecordError::WrongSlot)
    } else {
        Ok(
            Some(
                RecordView {
                    generation: from_le64(b.subrange(8, 16)),
                    next_free: from_le64(b.subrange(16, 24)),
                    key_tag: b.subrange(24, 56),
                },
            ),
        )
    }
}

/// The record in place `slot` of the journal.
#[verifier::opaque]
pub open spec fn decode_record_at(b: Seq<u8>, slot: int) -> Result<Option<RecordView>, RecordError> {
    record_given(b, slot, sha3_256(b.subrange(0, 96)))
}

proof fn lemma_record_layout(r: RecordView)
    requires
        r.key_tag.len() == 32,
    ensures
        ({
            let b = r.encode();
            &&& b.len() == 128
            &&& b[0] != 0
            &&& b.subrange(0, 8) == magic()
            &&& b.subrange(8, 16) == le64(r.generation)
            &&& b.subrange(16, 24) == le64(r.next_free)
            &&& b.subrange(24, 56) == r.key_tag
            &&& all_zero(b.subrange(56, 96))
            &&& b.subrange(0, 96) == r.body()
            &&& b.subrange(96, 128) == sha3_256(r.body())
        }),
{
    lemma_magic();
    lemma_le64(r.generation);
    lemma_le64(r.next_free);
    let (m, g, n, z) = (
        magic(),
        le64(r.generation),
        le64(r.next_free),
        Seq::new(40, |i: int| 0u8),
    );
    let b = r.encode();
    let sum = sha3_256(r.body());
    assert(sum.len() == 32);
    assert(b == m + g + n + r.key_tag + z + sum);
    assert(b.subrange(0, 8) =~= m);
    assert(b.subrange(8, 16) =~= g);
    assert(b.subrange(16, 24) =~= n);
    assert(b.subrange(24, 56) =~= r.key_tag);
    assert(b.subrange(56, 96) =~= z);
    assert(b.subrange(0, 96) =~= r.body());
    assert(b.subrange(96, 128) =~= sum);
    assert(b[0] == m[0]);
}

proof fn lemma_record_len(r: RecordView)
    requires
        r.key_tag.len() == 32,
    ensures
        r.encode().len() == RECORD_SIZE,
{
    lemma_record_layout(r);
}

/// A stored record is read back in the place its generation belongs to.
pub proof fn law_a_record_round_trips(r: RecordView)
    requires
        r.key_tag.len() == 32,
    ensures
        decode_record_at(r.encode(), r.generation as int % 2) == Ok::<
            Option<RecordView>,
            RecordError,
        >(Some(r)),
{
    reveal(decode_record_at);
    lemma_record_layout(r);
    lemma_le64(r.generation);
    lemma_le64(r.next_free);
}

/// A journal record.
#[derive(Clone, Copy, Debug)]
pub struct JournalRecord {
    pub generation: u64,
    pub next_free: u64,
    pub key_tag: [u8; 32],
}

impl View for JournalRecord {
    type V = RecordView;

    open spec fn view(&self) -> RecordView {
        RecordView {
            generation: self.generation,
            next_free: self.next_free,
            key_tag: self.key_tag@,
        }
    }
}

/// The view of what a journal place holds.
pub open spec fn place_view(r: Result<Option<JournalRecord>, RecordError>) -> Result<
    Option<RecordView>,
    RecordError,
> {
    match r {
        Ok(Some(record)) => Ok(Some(record@)),
        Ok(None) => Ok(None),
        Err(e) => Err(e),
    }
}

/// The bytes a record is stored as.
pub fn encode_record(record: &JournalRecord) -> (bytes: Vec<u8>)
    ensures
        bytes@ == record@.encode(),
        bytes@.len() == RECORD_SIZE,
{
    let mut bytes: Vec<u8> = Vec::new();
    push_all(&mut bytes, "DROTSL03".as_bytes());
    push_le64(&mut bytes, record.generation);
    push_le64(&mut bytes, record.next_free);
    push_all(&mut bytes, record.key_tag.as_slice());
    push_zeros(&mut bytes, 40);
    assert(bytes@ =~= record@.body());
    let checksum = sha3_256_digest(bytes.as_slice());
    push_all(&mut bytes, checksum.as_slice());
    proof {
        lemma_record_layout(record@);
    }
    bytes
}

fn push_zeros(out: &mut Vec<u8>, n: usize)
    ensures
        final(out)@ == old(out)@ + Seq::new(n as nat, |i: int| 0u8),
{
    let mut i: usize = 0;
    while i < n
        invariant
            i <= n,
            out@ == old(out)@ + Seq::new(i as nat, |k: int| 0u8),
        decreases n - i,
    {
        out.push(0);
        i = i + 1;
        assert(out@ =~= old(out)@ + Seq::new(i as nat, |k: int| 0u8));
    }
}

fn is_zero(bytes: &[u8]) -> (r: bool)
    ensures
        r == all_zero(bytes@),
{
    let mut i: usize = 0;
    while i < bytes.len()
        invariant
            i <= bytes@.len(),
            forall|k: int| 0 <= k < i ==> #[trigger] bytes@[k] == 0,
        decreases bytes@.len() - i,
    {
        if bytes[i] != 0 {
            return false;
        }
        i = i + 1;
    }
    true
}

/// Reads the record in place `slot`.
pub fn decode_record(bytes: &[u8], slot: usize) -> (r: Result<Option<JournalRecord>, RecordError>)
    ensures
        place_view(r) == decode_record_at(bytes@, slot as int),
{
    proof {
        reveal(decode_record_at);
    }
    if bytes.len() != RECORD_SIZE {
        return Err(RecordError::WrongLength);
    }
    let checksum = sha3_256_digest(&bytes[0..CHECKSUM_OFFSET]);
    decode_checked(bytes, slot, &checksum)
}

/// Reads the record in place `slot`, where `checksum` is what its checksum has to
/// be.
pub fn decode_checked(bytes: &[u8], slot: usize, checksum: &[u8; 32]) -> (r: Result<
    Option<JournalRecord>,
    RecordError,
>)
    ensures
        place_view(r) == record_given(bytes@, slot as int, checksum@),
{
    if bytes.len() != RECORD_SIZE {
        return Err(RecordError::WrongLength);
    }
    if is_zero(bytes) {
        return Ok(None);
    }
    if !bytes_eq(&bytes[0..8], "DROTSL03".as_bytes()) {
        return Err(RecordError::WrongMagic);
    }
    if !is_zero(&bytes[56..CHECKSUM_OFFSET]) {
        return Err(RecordError::ReservedBytes);
    }
    if !bytes_eq(&bytes[CHECKSUM_OFFSET..RECORD_SIZE], checksum.as_slice()) {
        return Err(RecordError::Checksum);
    }
    let generation: u64 = read_le64(bytes, 8);
    if generation % 2 != slot as u64 {
        return Err(RecordError::WrongSlot);
    }
    let next_free: u64 = read_le64(bytes, 16);
    let key_tag = array32_at(bytes, 24);
    Ok(Some(JournalRecord { generation, next_free, key_tag }))
}

// ---- the journal -------------------------------------------------------------

/// The record in the first place of the journal.
pub open spec fn first_place(b: Seq<u8>) -> Result<Option<RecordView>, RecordError> {
    decode_record_at(b.subrange(0, 128), 0)
}

/// The record in the second place of the journal.
pub open spec fn second_place(b: Seq<u8>) -> Result<Option<RecordView>, RecordError> {
    decode_record_at(b.subrange(4096, 4224), 1)
}

/// Whether a place holds a record that can be used.
pub open spec fn usable(place: Result<Option<RecordView>, RecordError>) -> bool {
    place matches Ok(Some(_))
}

/// The record of a usable place.
pub open spec fn held(place: Result<Option<RecordView>, RecordError>) -> RecordView {
    place->Ok_0->0
}

/// What is wrong with a place, if anything is.
pub open spec fn fault(place: Result<Option<RecordView>, RecordError>) -> Option<RecordError> {
    match place {
        Err(e) => Some(e),
        Ok(_) => None,
    }
}

/// Whether `newer` is the record that follows `older`.
pub open spec fn follows(older: RecordView, newer: RecordView) -> bool {
    newer.generation == older.generation + 1 && newer.next_free > older.next_free
}

/// The record in force among the two places, or why there is none. The checks
/// come in this order.
pub open spec fn chosen(
    p0: Result<Option<RecordView>, RecordError>,
    p1: Result<Option<RecordView>, RecordError>,
    key_tag: Seq<u8>,
    end: u32,
) -> Result<RecordView, SlotStateError> {
    if !usable(p0) && !usable(p1) {
        Err(SlotStateError::NoValidRecord { first: fault(p0), second: fault(p1) })
    } else if usable(p0) && held(p0).key_tag != key_tag || usable(p1) && held(p1).key_tag
        != key_tag {
        Err(SlotStateError::ForeignJournal)
    } else if usable(p0) && usable(p1) && !follows(held(p0), held(p1)) && !follows(
        held(p1),
        held(p0),
    ) {
        Err(SlotStateError::NotMonotonic)
    } else {
        let current = if usable(p0) && (!usable(p1) || follows(held(p1), held(p0))) {
            held(p0)
        } else {
            held(p1)
        };
        if current.next_free > end as u64 + 1 {
            Err(SlotStateError::OutsideWindow { next: current.next_free, end })
        } else {
            Ok(current)
        }
    }
}

/// The record in force in a journal, or why there is none.
pub open spec fn recovered(b: Seq<u8>, key_tag: Seq<u8>, end: u32) -> Result<
    RecordView,
    SlotStateError,
> {
    if b.len() != JOURNAL_SIZE {
        Err(SlotStateError::JournalLength { len: b.len() as usize })
    } else {
        chosen(first_place(b), second_place(b), key_tag, end)
    }
}

/// The journal of a new counter: one record, and an empty second place.
pub open spec fn journal_image(key_tag: Seq<u8>, next_free: u64) -> Seq<u8> {
    (RecordView { generation: 0, next_free, key_tag }).encode() + Seq::new(8064, |i: int| 0u8)
}

/// The journal after `record` was written in its place.
pub open spec fn with_record(b: Seq<u8>, record: RecordView) -> Seq<u8> {
    overwritten(b, 4096 * (record.generation as int % 2), record.encode())
}

/// `b` with `bytes` in place of what was at `at`.
pub open spec fn overwritten(b: Seq<u8>, at: int, bytes: Seq<u8>) -> Seq<u8> {
    b.subrange(0, at) + bytes + b.subrange(at + bytes.len(), b.len() as int)
}

/// A new journal is recovered as the counter it was made for.
pub proof fn law_a_new_journal_is_recovered(key_tag: Seq<u8>, next_free: u64, end: u32)
    requires
        key_tag.len() == 32,
        next_free <= end + 1,
    ensures
        recovered(journal_image(key_tag, next_free), key_tag, end) == Ok::<
            RecordView,
            SlotStateError,
        >(RecordView { generation: 0, next_free, key_tag }),
{
    let r = RecordView { generation: 0, next_free, key_tag };
    let b = journal_image(key_tag, next_free);
    lemma_record_layout(r);
    law_a_record_round_trips(r);
    assert(b.subrange(0, 128) =~= r.encode());
    assert(all_zero(b.subrange(4096, 4224)));
    assert(second_place(b) == Ok::<Option<RecordView>, RecordError>(None)) by {
        reveal(decode_record_at);
    }
}

/// Once the record for a reservation is completely written, the journal is
/// recovered at it, whatever lay in its place before.
pub proof fn law_a_completed_write_is_recovered(
    b: Seq<u8>,
    key_tag: Seq<u8>,
    end: u32,
    current: RecordView,
    next_free: u64,
)
    requires
        key_tag.len() == 32,
        recovered(b, key_tag, end) == Ok::<RecordView, SlotStateError>(current),
        current.generation < u64::MAX,
        current.next_free < next_free <= end + 1,
    ensures
        ({
            let record = RecordView {
                generation: (current.generation + 1) as u64,
                next_free,
                key_tag,
            };
            recovered(with_record(b, record), key_tag, end) == Ok::<RecordView, SlotStateError>(
                record,
            )
        }),
{
    let record = RecordView { generation: (current.generation + 1) as u64, next_free, key_tag };
    lemma_record_len(record);
    law_a_record_round_trips(record);
    lemma_written(b, key_tag, end, current, record, record.encode());
}

proof fn lemma_written(
    b: Seq<u8>,
    key_tag: Seq<u8>,
    end: u32,
    current: RecordView,
    record: RecordView,
    bytes: Seq<u8>,
)
    requires
        recovered(b, key_tag, end) == Ok::<RecordView, SlotStateError>(current),
        bytes.len() == RECORD_SIZE,
        decode_record_at(bytes, record.generation as int % 2) == Ok::<
            Option<RecordView>,
            RecordError,
        >(Some(record)),
        follows(current, record),
        record.key_tag == key_tag,
        record.next_free <= end + 1,
    ensures
        recovered(
            overwritten(b, 4096 * (record.generation as int % 2), bytes),
            key_tag,
            end,
        ) == Ok::<RecordView, SlotStateError>(record),
{
    lemma_places(b);
    lemma_overwritten(b, record.generation as int % 2, bytes);
}

/// While the record for a reservation is only partly written, so that its place
/// holds no usable record, the journal is recovered at the record before it: no
/// slot that was handed out is forgotten.
pub proof fn law_a_torn_write_recovers_the_previous_record(
    b: Seq<u8>,
    key_tag: Seq<u8>,
    end: u32,
    current: RecordView,
    torn: Seq<u8>,
)
    requires
        recovered(b, key_tag, end) == Ok::<RecordView, SlotStateError>(current),
        torn.len() == RECORD_SIZE,
        current.generation < u64::MAX,
        !usable(decode_record_at(torn, (current.generation + 1) % 2)),
    ensures
        recovered(
            overwritten(b, 4096 * ((current.generation + 1) % 2), torn),
            key_tag,
            end,
        ) == Ok::<RecordView, SlotStateError>(current),
{
    lemma_places(b);
    lemma_overwritten(b, (current.generation + 1) % 2, torn);
}

proof fn lemma_places(b: Seq<u8>)
    ensures
        usable(first_place(b)) ==> held(first_place(b)).generation as int % 2 == 0,
        usable(second_place(b)) ==> held(second_place(b)).generation as int % 2 == 1,
{
    reveal(decode_record_at);
}

/// What lies in the two places after bytes of a record's length were written in
/// one of them.
proof fn lemma_overwritten(b: Seq<u8>, parity: int, bytes: Seq<u8>)
    requires
        b.len() == JOURNAL_SIZE,
        bytes.len() == RECORD_SIZE,
        parity == 0 || parity == 1,
    ensures
        ({
            let after = overwritten(b, 4096 * parity, bytes);
            &&& after.len() == JOURNAL_SIZE
            &&& first_place(after) == if parity == 0 {
                decode_record_at(bytes, 0)
            } else {
                first_place(b)
            }
            &&& second_place(after) == if parity == 1 {
                decode_record_at(bytes, 1)
            } else {
                second_place(b)
            }
        }),
{
    let after = overwritten(b, 4096 * parity, bytes);
    if parity == 0 {
        assert(after.subrange(0, 128) =~= bytes);
        assert(after.subrange(4096, 4224) =~= b.subrange(4096, 4224));
    } else {
        assert(after.subrange(4096, 4224) =~= bytes);
        assert(after.subrange(0, 128) =~= b.subrange(0, 128));
    }
}

/// Finds the record in force.
pub fn recover_journal(bytes: &[u8], key_tag: &[u8; 32], slot_end: u32) -> (r: Result<
    JournalRecord,
    SlotStateError,
>)
    ensures
        match r {
            Ok(record) => recovered(bytes@, key_tag@, slot_end) == Ok::<RecordView, SlotStateError>(
                record@,
            ),
            Err(e) => recovered(bytes@, key_tag@, slot_end) == Err::<RecordView, SlotStateError>(e),
        },
{
    if bytes.len() != JOURNAL_SIZE {
        return Err(SlotStateError::JournalLength { len: bytes.len() });
    }
    let p0 = decode_record(&bytes[0..RECORD_SIZE], 0);
    let p1 = decode_record(&bytes[JOURNAL_SLOT_SIZE..JOURNAL_SLOT_SIZE + RECORD_SIZE], 1);
    proof {
        lemma_places(bytes@);
    }
    let current: JournalRecord = match (p0, p1) {
        (Ok(Some(first)), Ok(Some(second))) => {
            if !bytes_eq(first.key_tag.as_slice(), key_tag.as_slice()) || !bytes_eq(
                second.key_tag.as_slice(),
                key_tag.as_slice(),
            ) {
                return Err(SlotStateError::ForeignJournal);
            }
            let (older, newer): (JournalRecord, JournalRecord) = if first.generation
                < second.generation {
                (first, second)
            } else {
                (second, first)
            };
            if newer.generation != older.generation + 1 || newer.next_free <= older.next_free {
                return Err(SlotStateError::NotMonotonic);
            }
            newer
        },
        (Ok(Some(only)), _) | (_, Ok(Some(only))) => {
            if !bytes_eq(only.key_tag.as_slice(), key_tag.as_slice()) {
                return Err(SlotStateError::ForeignJournal);
            }
            only
        },
        (p0, p1) => {
            let first: Option<RecordError> = match p0 {
                Err(e) => Some(e),
                Ok(_) => None,
            };
            let second: Option<RecordError> = match p1 {
                Err(e) => Some(e),
                Ok(_) => None,
            };
            return Err(SlotStateError::NoValidRecord { first, second });
        },
    };
    if current.next_free > slot_end as u64 + 1 {
        return Err(SlotStateError::OutsideWindow { next: current.next_free, end: slot_end });
    }
    Ok(current)
}

// ---- text state --------------------------------------------------------------

/// Whether stored text announces the second text format.
pub open spec fn is_versioned(text: Seq<char>) -> bool {
    text.len() >= 3 && text.subrange(0, 3) == "v2 "@
}

/// What stored text says without its announcement.
pub open spec fn counter_words(text: Seq<char>) -> Seq<Seq<char>> {
    if is_versioned(text) {
        words(text.subrange(3, text.len() as int))
    } else {
        words(text)
    }
}

/// The next free slot that stored text names for a key, and whether the text is of
/// the first format, or what is wrong with it. The checks come in this order.
pub open spec fn parse_text_state(text: Seq<char>, key_tag: Seq<u8>) -> Result<
    (u64, bool),
    SlotStateError,
> {
    let w = counter_words(text);
    if w.len() == 0 {
        Err(SlotStateError::Empty)
    } else if w.len() == 1 {
        Err(SlotStateError::MissingCounter)
    } else if w[0] != hex_text(key_tag) {
        Err(SlotStateError::ForeignText)
    } else if parse_upto(w[1], u64::MAX as nat) is None {
        Err(SlotStateError::Unparseable)
    } else if w.len() > 2 {
        Err(SlotStateError::Trailing)
    } else {
        Ok((parse_upto(w[1], u64::MAX as nat)->0 as u64, !is_versioned(text)))
    }
}

/// What is wrong with stored text, in words.
pub open spec fn text_message(e: SlotStateError, text: Seq<char>) -> Seq<char> {
    e.message(
        if e is Unparseable {
            u64_error_text(counter_words(text)[1])
        } else {
            ""@
        },
    )
}

/// What is wrong with stored bytes, in words.
pub open spec fn bytes_message(e: SlotStateError, b: Seq<u8>) -> Seq<char> {
    if e is NotUtf8 {
        e.message(utf8_error_text(b))
    } else {
        text_message(e, decode_utf8(b))
    }
}

/// Whether `e` is the refusal of stored state in these words.
pub open spec fn refused_state(e: AtomicSlotCounterError, words: Seq<char>) -> bool {
    e matches AtomicSlotCounterError::State(text) && text@ == words
}

/// Whether `e` is the refusal to write after the last generation.
pub open spec fn refused_generation(e: AtomicSlotCounterError) -> bool {
    refused_state(e, "journal generation exhausted"@)
}

/// Reads state in one of the text formats that came before the journal.
pub fn parse_legacy(text: &str, key_tag: &[u8; 32]) -> (r: Result<(u64, bool), String>)
    ensures
        match r {
            Ok(state) => parse_text_state(text@, key_tag@) == Ok::<(u64, bool), SlotStateError>(
                state,
            ),
            Err(why) => parse_text_state(text@, key_tag@) is Err && why@ == text_message(
                parse_text_state(text@, key_tag@)->Err_0,
                text@,
            ),
        },
{
    let chars = chars_of(text);
    let prefix = chars_of("v2 ");
    proof {
        reveal_strlit("v2 ");
    }
    let versioned: bool = chars.len() >= 3 && crate::text::chars_eq(&chars[0..3], prefix.as_slice());
    let list = if versioned {
        let n: usize = chars.len();
        split_words(&chars[3..n])
    } else {
        split_words(chars.as_slice())
    };
    assert(counter_words(text@).len() == list@.len());
    if list.len() == 0 {
        return Err("empty state file".to_owned());
    }
    if list.len() == 1 {
        return Err("missing slot counter".to_owned());
    }
    assert(counter_words(text@)[0] == list@[0]@);
    assert(counter_words(text@)[1] == list@[1]@);
    let mut expected: String = String::new();
    push_hex(&mut expected, key_tag.as_slice());
    assert(expected@ =~= hex_text(key_tag@));
    if !is_text(list[0].as_slice(), expected.as_str()) {
        return Err("state file belongs to a different key".to_owned());
    }
    let counter = text_of(list[1].as_slice());
    match u64_or_why(counter.as_str()) {
        Err(why) => Err(joined("unparseable slot counter: ", why.as_str())),
        Ok(next) => if list.len() > 2 {
            Err("unexpected trailing data in state file".to_owned())
        } else {
            Ok((next, !versioned))
        },
    }
}

/// What a counter resumes at from stored bytes, and whether a journal has to be
/// installed first, or why it cannot.
pub open spec fn resumed(b: Seq<u8>, key_tag: Seq<u8>, end: u32) -> Result<
    (CounterView, bool),
    SlotStateError,
> {
    if b.len() == JOURNAL_SIZE {
        match recovered(b, key_tag, end) {
            Ok(r) => Ok(
                (CounterView { key_tag, generation: r.generation, next: r.next_free, end }, false),
            ),
            Err(e) => Err(e),
        }
    } else if !valid_utf8(b) {
        Err(SlotStateError::NotUtf8)
    } else {
        match parse_text_state(decode_utf8(b), key_tag) {
            Err(e) => Err(e),
            Ok((next, unversioned)) => if next > end as u64 + 1 {
                Err(SlotStateError::OutsideWindow { next, end })
            } else if unversioned && end == u32::MAX && next == u32::MAX {
                Err(SlotStateError::Ambiguous)
            } else {
                Ok((CounterView { key_tag, generation: 0, next, end }, true))
            },
        }
    }
}

// ---- the counter -------------------------------------------------------------

/// What a counter holds: whose it is, how often it was written, the next free
/// slot and the last usable one.
#[verifier::ext_equal]
pub struct CounterView {
    pub key_tag: Seq<u8>,
    pub generation: u64,
    pub next: u64,
    pub end: u32,
}

impl CounterView {
    /// Whether another record can be written.
    pub open spec fn can_write(self) -> bool {
        self.generation < u64::MAX
    }

    /// The record that makes every slot below `next_free` spent.
    pub open spec fn record(self, next_free: u64) -> RecordView {
        RecordView { generation: (self.generation + 1) as u64, next_free, key_tag: self.key_tag }
    }

    /// The counter after that record was written.
    pub open spec fn advanced(self, next_free: u64) -> CounterView {
        CounterView { generation: (self.generation + 1) as u64, next: next_free, ..self }
    }

    /// Whether the slot that is next may be handed out.
    pub open spec fn open_next(self) -> bool {
        self.next <= self.end
    }

    /// Whether a slot the protocol chose may be handed out.
    pub open spec fn open_at(self, requested: u32) -> bool {
        self.next <= requested <= self.end
    }
}

/// Bytes that have to be durable before a slot is handed out.
#[derive(Debug)]
pub struct PendingWrite {
    /// Where in the journal they go.
    pub offset: usize,
    pub bytes: Vec<u8>,
}

impl PendingWrite {
    /// Whether this writes `record` in its place.
    pub open spec fn writes(self, record: RecordView) -> bool {
        self.bytes@ == record.encode() && self.offset == 4096 * (record.generation as int % 2)
    }
}

/// Binds state to a public key.
fn key_fingerprint(pk: &XmssPublicKey) -> (tag: [u8; 32])
    ensures
        tag@ == sha3_256(pk@),
{
    sha3_256_digest(pk.as_bytes().as_slice())
}

fn new_journal(key_tag: [u8; 32], next_free: u64) -> (image: Vec<u8>)
    ensures
        image@ == journal_image(key_tag@, next_free),
{
    let mut image = encode_record(&JournalRecord { generation: 0, next_free, key_tag });
    push_zeros(&mut image, JOURNAL_SIZE - RECORD_SIZE);
    image
}

fn check_lock(lock: Locking) -> (r: Result<(), AtomicSlotCounterError>)
    ensures
        match lock {
            Locking::Acquired => r is Ok,
            Locking::WouldBlock => r is Err && r->Err_0 == AtomicSlotCounterError::Busy,
            Locking::Failed(why) => r is Err && r->Err_0 == AtomicSlotCounterError::Io(why),
        },
{
    match lock {
        Locking::Acquired => Ok(()),
        Locking::WouldBlock => Err(AtomicSlotCounterError::Busy),
        Locking::Failed(why) => Err(AtomicSlotCounterError::Io(why)),
    }
}

/// Every slot below the latest durable `next` is spent. Foreign state is refused
/// rather than reset.
#[derive(Debug)]
pub struct AtomicSlotCounter {
    key_tag: [u8; 32],
    generation: u64,
    next: u64,
    end: u32,
}

impl View for AtomicSlotCounter {
    type V = CounterView;

    closed spec fn view(&self) -> CounterView {
        CounterView {
            key_tag: self.key_tag@,
            generation: self.generation,
            next: self.next,
            end: self.end,
        }
    }
}

impl AtomicSlotCounter {
    /// Initialises the counter for a brand-new key. Whether state already `exists`
    /// is looked at while the lock is held; a counter that may be live is never
    /// reset. The journal that comes back is to be installed before the counter is
    /// used.
    pub fn create(
        path: &str,
        pk: &XmssPublicKey,
        slot_start: u32,
        slot_end: u32,
        lock: Locking,
        exists: bool,
    ) -> (r: Result<(AtomicSlotCounter, Vec<u8>), AtomicSlotCounterError>)
        ensures
            match lock {
                Locking::WouldBlock => r is Err && r->Err_0 == AtomicSlotCounterError::Busy,
                Locking::Failed(why) => r is Err && r->Err_0 == AtomicSlotCounterError::Io(why),
                Locking::Acquired => if exists {
                    r is Err && refused_state(
                        r->Err_0,
                        path@ + " already exists; refusing to reset a live counter"@,
                    )
                } else {
                    r is Ok && r->Ok_0.0@ == (CounterView {
                        key_tag: sha3_256(pk@),
                        generation: 0,
                        next: slot_start as u64,
                        end: slot_end,
                    }) && r->Ok_0.1@ == journal_image(sha3_256(pk@), slot_start as u64)
                },
            },
    {
        match check_lock(lock) {
            Err(e) => {
                return Err(e);
            },
            Ok(_) => {},
        }
        if exists {
            return Err(
                AtomicSlotCounterError::State(
                    joined(path, " already exists; refusing to reset a live counter"),
                ),
            );
        }
        let key_tag = key_fingerprint(pk);
        let next: u64 = slot_start as u64;
        let image = new_journal(key_tag, next);
        Ok((AtomicSlotCounter { key_tag, generation: 0, next, end: slot_end }, image))
    }

    /// Resumes an existing counter. State that is missing, truncated or foreign is
    /// an error, never a fresh start. Where the state was text, the journal that
    /// comes back is to be installed before the counter is used; it names the same
    /// next slot.
    pub fn open(
        path: &str,
        pk: &XmssPublicKey,
        slot_end: u32,
        lock: Locking,
        found: Stored,
    ) -> (r: Result<(AtomicSlotCounter, Option<Vec<u8>>), AtomicSlotCounterError>)
        ensures
            match (lock, found) {
                (Locking::WouldBlock, _) => r is Err && r->Err_0 == AtomicSlotCounterError::Busy,
                (Locking::Failed(why), _) => r is Err && r->Err_0 == AtomicSlotCounterError::Io(why),
                (Locking::Acquired, Stored::Bytes(bytes)) => match resumed(
                    bytes@,
                    sha3_256(pk@),
                    slot_end,
                ) {
                    Err(e) => r is Err && refused_state(r->Err_0, bytes_message(e, bytes@)),
                    Ok((counter, install)) => {
                        &&& r is Ok
                        &&& r->Ok_0.0@ == counter
                        &&& r->Ok_0.1 is Some == install
                        &&& install ==> r->Ok_0.1->0@ == journal_image(
                            counter.key_tag,
                            counter.next,
                        )
                    },
                },
                (Locking::Acquired, Stored::Missing(why)) => r is Err && refused_state(
                    r->Err_0,
                    "cannot read "@ + path@ + ": "@ + why@,
                ),
                (Locking::Acquired, Stored::Unreadable(why)) => r is Err && refused_state(
                    r->Err_0,
                    "cannot read "@ + path@ + ": "@ + why@,
                ),
            },
    {
        match check_lock(lock) {
            Err(e) => {
                return Err(e);
            },
            Ok(_) => {},
        }
        let raw: Vec<u8> = match found {
            Stored::Bytes(bytes) => bytes,
            Stored::Missing(why) | Stored::Unreadable(why) => {
                return Err(AtomicSlotCounterError::State(cannot_read(path, why.as_str())));
            },
        };
        let key_tag = key_fingerprint(pk);
        if raw.len() == JOURNAL_SIZE {
            match recover_journal(raw.as_slice(), &key_tag, slot_end) {
                Ok(current) => {
                    let counter = AtomicSlotCounter {
                        key_tag,
                        generation: current.generation,
                        next: current.next_free,
                        end: slot_end,
                    };
                    return Ok((counter, None));
                },
                Err(e) => {
                    return Err(AtomicSlotCounterError::State(e.text("")));
                },
            }
        }
        let text: String = match utf8_or_why(raw.as_slice()) {
            Ok(text) => text,
            Err(why) => {
                return Err(
                    AtomicSlotCounterError::State(SlotStateError::NotUtf8.text(why.as_str())),
                );
            },
        };
        match parse_legacy(text.as_str(), &key_tag) {
            Err(why) => Err(AtomicSlotCounterError::State(why)),
            Ok((next, unversioned)) => {
                if next > slot_end as u64 + 1 {
                    let outside = SlotStateError::OutsideWindow { next, end: slot_end };
                    return Err(AtomicSlotCounterError::State(outside.text("")));
                }
                if unversioned && slot_end == u32::MAX && next == u32::MAX as u64 {
                    return Err(AtomicSlotCounterError::State(SlotStateError::Ambiguous.text("")));
                }
                let image = new_journal(key_tag, next);
                Ok((AtomicSlotCounter { key_tag, generation: 0, next, end: slot_end }, Some(image)))
            },
        }
    }

    /// The next slot that would be handed out.
    pub fn next_slot(&self) -> (next: u64)
        ensures
            next == self@.next,
    {
        self.next
    }

    /// Slots left in the window.
    pub fn remaining(&self) -> (n: u64)
        ensures
            n == if self@.next <= self@.end {
                self@.end + 1 - self@.next
            } else {
                0
            },
    {
        (self.end as u64 + 1).saturating_sub(self.next)
    }

    fn pending(&self, next_free: u64) -> (write: PendingWrite)
        requires
            self@.can_write(),
        ensures
            write.writes(self@.record(next_free)),
    {
        let generation: u64 = self.generation + 1;
        let bytes = encode_record(
            &JournalRecord { generation, next_free, key_tag: self.key_tag },
        );
        let offset: usize = if generation % 2 == 0 {
            0
        } else {
            JOURNAL_SLOT_SIZE
        };
        PendingWrite { offset, bytes }
    }

    fn persist_next(&mut self, next_free: u64, written: Result<(), String>) -> (r: Result<
        (),
        AtomicSlotCounterError,
    >)
        ensures
            if !old(self)@.can_write() {
                &&& r is Err
                &&& refused_generation(r->Err_0)
                &&& final(self)@ == old(self)@
            } else {
                match written {
                    Ok(_) => r is Ok && final(self)@ == old(self)@.advanced(next_free),
                    Err(why) => r is Err && r->Err_0 == AtomicSlotCounterError::Io(why)
                        && final(self)@ == old(self)@,
                }
            },
    {
        if self.generation == u64::MAX {
            return Err(
                AtomicSlotCounterError::State("journal generation exhausted".to_owned()),
            );
        }
        match written {
            Ok(_) => {
                self.generation = self.generation + 1;
                self.next = next_free;
                Ok(())
            },
            Err(why) => Err(AtomicSlotCounterError::Io(why)),
        }
    }

    /// What has to be durable before the next slot may be handed out; nothing when
    /// it is refused anyway.
    pub fn reservation(&self) -> (write: Option<PendingWrite>)
        ensures
            match write {
                Some(w) => self@.open_next() && self@.can_write() && w.writes(
                    self@.record((self@.next + 1) as u64),
                ),
                None => !self@.open_next() || !self@.can_write(),
            },
    {
        if self.next > self.end as u64 || self.generation == u64::MAX {
            None
        } else {
            Some(self.pending(self.next + 1))
        }
    }

    /// Reserves the next slot. `written` is what came of storing
    /// [`AtomicSlotCounter::reservation`]: only a slot that is durably spent comes
    /// back, and it stays spent whatever the caller does with it.
    pub fn reserve(&mut self, written: Result<(), String>) -> (r: Result<
        u32,
        AtomicSlotCounterError,
    >)
        ensures
            if !old(self)@.open_next() {
                &&& r is Err
                &&& r->Err_0 == (AtomicSlotCounterError::Exhausted {
                    next: old(self)@.next,
                    end: old(self)@.end,
                })
                &&& final(self)@ == old(self)@
            } else if !old(self)@.can_write() {
                &&& r is Err
                &&& refused_generation(r->Err_0)
                &&& final(self)@ == old(self)@
            } else {
                match written {
                    Err(why) => r is Err && r->Err_0 == AtomicSlotCounterError::Io(why)
                        && final(self)@ == old(self)@,
                    Ok(_) => r == Ok::<u32, AtomicSlotCounterError>(old(self)@.next as u32)
                        && final(self)@ == old(self)@.advanced((old(self)@.next + 1) as u64),
                }
            },
    {
        if self.next > self.end as u64 {
            return Err(AtomicSlotCounterError::Exhausted { next: self.next, end: self.end });
        }
        let slot: u32 = self.next as u32;
        let target: u64 = self.next + 1;
        match self.persist_next(target, written) {
            Ok(_) => Ok(slot),
            Err(e) => Err(e),
        }
    }

    /// What has to be durable before the slot the protocol chose may be handed
    /// out; nothing when it is refused anyway.
    pub fn reservation_at(&self, requested: u32) -> (write: Option<PendingWrite>)
        ensures
            match write {
                Some(w) => self@.open_at(requested) && self@.can_write() && w.writes(
                    self@.record((requested + 1) as u64),
                ),
                None => !self@.open_at(requested) || !self@.can_write(),
            },
    {
        if self.next > requested as u64 || requested > self.end || self.generation == u64::MAX {
            None
        } else {
            Some(self.pending(requested as u64 + 1))
        }
    }

    /// Reserves the slot the protocol chose rather than the next local one. Every
    /// slot up to it is burned with the one write; a slot in the past is refused,
    /// which is also what keeps a version from being signed twice. `written` is
    /// what came of storing [`AtomicSlotCounter::reservation_at`].
    pub fn reserve_at(&mut self, requested: u32, written: Result<(), String>) -> (r: Result<
        u32,
        AtomicSlotCounterError,
    >)
        ensures
            if !old(self)@.open_next() || requested > old(self)@.end {
                &&& r is Err
                &&& r->Err_0 == (AtomicSlotCounterError::Exhausted {
                    next: if old(self)@.next >= requested {
                        old(self)@.next
                    } else {
                        requested as u64
                    },
                    end: old(self)@.end,
                })
                &&& final(self)@ == old(self)@
            } else if requested < old(self)@.next {
                &&& r is Err
                &&& r->Err_0 == (AtomicSlotCounterError::AlreadySpent {
                    requested,
                    next: old(self)@.next,
                })
                &&& final(self)@ == old(self)@
            } else if !old(self)@.can_write() {
                &&& r is Err
                &&& refused_generation(r->Err_0)
                &&& final(self)@ == old(self)@
            } else {
                match written {
                    Err(why) => r is Err && r->Err_0 == AtomicSlotCounterError::Io(why)
                        && final(self)@ == old(self)@,
                    Ok(_) => r == Ok::<u32, AtomicSlotCounterError>(requested) && final(self)@
                        == old(self)@.advanced((requested + 1) as u64),
                }
            },
    {
        let wide: u64 = requested as u64;
        if self.next > self.end as u64 || requested > self.end {
            let next: u64 = if self.next >= wide {
                self.next
            } else {
                wide
            };
            return Err(AtomicSlotCounterError::Exhausted { next, end: self.end });
        }
        if wide < self.next {
            return Err(AtomicSlotCounterError::AlreadySpent { requested, next: self.next });
        }
        match self.persist_next(wide + 1, written) {
            Ok(_) => Ok(requested),
            Err(e) => Err(e),
        }
    }
}

// ---- laws --------------------------------------------------------------------

/// One step in the life of a counter: a slot was handed out, or it was resumed
/// from what its own journal held, or nothing changed.
pub open spec fn stepped(before: CounterView, slot: Option<u32>, after: CounterView) -> bool {
    match slot {
        Some(s) => before.next <= s <= before.end && after == before.advanced((s + 1) as u64),
        None => after.next >= before.next,
    }
}

/// No slot is handed out twice: over any run of reservations, failed attempts and
/// restarts, slots come out in strictly ascending order.
pub proof fn law_no_slot_is_handed_out_twice(
    counters: Seq<CounterView>,
    slots: Seq<Option<u32>>,
    i: int,
    j: int,
)
    requires
        counters.len() == slots.len() + 1,
        forall|k: int|
            0 <= k < slots.len() ==> stepped(#[trigger] counters[k], slots[k], counters[k + 1]),
        0 <= i < j < slots.len(),
        slots[i] is Some,
        slots[j] is Some,
    ensures
        slots[i]->0 < slots[j]->0,
{
    lemma_next_grows(counters, slots, i + 1, j);
    assert(stepped(counters[i], slots[i], counters[i + 1]));
    assert(stepped(counters[j], slots[j], counters[j + 1]));
}

proof fn lemma_next_grows(counters: Seq<CounterView>, slots: Seq<Option<u32>>, i: int, j: int)
    requires
        counters.len() == slots.len() + 1,
        forall|k: int|
            0 <= k < slots.len() ==> stepped(#[trigger] counters[k], slots[k], counters[k + 1]),
        0 <= i <= j < counters.len(),
    ensures
        counters[i].next <= counters[j].next,
    decreases j - i,
{
    if i < j {
        assert(stepped(counters[i], slots[i], counters[i + 1]));
        lemma_next_grows(counters, slots, i + 1, j);
    }
}

/// A counter whose last write is complete resumes exactly where it stood.
pub proof fn law_a_restart_resumes_where_the_counter_stood(
    journal: Seq<u8>,
    counter: CounterView,
    next_free: u64,
)
    requires
        counter.key_tag.len() == 32,
        resumed(journal, counter.key_tag, counter.end) == Ok::<(CounterView, bool), SlotStateError>(
            (counter, false),
        ),
        counter.can_write(),
        counter.next < next_free <= counter.end + 1,
    ensures
        resumed(
            with_record(journal, counter.record(next_free)),
            counter.key_tag,
            counter.end,
        ) == Ok::<(CounterView, bool), SlotStateError>((counter.advanced(next_free), false)),
{
    let current = recovered(journal, counter.key_tag, counter.end)->Ok_0;
    assert(current.generation == counter.generation && current.next_free == counter.next);
    law_a_completed_write_is_recovered(
        journal,
        counter.key_tag,
        counter.end,
        current,
        next_free,
    );
    lemma_record_len(counter.record(next_free));
    lemma_overwritten(
        journal,
        counter.record(next_free).generation as int % 2,
        counter.record(next_free).encode(),
    );
}

/// A counter whose last write was interrupted resumes where it stood before: at
/// a slot that was not handed out, and past all that were.
pub proof fn law_a_torn_write_loses_no_slot(journal: Seq<u8>, counter: CounterView, torn: Seq<u8>)
    requires
        resumed(journal, counter.key_tag, counter.end) == Ok::<(CounterView, bool), SlotStateError>(
            (counter, false),
        ),
        counter.can_write(),
        torn.len() == RECORD_SIZE,
        !usable(decode_record_at(torn, (counter.generation + 1) % 2)),
    ensures
        resumed(
            overwritten(journal, 4096 * ((counter.generation + 1) % 2), torn),
            counter.key_tag,
            counter.end,
        ) == Ok::<(CounterView, bool), SlotStateError>((counter, false)),
{
    let current = recovered(journal, counter.key_tag, counter.end)->Ok_0;
    law_a_torn_write_recovers_the_previous_record(
        journal,
        counter.key_tag,
        counter.end,
        current,
        torn,
    );
    lemma_overwritten(journal, (counter.generation + 1) % 2, torn);
}

/// Moving text state into a journal keeps the next free slot.
pub proof fn law_migration_keeps_the_frontier(text: Seq<u8>, key_tag: Seq<u8>, counter: CounterView)
    requires
        key_tag.len() == 32,
        resumed(text, key_tag, counter.end) == Ok::<(CounterView, bool), SlotStateError>(
            (counter, true),
        ),
    ensures
        resumed(journal_image(key_tag, counter.next), key_tag, counter.end) == Ok::<
            (CounterView, bool),
            SlotStateError,
        >((counter, false)),
{
    law_a_new_journal_is_recovered(key_tag, counter.next, counter.end);
    lemma_record_len(RecordView { generation: 0, next_free: counter.next, key_tag });
}

// ---- in words ----------------------------------------------------------------

impl RecordError {
    /// The refusal in words.
    pub open spec fn message(self) -> Seq<char> {
        match self {
            RecordError::WrongLength => "wrong record length"@,
            RecordError::WrongMagic => "wrong journal magic"@,
            RecordError::ReservedBytes => "non-zero reserved bytes"@,
            RecordError::Checksum => "checksum mismatch"@,
            RecordError::WrongSlot => "generation is stored in the wrong journal slot"@,
        }
    }

    /// The refusal in words.
    pub fn text(&self) -> (text: String)
        ensures
            text@ == self.message(),
    {
        match self {
            RecordError::WrongLength => "wrong record length".to_owned(),
            RecordError::WrongMagic => "wrong journal magic".to_owned(),
            RecordError::ReservedBytes => "non-zero reserved bytes".to_owned(),
            RecordError::Checksum => "checksum mismatch".to_owned(),
            RecordError::WrongSlot => "generation is stored in the wrong journal slot".to_owned(),
        }
    }
}

/// What is wrong with the two places of a journal without a usable record.
pub open spec fn places_text(first: Option<RecordError>, second: Option<RecordError>) -> Seq<char> {
    match (first, second) {
        (None, None) => "both records are empty"@,
        (Some(e), None) => "record 0: "@ + e.message(),
        (None, Some(e)) => "record 1: "@ + e.message(),
        (Some(e), Some(f)) => "record 0: "@ + e.message() + "; record 1: "@ + f.message(),
    }
}

fn push_places(text: &mut String, first: Option<RecordError>, second: Option<RecordError>)
    ensures
        final(text)@ == old(text)@ + places_text(first, second),
{
    let ghost before = text@;
    match (first, second) {
        (None, None) => {
            text.append("both records are empty");
        },
        (Some(e), None) => {
            text.append("record 0: ");
            text.append(e.text().as_str());
        },
        (None, Some(e)) => {
            text.append("record 1: ");
            text.append(e.text().as_str());
        },
        (Some(e), Some(f)) => {
            text.append("record 0: ");
            text.append(e.text().as_str());
            text.append("; record 1: ");
            text.append(f.text().as_str());
        },
    }
    assert(text@ =~= before + places_text(first, second));
}

impl SlotStateError {
    /// The refusal in words. `detail` is what is said of bytes that are not UTF-8 and of
    /// a counter that is no number.
    pub open spec fn message(self, detail: Seq<char>) -> Seq<char> {
        match self {
            SlotStateError::JournalLength { len } => "journal has length "@ + decimal(len as nat)
                + ", expected 8192"@,
            SlotStateError::NoValidRecord { first, second } => "journal contains no valid record ("@
                + places_text(first, second) + ")"@,
            SlotStateError::ForeignJournal => "journal belongs to a different key or mixes keys"@,
            SlotStateError::NotMonotonic => {
                "journal records are not one monotonic generation apart"@
            },
            SlotStateError::OutsideWindow { next, end } => "persisted next slot "@ + decimal(
                next as nat,
            ) + " is outside this key's window ending at "@ + decimal(end as nat),
            SlotStateError::NotUtf8 => "state is neither a journal nor UTF-8: "@ + detail,
            SlotStateError::Empty => "empty state file"@,
            SlotStateError::MissingCounter => "missing slot counter"@,
            SlotStateError::ForeignText => "state file belongs to a different key"@,
            SlotStateError::Unparseable => "unparseable slot counter: "@ + detail,
            SlotStateError::Trailing => "unexpected trailing data in state file"@,
            SlotStateError::Ambiguous => {
                "legacy state at u32::MAX is ambiguous; refusing to risk slot reuse"@
            },
        }
    }

    /// The refusal in words.
    pub fn text(&self, detail: &str) -> (text: String)
        ensures
            text@ == self.message(detail@),
    {
        match self {
            SlotStateError::JournalLength { len } => {
                let mut text: String = "journal has length ".to_owned();
                push_decimal(&mut text, *len as u64);
                text.append(", expected 8192");
                text
            },
            SlotStateError::NoValidRecord { first, second } => {
                let mut text: String = "journal contains no valid record (".to_owned();
                push_places(&mut text, *first, *second);
                text.append(")");
                text
            },
            SlotStateError::ForeignJournal => {
                "journal belongs to a different key or mixes keys".to_owned()
            },
            SlotStateError::NotMonotonic => {
                "journal records are not one monotonic generation apart".to_owned()
            },
            SlotStateError::OutsideWindow { next, end } => {
                let mut text: String = "persisted next slot ".to_owned();
                push_decimal(&mut text, *next);
                text.append(" is outside this key's window ending at ");
                push_decimal(&mut text, *end as u64);
                text
            },
            SlotStateError::NotUtf8 => joined("state is neither a journal nor UTF-8: ", detail),
            SlotStateError::Empty => "empty state file".to_owned(),
            SlotStateError::MissingCounter => "missing slot counter".to_owned(),
            SlotStateError::ForeignText => "state file belongs to a different key".to_owned(),
            SlotStateError::Unparseable => joined("unparseable slot counter: ", detail),
            SlotStateError::Trailing => "unexpected trailing data in state file".to_owned(),
            SlotStateError::Ambiguous => {
                "legacy state at u32::MAX is ambiguous; refusing to risk slot reuse".to_owned()
            },
        }
    }
}

impl AtomicSlotCounterError {
    /// The refusal in words.
    pub open spec fn message(self) -> Seq<char> {
        match self {
            AtomicSlotCounterError::Exhausted { next, end } => "slot window exhausted (next "@
                + decimal(next as nat) + " > end "@ + decimal(end as nat) + "); re-key required"@,
            AtomicSlotCounterError::AlreadySpent { requested, next } => "slot "@ + decimal(
                requested as nat,
            ) + " already spent (next free "@ + decimal(next as nat)
                + "); abstaining from this round"@,
            AtomicSlotCounterError::State(why) => "unusable slot state: "@ + why@,
            AtomicSlotCounterError::Busy => "another process holds this key"@,
            AtomicSlotCounterError::Io(why) => "slot state I/O failed: "@ + why@,
        }
    }

    /// The refusal in words.
    pub fn text(&self) -> (text: String)
        ensures
            text@ == self.message(),
    {
        match self {
            AtomicSlotCounterError::Exhausted { next, end } => {
                let mut text: String = "slot window exhausted (next ".to_owned();
                push_decimal(&mut text, *next);
                text.append(" > end ");
                push_decimal(&mut text, *end as u64);
                text.append("); re-key required");
                text
            },
            AtomicSlotCounterError::AlreadySpent { requested, next } => {
                let mut text: String = "slot ".to_owned();
                push_decimal(&mut text, *requested as u64);
                text.append(" already spent (next free ");
                push_decimal(&mut text, *next);
                text.append("); abstaining from this round");
                text
            },
            AtomicSlotCounterError::State(why) => joined("unusable slot state: ", why.as_str()),
            AtomicSlotCounterError::Busy => "another process holds this key".to_owned(),
            AtomicSlotCounterError::Io(why) => joined("slot state I/O failed: ", why.as_str()),
        }
    }
}

// ---- what the bytes mean -----------------------------------------------------

/// A record that can be used is written in one way: its bytes are the encoding of what it
/// says, checksum and all, in the place that its generation belongs to. A place counts as
/// empty when it holds nothing but zero bytes.
pub proof fn law_a_usable_record_has_one_form(b: Seq<u8>, slot: int, r: RecordView)
    ensures
        decode_record_at(b, slot) == Ok::<Option<RecordView>, RecordError>(Some(r)) ==> {
            &&& b == r.encode()
            &&& r.key_tag.len() == 32
            &&& r.generation as int % 2 == slot
        },
        decode_record_at(b, slot) == Ok::<Option<RecordView>, RecordError>(None) <==> b == Seq::new(
            128,
            |i: int| 0u8,
        ),
{
    reveal(decode_record_at);
    lemma_magic();
    if b == Seq::new(128, |i: int| 0u8) {
        assert(all_zero(b));
    }
    if b.len() == 128 && all_zero(b) {
        assert(b =~= Seq::new(128, |i: int| 0u8));
    }
    if decode_record_at(b, slot) == Ok::<Option<RecordView>, RecordError>(Some(r)) {
        lemma_from_le64(b.subrange(8, 16));
        lemma_from_le64(b.subrange(16, 24));
        let z = Seq::new(40, |i: int| 0u8);
        assert(b.subrange(56, 96) =~= z);
        let body = magic() + le64(r.generation) + le64(r.next_free) + r.key_tag + z;
        assert(b.subrange(0, 96) =~= body);
        assert(b =~= b.subrange(0, 96) + b.subrange(96, 128));
    }
}

/// A place that is neither empty nor usable is refused for the first thing that is wrong
/// with it: its length, its opening, bytes that are reserved, its checksum, or the place it
/// stands in.
pub proof fn law_a_damaged_record_is_told_apart(b: Seq<u8>, slot: int)
    ensures
        ({
            let r = decode_record_at(b, slot);
            let there = b.len() == 128 && b != Seq::new(128, |i: int| 0u8);
            let opened = there && b.subrange(0, 8) == "DROTSL03".spec_bytes();
            let clear = opened && b.subrange(56, 96) == Seq::new(40, |i: int| 0u8);
            let sound = clear && b.subrange(96, 128) == sha3_256(b.subrange(0, 96));
            let placed = sound && from_le64(b.subrange(8, 16)) as int % 2 == slot;
            &&& r == Err::<Option<RecordView>, RecordError>(RecordError::WrongLength) <==> b.len()
                != 128
            &&& r == Err::<Option<RecordView>, RecordError>(RecordError::WrongMagic) <==> there
                && !opened
            &&& r == Err::<Option<RecordView>, RecordError>(RecordError::ReservedBytes) <==> opened
                && !clear
            &&& r == Err::<Option<RecordView>, RecordError>(RecordError::Checksum) <==> clear
                && !sound
            &&& r == Err::<Option<RecordView>, RecordError>(RecordError::WrongSlot) <==> sound
                && !placed
            &&& usable(r) <==> placed
        }),
{
    reveal(decode_record_at);
    if b.len() == 128 {
        if all_zero(b) {
            assert(b =~= Seq::new(128, |i: int| 0u8));
        }
        let middle = b.subrange(56, 96);
        if all_zero(middle) {
            assert(middle =~= Seq::new(40, |i: int| 0u8));
        }
    }
}

/// The record in force is the later of two that follow one another, or the only one there
/// is; it belongs to the key, its next slot lies in the window or directly behind it, and no
/// usable record in the journal names a higher slot.
pub proof fn law_the_record_in_force_is_the_latest(
    p0: Result<Option<RecordView>, RecordError>,
    p1: Result<Option<RecordView>, RecordError>,
    key_tag: Seq<u8>,
    end: u32,
    older: RecordView,
    newer: RecordView,
)
    ensures
        ({
            let r = chosen(p0, p1, key_tag, end);
            let is = |p: Result<Option<RecordView>, RecordError>, x: RecordView|
                p == Ok::<Option<RecordView>, RecordError>(Some(x));
            let two = (is(p0, older) && is(p1, newer)) || (is(p0, newer) && is(p1, older));
            let one = (is(p0, newer) && !usable(p1)) || (!usable(p0) && is(p1, newer));
            let ours = newer.key_tag == key_tag && (two ==> older.key_tag == key_tag);
            let next = newer.generation == older.generation + 1 && newer.next_free
                > older.next_free;
            let inside = newer.next_free <= end + 1;
            &&& (two && next || one) && ours && inside ==> r == Ok::<RecordView, SlotStateError>(
                newer,
            )
            &&& (two && next || one) && ours && !inside ==> r == Err::<RecordView, SlotStateError>(
                SlotStateError::OutsideWindow { next: newer.next_free, end },
            )
            &&& (two || one) && !ours ==> r == Err::<RecordView, SlotStateError>(
                SlotStateError::ForeignJournal,
            )
            &&& two && ours && !next && !(older.generation == newer.generation + 1
                && older.next_free > newer.next_free) ==> r == Err::<RecordView, SlotStateError>(
                SlotStateError::NotMonotonic,
            )
            &&& r is Ok ==> {
                let c = r->Ok_0;
                &&& is(p0, c) || is(p1, c)
                &&& c.key_tag == key_tag
                &&& c.next_free <= end + 1
                &&& usable(p0) ==> p0->Ok_0->0.next_free <= c.next_free
                &&& usable(p1) ==> p1->Ok_0->0.next_free <= c.next_free
            }
            &&& !usable(p0) && !usable(p1) ==> r == Err::<RecordView, SlotStateError>(
                SlotStateError::NoValidRecord {
                    first: match p0 {
                        Err(e) => Some(e),
                        Ok(_) => None,
                    },
                    second: match p1 {
                        Err(e) => Some(e),
                        Ok(_) => None,
                    },
                },
            )
        }),
{
}

/// A journal that is recovered holds the recovered record: its bytes stand at the start of
/// the half that its generation belongs to.
pub proof fn law_what_is_recovered_is_in_the_journal(
    b: Seq<u8>,
    key_tag: Seq<u8>,
    end: u32,
    r: RecordView,
)
    requires
        recovered(b, key_tag, end) == Ok::<RecordView, SlotStateError>(r),
    ensures
        b.len() == 8192,
        r.key_tag == key_tag,
        r.next_free <= end + 1,
        ({
            let at = 4096 * (r.generation as int % 2);
            b.subrange(at, at + 128) == r.encode()
        }),
{
    lemma_places(b);
    law_a_usable_record_has_one_form(b.subrange(0, 128), 0, r);
    law_a_usable_record_has_one_form(b.subrange(4096, 4224), 1, r);
}

/// Performing a write that spends slots, where it says and with the bytes it has, makes the
/// journal resume behind them.
pub proof fn law_a_performed_write_spends_its_slots(
    journal: Seq<u8>,
    counter: CounterView,
    next_free: u64,
    w: PendingWrite,
)
    requires
        counter.key_tag.len() == 32,
        resumed(journal, counter.key_tag, counter.end) == Ok::<(CounterView, bool), SlotStateError>(
            (counter, false),
        ),
        counter.generation < u64::MAX,
        counter.next < next_free <= counter.end + 1,
        w.writes(counter.record(next_free)),
    ensures
        w.offset + w.bytes@.len() <= journal.len(),
        resumed(
            journal.subrange(0, w.offset as int) + w.bytes@ + journal.subrange(
                w.offset + w.bytes@.len(),
                journal.len() as int,
            ),
            counter.key_tag,
            counter.end,
        ) == Ok::<(CounterView, bool), SlotStateError>(
            (
                CounterView {
                    key_tag: counter.key_tag,
                    generation: (counter.generation + 1) as u64,
                    next: next_free,
                    end: counter.end,
                },
                false,
            ),
        ),
{
    law_a_restart_resumes_where_the_counter_stood(journal, counter, next_free);
    lemma_record_len(counter.record(next_free));
}

/// Exactly the slots from the next free one to the last of the window may be handed out, and
/// handing one out closes it and everything below, and nothing above.
pub proof fn law_handing_out_a_slot_closes_those_up_to_it(
    counter: CounterView,
    slot: u32,
    other: u32,
)
    ensures
        counter.open_at(slot) <==> counter.next <= slot && slot <= counter.end,
        counter.open_next() <==> counter.next <= counter.end,
        counter.open_at(slot) ==> (counter.advanced((slot + 1) as u64).open_at(other) <==> other
            > slot && counter.open_at(other)),
        counter.advanced((slot + 1) as u64).key_tag == counter.key_tag,
        counter.advanced((slot + 1) as u64).end == counter.end,
        counter.advanced((slot + 1) as u64).next == slot + 1,
        counter.can_write() <==> counter.generation < u64::MAX,
        counter.can_write() ==> counter.record((slot + 1) as u64).generation == counter.generation
            + 1,
        counter.record((slot + 1) as u64).next_free == slot + 1,
        counter.record((slot + 1) as u64).key_tag == counter.key_tag,
{
}

proof fn lemma_text_words(key_tag: Seq<u8>, next: u64)
    requires
        key_tag.len() == 32,
    ensures
        ({
            let plain = hex_text(key_tag) + " "@ + decimal(next as nat) + "\n"@;
            &&& !is_versioned(plain)
            &&& counter_words(plain) == seq![hex_text(key_tag), decimal(next as nat)]
            &&& is_versioned("v2 "@ + plain)
            &&& counter_words("v2 "@ + plain) == seq![hex_text(key_tag), decimal(next as nat)]
            &&& parse_upto(decimal(next as nat), u64::MAX as nat) == Some(next as nat)
        }),
{
    let (tag, number) = (hex_text(key_tag), decimal(next as nat));
    let plain = tag + " "@ + number + "\n"@;
    lemma_hex_is_word(key_tag);
    lemma_decimal_is_word(next as nat);
    lemma_two_words(tag, number);
    lemma_parse_decimal(next as nat);
    reveal_strlit("v2 ");
    law_a_byte_is_two_hexadecimal_digits(key_tag, 0);
    assert(plain[0] == tag[0]);
    assert("v2 "@[0] == 'v');
    if is_versioned(plain) {
        assert(plain.subrange(0, 3)[0] == 'v');
    }
    let marked = "v2 "@ + plain;
    assert(marked.subrange(0, 3) =~= "v2 "@);
    assert(marked.subrange(3, marked.len() as int) =~= plain);
}

/// State in a text format names the key and the next free slot: the slot is read back, with
/// or without the announcement of the second format, and another key is refused.
pub proof fn law_text_state_is_read_back(key_tag: Seq<u8>, next: u64, other: Seq<u8>)
    requires
        key_tag.len() == 32,
    ensures
        ({
            let plain = hex_text(key_tag) + " "@ + decimal(next as nat) + "\n"@;
            &&& parse_text_state(plain, key_tag) == Ok::<(u64, bool), SlotStateError>((next, true))
            &&& parse_text_state("v2 "@ + plain, key_tag) == Ok::<(u64, bool), SlotStateError>(
                (next, false),
            )
            &&& other != key_tag ==> parse_text_state(plain, other) == Err::<
                (u64, bool),
                SlotStateError,
            >(SlotStateError::ForeignText)
            &&& other != key_tag ==> parse_text_state("v2 "@ + plain, other) == Err::<
                (u64, bool),
                SlotStateError,
            >(SlotStateError::ForeignText)
        }),
{
    lemma_text_words(key_tag, next);
    if hex_text(key_tag) == hex_text(other) {
        lemma_hex_injective(key_tag, other);
    }
}

/// Text state is two words behind an optional announcement, the key's fingerprint and a
/// number; everything else is refused for what is wrong with it first.
pub proof fn law_text_state_is_two_words(text: Seq<char>, key_tag: Seq<u8>)
    ensures
        ({
            let r = parse_text_state(text, key_tag);
            let marked = text.len() >= 3 && text.subrange(0, 3) == "v2 "@;
            let w = words(
                if marked {
                    text.subrange(3, text.len() as int)
                } else {
                    text
                },
            );
            let ours = w.len() >= 2 && w[0] == hex_text(key_tag);
            let number = parse_upto(w[1], u64::MAX as nat);
            &&& r is Ok <==> w.len() == 2 && ours && number is Some
            &&& r is Ok ==> r->Ok_0.0 == number->0 && r->Ok_0.1 == !marked
            &&& w.len() == 0 <==> r == Err::<(u64, bool), SlotStateError>(SlotStateError::Empty)
            &&& w.len() == 1 <==> r == Err::<(u64, bool), SlotStateError>(
                SlotStateError::MissingCounter,
            )
            &&& w.len() >= 2 && !ours <==> r == Err::<(u64, bool), SlotStateError>(
                SlotStateError::ForeignText,
            )
            &&& ours && number is None <==> r == Err::<(u64, bool), SlotStateError>(
                SlotStateError::Unparseable,
            )
            &&& ours && number is Some && w.len() > 2 <==> r == Err::<(u64, bool), SlotStateError>(
                SlotStateError::Trailing,
            )
        }),
{
}

/// A counter resumes from text state at the slot it names, if that lies in the key's window
/// or directly behind it; only a text of the first format at the very last slot is refused
/// as ambiguous. Bytes that are neither a journal nor text are refused.
pub proof fn law_text_state_is_resumed_at_its_slot(
    b: Seq<u8>,
    key_tag: Seq<u8>,
    end: u32,
    next: u64,
    first_format: bool,
)
    requires
        b.len() != 8192,
    ensures
        !valid_utf8(b) ==> resumed(b, key_tag, end) == Err::<(CounterView, bool), SlotStateError>(
            SlotStateError::NotUtf8,
        ),
        valid_utf8(b) && parse_text_state(decode_utf8(b), key_tag) == Ok::<
            (u64, bool),
            SlotStateError,
        >((next, first_format)) ==> resumed(b, key_tag, end) == if next > end + 1 {
            Err::<(CounterView, bool), SlotStateError>(SlotStateError::OutsideWindow { next, end })
        } else if first_format && end == u32::MAX && next == u32::MAX {
            Err::<(CounterView, bool), SlotStateError>(SlotStateError::Ambiguous)
        } else {
            Ok::<(CounterView, bool), SlotStateError>(
                (CounterView { key_tag, generation: 0, next, end }, true),
            )
        },
{
}

/// A journal of the right length is resumed at its record in force, and one of another
/// length is recovered as nothing.
pub proof fn law_a_journal_is_resumed_at_its_record(b: Seq<u8>, key_tag: Seq<u8>, end: u32)
    ensures
        b.len() == 8192 && recovered(b, key_tag, end) is Ok ==> resumed(b, key_tag, end) == Ok::<
            (CounterView, bool),
            SlotStateError,
        >(
            (
                CounterView {
                    key_tag,
                    generation: recovered(b, key_tag, end)->Ok_0.generation,
                    next: recovered(b, key_tag, end)->Ok_0.next_free,
                    end,
                },
                false,
            ),
        ),
        b.len() == 8192 && recovered(b, key_tag, end) is Err ==> resumed(b, key_tag, end) == Err::<
            (CounterView, bool),
            SlotStateError,
        >(recovered(b, key_tag, end)->Err_0),
        b.len() != 8192 ==> recovered(b, key_tag, end) == Err::<RecordView, SlotStateError>(
            SlotStateError::JournalLength { len: b.len() as usize },
        ),
{
}

/// A new counter starts at the first slot of its window, and opening the journal that was
/// made for it gives it back with nothing left to install. Where state already exists, no
/// counter is created.
pub proof fn law_a_created_counter_is_opened_again(
    path: &str,
    pk: &XmssPublicKey,
    slot_start: u32,
    slot_end: u32,
    created: Result<(AtomicSlotCounter, Vec<u8>), AtomicSlotCounterError>,
    opened: Result<(AtomicSlotCounter, Option<Vec<u8>>), AtomicSlotCounterError>,
    again: Result<(AtomicSlotCounter, Vec<u8>), AtomicSlotCounterError>,
)
    requires
        slot_start <= slot_end + 1,
        call_ensures(
            AtomicSlotCounter::create,
            (path, pk, slot_start, slot_end, Locking::Acquired, false),
            created,
        ),
        created is Ok ==> call_ensures(
            AtomicSlotCounter::open,
            (path, pk, slot_end, Locking::Acquired, Stored::Bytes((created->Ok_0).1)),
            opened,
        ),
        call_ensures(
            AtomicSlotCounter::create,
            (path, pk, slot_start, slot_end, Locking::Acquired, true),
            again,
        ),
    ensures
        created is Ok,
        (created->Ok_0).0@ == (CounterView {
            key_tag: sha3_256(pk@),
            generation: 0,
            next: slot_start as u64,
            end: slot_end,
        }),
        opened is Ok,
        (opened->Ok_0).0@ == (created->Ok_0).0@,
        (opened->Ok_0).1 is None,
        again is Err,
{
    let tag = sha3_256(pk@);
    law_a_new_journal_is_recovered(tag, slot_start as u64, slot_end);
    lemma_record_len(RecordView { generation: 0, next_free: slot_start as u64, key_tag: tag });
}

} // verus!

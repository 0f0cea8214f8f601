//! Slot counters and the members that sign with them, over a journal in memory.
use decentralized_root_of_trust::hash::hash_any;
use decentralized_root_of_trust::node::signer::{SignerNode, SignerNodeError};
use decentralized_root_of_trust::protocol::xmss::{
    XmssPublicKey, XmssSignature, SIGNATURE_SSZ_LEN,
};
use decentralized_root_of_trust::state::slot_counter::{
    decode_checked, decode_record, encode_record, recover_journal, AtomicSlotCounter,
    AtomicSlotCounterError, JournalRecord, PendingWrite, RecordError, SlotStateError,
    CHECKSUM_OFFSET, JOURNAL_SIZE, JOURNAL_SLOT_SIZE, RECORD_SIZE,
};
use decentralized_root_of_trust::state::{Locking, Stored};

const PATH: &str = "state/slots";

/// What is found where nothing is.
fn nothing() -> Stored {
    Stored::Missing("no such file".to_string())
}

struct Disk {
    file: Option<Vec<u8>>,
    locked: bool,
}

type Opened = Result<AtomicSlotCounter, AtomicSlotCounterError>;

impl Disk {
    fn empty() -> Disk {
        Disk { file: None, locked: false }
    }

    fn holding(contents: &[u8]) -> Disk {
        Disk { file: Some(contents.to_vec()), locked: false }
    }

    fn lock(&mut self) -> Locking {
        if self.locked {
            Locking::WouldBlock
        } else {
            self.locked = true;
            Locking::Acquired
        }
    }

    fn release(&mut self) {
        self.locked = false;
    }

    fn create(&mut self, pk: &XmssPublicKey, start: u32, end: u32) -> Opened {
        let lock = self.lock();
        let taken = matches!(lock, Locking::Acquired);
        match AtomicSlotCounter::create(PATH, pk, start, end, lock, self.file.is_some()) {
            Ok((counter, image)) => {
                self.file = Some(image);
                Ok(counter)
            }
            Err(e) => {
                if taken {
                    self.release();
                }
                Err(e)
            }
        }
    }

    fn open(&mut self, pk: &XmssPublicKey, end: u32) -> Opened {
        let lock = self.lock();
        let taken = matches!(lock, Locking::Acquired);
        let found = match &self.file {
            Some(bytes) => Stored::Bytes(bytes.clone()),
            None => nothing(),
        };
        match AtomicSlotCounter::open(PATH, pk, end, lock, found) {
            Ok((counter, image)) => {
                if image.is_some() {
                    self.file = image;
                }
                Ok(counter)
            }
            Err(e) => {
                if taken {
                    self.release();
                }
                Err(e)
            }
        }
    }

    fn write(&mut self, pending: &PendingWrite) {
        let file = self.file.as_mut().unwrap();
        file[pending.offset..pending.offset + pending.bytes.len()].copy_from_slice(&pending.bytes);
    }

    fn reserve(&mut self, c: &mut AtomicSlotCounter) -> Result<u32, AtomicSlotCounterError> {
        if let Some(pending) = c.reservation() {
            self.write(&pending);
        }
        c.reserve(Ok(()))
    }

    fn reserve_at(
        &mut self,
        c: &mut AtomicSlotCounter,
        slot: u32,
    ) -> Result<u32, AtomicSlotCounterError> {
        if let Some(pending) = c.reservation_at(slot) {
            self.write(&pending);
        }
        c.reserve_at(slot, Ok(()))
    }
}

fn key(seed: u8) -> XmssPublicKey {
    XmssPublicKey::from_bytes(&[seed; 32]).unwrap()
}

fn key_fingerprint(pk: &XmssPublicKey) -> [u8; 32] {
    hash_any(pk.as_bytes())
}

fn key_fingerprint_hex(pk: &XmssPublicKey) -> String {
    key_fingerprint(pk).iter().map(|b| format!("{b:02x}")).collect()
}

fn reserves_and_survives_reopen() {
    let mut disk = Disk::empty();
    let pk = key(7);

    let mut c = disk.create(&pk, 100, 140).unwrap();
    assert_eq!(disk.reserve(&mut c).unwrap(), 100);
    assert_eq!(disk.reserve(&mut c).unwrap(), 101);
    disk.release();

    let mut c = disk.open(&pk, 140).unwrap();
    assert_eq!(disk.reserve(&mut c).unwrap(), 102);
}

fn refuses_missing_foreign_and_exhausted() {
    let mut disk = Disk::empty();
    let pk = key(7);

    assert!(matches!(
        disk.open(&pk, 140),
        Err(AtomicSlotCounterError::State(why)) if why == "cannot read state/slots: no such file"
    ));

    drop(disk.create(&pk, 100, 140).unwrap());
    disk.release();

    assert!(matches!(
        disk.open(&key(9), 140),
        Err(AtomicSlotCounterError::State(why)) if why == "journal belongs to a different key or mixes keys"
    ));
    assert!(matches!(
        disk.create(&pk, 100, 140),
        Err(AtomicSlotCounterError::State(why)) if why == "state/slots already exists; refusing to reset a live counter"
    ));

    let mut c = disk.open(&pk, 101).unwrap();
    assert_eq!(disk.reserve(&mut c).unwrap(), 100);
    assert_eq!(disk.reserve(&mut c).unwrap(), 101);
    assert!(matches!(
        disk.reserve(&mut c),
        Err(AtomicSlotCounterError::Exhausted { next: 102, end: 101 })
    ));
}

fn second_lock_is_refused() {
    let mut disk = Disk::empty();
    let pk = key(7);
    let held = disk.create(&pk, 100, 140).unwrap();
    assert!(matches!(disk.open(&pk, 140), Err(AtomicSlotCounterError::Busy)));
    drop(held);
    disk.release();
    assert!(disk.open(&pk, 140).is_ok());
}

#[test]
fn slot_counter_reserves_monotonically_and_survives_reopen() {
    reserves_and_survives_reopen();
}

#[test]
fn atomic_slot_counter_reserves_monotonically_and_survives_reopen() {
    reserves_and_survives_reopen();
}

#[test]
fn create_decides_under_the_lock() {
    let mut disk = Disk::empty();
    let pk = key(7);

    let mut live = disk.create(&pk, 100, 140).unwrap();
    assert_eq!(disk.reserve(&mut live).unwrap(), 100);
    assert_eq!(disk.reserve(&mut live).unwrap(), 101);

    assert!(matches!(disk.create(&pk, 100, 140), Err(AtomicSlotCounterError::Busy)));

    drop(live);
    disk.release();
    assert!(matches!(
        disk.create(&pk, 100, 140),
        Err(AtomicSlotCounterError::State(why)) if why == "state/slots already exists; refusing to reset a live counter"
    ));

    let mut reopened = disk.open(&pk, 140).unwrap();
    assert_eq!(disk.reserve(&mut reopened).unwrap(), 102);
}

#[test]
fn the_top_of_the_u32_window_is_not_wrapped_around() {
    let mut disk = Disk::empty();
    let pk = key(7);

    let mut c = disk.create(&pk, u32::MAX, u32::MAX).unwrap();
    assert_eq!(c.remaining(), 1);
    assert_eq!(disk.reserve(&mut c).unwrap(), u32::MAX);
    assert_eq!(c.remaining(), 0);

    assert!(matches!(disk.reserve(&mut c), Err(AtomicSlotCounterError::Exhausted { .. })));
    assert!(matches!(
        disk.reserve_at(&mut c, u32::MAX),
        Err(AtomicSlotCounterError::Exhausted { .. })
    ));
    disk.release();

    let mut reopened = disk.open(&pk, u32::MAX).unwrap();
    assert_eq!(reopened.next_slot(), u64::from(u32::MAX) + 1);
    assert!(matches!(
        disk.reserve(&mut reopened),
        Err(AtomicSlotCounterError::Exhausted { .. })
    ));
    assert!(matches!(
        disk.reserve_at(&mut reopened, u32::MAX),
        Err(AtomicSlotCounterError::Exhausted { .. })
    ));
}

#[test]
fn a_window_that_starts_past_its_end_has_nothing_left() {
    let mut disk = Disk::empty();
    let c = disk.create(&key(7), 150, 140).unwrap();
    assert_eq!(c.remaining(), 0);
    assert_eq!(c.next_slot(), 150);
    assert!(c.reservation().is_none());
}

#[test]
fn ambiguous_legacy_state_at_u32_max_is_refused() {
    let pk = key(7);
    let mut disk =
        Disk::holding(format!("{} {}\n", key_fingerprint_hex(&pk), u32::MAX).as_bytes());
    match disk.open(&pk, u32::MAX) {
        Err(AtomicSlotCounterError::State(why)) => {
            assert_eq!(
                why,
                "legacy state at u32::MAX is ambiguous; refusing to risk slot reuse"
            );
        }
        _ => panic!("ambiguous state must be refused"),
    }
}

#[test]
fn v2_state_migrates_without_moving_the_frontier() {
    let pk = key(7);
    let mut disk = Disk::holding(format!("v2 {} 103\n", key_fingerprint_hex(&pk)).as_bytes());

    let mut c = disk.open(&pk, 140).unwrap();
    assert_eq!(c.next_slot(), 103);
    assert_eq!(disk.file.as_ref().unwrap().len(), JOURNAL_SIZE);
    assert_eq!(disk.reserve(&mut c).unwrap(), 103);
    disk.release();

    assert_eq!(disk.open(&pk, 140).unwrap().next_slot(), 104);
}

#[test]
fn journal_alternates_records_without_resizing_or_batching() {
    let mut disk = Disk::empty();
    let pk = key(7);
    let mut c = disk.create(&pk, 100, 140).unwrap();
    assert_eq!(disk.file.as_ref().unwrap().len(), JOURNAL_SIZE);

    assert_eq!(disk.reserve(&mut c).unwrap(), 100);
    assert_eq!(disk.reserve(&mut c).unwrap(), 101);
    assert_eq!(disk.file.as_ref().unwrap().len(), JOURNAL_SIZE);
    disk.release();

    let raw = disk.file.clone().unwrap();
    let first = decode_record(&raw[..RECORD_SIZE], 0).unwrap().unwrap();
    let second = decode_record(&raw[JOURNAL_SLOT_SIZE..JOURNAL_SLOT_SIZE + RECORD_SIZE], 1)
        .unwrap()
        .unwrap();
    assert_eq!((first.generation, first.next_free), (2, 102));
    assert_eq!((second.generation, second.next_free), (1, 101));

    let mut reopened = disk.open(&pk, 140).unwrap();
    assert_eq!(disk.reserve(&mut reopened).unwrap(), 102);
}

#[test]
fn incomplete_inactive_record_does_not_advance_the_frontier() {
    let mut disk = Disk::empty();
    let pk = key(7);
    drop(disk.create(&pk, 100, 140).unwrap());
    disk.release();

    let mut incomplete = encode_record(&JournalRecord {
        generation: 1,
        next_free: 101,
        key_tag: key_fingerprint(&pk),
    });
    incomplete[CHECKSUM_OFFSET] ^= 1;
    disk.write(&PendingWrite { offset: JOURNAL_SLOT_SIZE, bytes: incomplete });

    let mut reopened = disk.open(&pk, 140).unwrap();
    assert_eq!(disk.reserve(&mut reopened).unwrap(), 100);
}

#[test]
fn valid_latest_record_survives_a_damaged_older_record() {
    let mut disk = Disk::empty();
    let pk = key(7);
    let mut c = disk.create(&pk, 100, 140).unwrap();
    assert_eq!(disk.reserve(&mut c).unwrap(), 100);
    disk.release();

    disk.write(&PendingWrite { offset: CHECKSUM_OFFSET, bytes: vec![0xff] });

    let mut reopened = disk.open(&pk, 140).unwrap();
    assert_eq!(disk.reserve(&mut reopened).unwrap(), 101);
}

#[test]
fn journal_with_no_valid_record_is_refused() {
    let mut disk = Disk::empty();
    let pk = key(7);
    drop(disk.create(&pk, 100, 140).unwrap());
    disk.release();

    disk.write(&PendingWrite { offset: CHECKSUM_OFFSET, bytes: vec![0xff] });

    assert!(matches!(
        disk.open(&pk, 140),
        Err(AtomicSlotCounterError::State(why))
            if why == "journal contains no valid record (record 0: checksum mismatch)"
    ));
}

#[test]
fn slot_counter_refuses_missing_foreign_and_exhausted_state() {
    refuses_missing_foreign_and_exhausted();
}

#[test]
fn atomic_slot_counter_refuses_missing_foreign_and_exhausted_state() {
    refuses_missing_foreign_and_exhausted();
}

#[test]
fn protocol_slots_jump_forward_and_never_back() {
    let mut disk = Disk::empty();
    let pk = key(7);
    let mut c = disk.create(&pk, 100, 140).unwrap();

    assert_eq!(disk.reserve_at(&mut c, 100).unwrap(), 100);
    assert_eq!(disk.reserve_at(&mut c, 105).unwrap(), 105);
    assert_eq!(c.next_slot(), 106);

    assert!(matches!(
        disk.reserve_at(&mut c, 103),
        Err(AtomicSlotCounterError::AlreadySpent { requested: 103, next: 106 })
    ));
    assert!(matches!(
        disk.reserve_at(&mut c, 105),
        Err(AtomicSlotCounterError::AlreadySpent { requested: 105, next: 106 })
    ));
    assert_eq!(c.next_slot(), 106);

    assert!(matches!(
        disk.reserve_at(&mut c, 141),
        Err(AtomicSlotCounterError::Exhausted { .. })
    ));

    disk.release();
    let mut c = disk.open(&pk, 140).unwrap();
    assert!(matches!(
        disk.reserve_at(&mut c, 105),
        Err(AtomicSlotCounterError::AlreadySpent { .. })
    ));
    assert_eq!(disk.reserve_at(&mut c, 106).unwrap(), 106);
}

#[test]
fn protocol_and_local_reservations_share_one_counter() {
    let mut disk = Disk::empty();
    let pk = key(7);
    let mut c = disk.create(&pk, 100, 140).unwrap();

    assert_eq!(disk.reserve(&mut c).unwrap(), 100);
    assert_eq!(disk.reserve_at(&mut c, 110).unwrap(), 110);
    assert_eq!(disk.reserve(&mut c).unwrap(), 111);
    assert!(matches!(
        disk.reserve_at(&mut c, 111),
        Err(AtomicSlotCounterError::AlreadySpent { .. })
    ));
}

#[test]
fn slot_counter_second_process_style_lock_is_refused_while_held() {
    second_lock_is_refused();
}

#[test]
fn atomic_slot_counter_second_process_style_lock_is_refused_while_held() {
    second_lock_is_refused();
}

#[test]
fn a_slot_that_is_not_durably_spent_is_not_handed_out() {
    let mut disk = Disk::empty();
    let pk = key(7);
    let mut c = disk.create(&pk, 100, 140).unwrap();
    assert!(c.reservation().is_some());
    assert!(matches!(
        c.reserve(Err("disk full".to_string())),
        Err(AtomicSlotCounterError::Io(why)) if why == "disk full"
    ));
    assert_eq!(c.next_slot(), 100);
    assert_eq!(disk.reserve(&mut c).unwrap(), 100);
}

#[test]
fn a_journal_record_is_read_back_in_its_own_place_only() {
    let record = JournalRecord { generation: 5, next_free: 77, key_tag: [3; 32] };
    let bytes = encode_record(&record);
    assert_eq!(bytes.len(), RECORD_SIZE);
    let read = decode_record(&bytes, 1).unwrap().unwrap();
    assert_eq!((read.generation, read.next_free, read.key_tag), (5, 77, [3; 32]));
    assert!(matches!(decode_record(&bytes, 0), Err(RecordError::WrongSlot)));
    assert!(matches!(decode_record(&bytes[1..], 1), Err(RecordError::WrongLength)));
    assert!(matches!(decode_record(&[0; RECORD_SIZE], 0), Ok(None)));
    let mut magic = bytes.clone();
    magic[0] ^= 1;
    assert!(matches!(decode_record(&magic, 1), Err(RecordError::WrongMagic)));
    let checksum: [u8; 32] = bytes[CHECKSUM_OFFSET..].try_into().unwrap();
    assert_eq!(checksum, hash_any(&bytes[..CHECKSUM_OFFSET]));
    assert!(decode_checked(&bytes, 1, &checksum).is_ok());
    assert!(matches!(decode_checked(&bytes, 1, &[0; 32]), Err(RecordError::Checksum)));
}

#[test]
fn every_reserved_byte_of_a_record_is_zero() {
    let bytes = encode_record(&JournalRecord { generation: 0, next_free: 1, key_tag: [3; 32] });
    let reserved = (0..CHECKSUM_OFFSET)
        .filter(|&at| {
            let mut changed = bytes.clone();
            changed[at] = 0xff;
            matches!(decode_record(&changed, 0), Err(RecordError::ReservedBytes))
        })
        .count();
    assert!(reserved > 0);
}

#[test]
fn every_other_refusal_of_stored_slots_is_named() {
    let pk = key(7);
    let own = key_fingerprint_hex(&pk);
    let refusal = |contents: &[u8]| match Disk::holding(contents).open(&pk, 140) {
        Err(AtomicSlotCounterError::State(e)) => e,
        _ => panic!("the state must be refused"),
    };
    assert_eq!(refusal(b"\n"), "empty state file");
    assert_eq!(
        refusal(&[0xff, 0xfe]),
        "state is neither a journal nor UTF-8: invalid utf-8 sequence of 1 bytes from index 0"
    );
    assert_eq!(refusal(own.as_bytes()), "missing slot counter");
    assert_eq!(refusal(b"v2 00 100\n"), "state file belongs to a different key");
    assert_eq!(
        refusal(format!("v2 {own} x\n").as_bytes()),
        "unparseable slot counter: invalid digit found in string"
    );
    assert_eq!(
        refusal(format!("v2 {own} 18446744073709551616\n").as_bytes()),
        "unparseable slot counter: number too large to fit in target type"
    );
    assert_eq!(
        refusal(format!("v2 {own} 100 1\n").as_bytes()),
        "unexpected trailing data in state file"
    );
    assert_eq!(
        refusal(format!("v2 {own} 142\n").as_bytes()),
        "persisted next slot 142 is outside this key's window ending at 140"
    );
    assert!(matches!(
        recover_journal(&[0; 16], &key_fingerprint(&pk), 140),
        Err(SlotStateError::JournalLength { len: 16 })
    ));
    let mut journal = encode_record(&JournalRecord {
        generation: 2,
        next_free: 100,
        key_tag: key_fingerprint(&pk),
    });
    journal.resize(JOURNAL_SLOT_SIZE, 0);
    journal.extend(encode_record(&JournalRecord {
        generation: 1,
        next_free: 105,
        key_tag: key_fingerprint(&pk),
    }));
    journal.resize(JOURNAL_SIZE, 0);
    assert_eq!(refusal(&journal), "journal records are not one monotonic generation apart");
    assert!(matches!(
        AtomicSlotCounter::open(PATH, &pk, 140, Locking::Failed("no".to_string()), nothing()),
        Err(AtomicSlotCounterError::Io(_))
    ));
}

// ---- signers -----------------------------------------------------------------

const START: u32 = 100;
const END: u32 = 110;

fn signature_bytes(pk: &XmssPublicKey, slot: u32, message: &[u8; 32]) -> Vec<u8> {
    let mut input = pk.as_bytes().to_vec();
    input.extend_from_slice(&slot.to_le_bytes());
    input.extend_from_slice(message);
    hash_any(&input).iter().copied().cycle().take(SIGNATURE_SSZ_LEN).collect()
}

/// A key that signs from `START` to `END` only.
fn key_signs(pk: &XmssPublicKey, slot: u32, message: &[u8; 32]) -> Result<XmssSignature, String> {
    if (START..=END).contains(&slot) {
        Ok(XmssSignature::from_bytes(&signature_bytes(pk, slot, message)).unwrap())
    } else {
        Err(format!("out of window at slot {slot}"))
    }
}

fn node(disk: &mut Disk, counter_end: u32) -> SignerNode {
    let pk = key(3);
    let counter = disk.create(&pk, START, counter_end).expect("counter");
    SignerNode::new(pk, counter)
}

fn sign(
    disk: &mut Disk,
    signer: &mut SignerNode,
    message: &[u8; 32],
) -> Result<(u32, XmssSignature), SignerNodeError> {
    let pk = *signer.public_key();
    signer.sign(
        message,
        |pending| {
            disk.write(pending);
            Ok(())
        },
        |slot, message| key_signs(&pk, slot, message),
    )
}

#[test]
fn signs_consecutive_slots_and_the_signatures_verify() {
    let mut disk = Disk::empty();
    let mut signer = node(&mut disk, END);

    for expected in START..START + 3 {
        let message = hash_any(&expected.to_le_bytes());
        let (slot, sig) = sign(&mut disk, &mut signer, &message).expect("sign");
        assert_eq!(slot, expected);
        assert_eq!(sig.as_bytes(), signature_bytes(signer.public_key(), slot, &message));
    }
    assert_eq!(signer.next_slot(), u64::from(START) + 3);
}

#[test]
fn a_failed_signature_still_consumes_its_slot() {
    let mut disk = Disk::empty();
    let mut signer = node(&mut disk, END + 5);
    let message = hash_any(b"vc");

    for _ in START..=END {
        sign(&mut disk, &mut signer, &message).expect("in-window sign");
    }
    assert_eq!(signer.next_slot(), u64::from(END) + 1);

    assert!(matches!(
        sign(&mut disk, &mut signer, &message),
        Err(SignerNodeError::Sign(_))
    ));
    assert_eq!(signer.next_slot(), u64::from(END) + 2);

    assert!(sign(&mut disk, &mut signer, &message).is_err());
    assert_eq!(signer.next_slot(), u64::from(END) + 3);
}

#[test]
fn exhaustion_is_reported_not_wrapped_around() {
    let mut disk = Disk::empty();
    let mut signer = node(&mut disk, START + 1);
    let message = hash_any(b"vc");

    sign(&mut disk, &mut signer, &message).expect("first");
    sign(&mut disk, &mut signer, &message).expect("second");
    assert_eq!(signer.remaining_slots(), 0);
    assert!(matches!(
        sign(&mut disk, &mut signer, &message),
        Err(SignerNodeError::Slot(AtomicSlotCounterError::Exhausted { .. }))
    ));
}

#[test]
fn a_slot_that_the_protocol_chose_is_signed_once() {
    let mut disk = Disk::empty();
    let mut signer = node(&mut disk, END);
    let pk = *signer.public_key();
    let message = hash_any(b"round");
    for (slot, expected) in [(103, true), (103, false), (101, false), (104, true)] {
        let signed = signer.sign_at(
            &message,
            slot,
            |pending| {
                disk.write(pending);
                Ok(())
            },
            |at, message| {
                assert_eq!(at, slot);
                key_signs(&pk, at, message)
            },
        );
        assert_eq!(signed.is_ok(), expected, "slot {slot}");
    }
    let refused = signer.sign_at(
        &message,
        105,
        |_| Err("disk full".to_string()),
        |_, _| panic!("a slot that is not spent may not be signed"),
    );
    assert!(matches!(
        refused,
        Err(SignerNodeError::Slot(AtomicSlotCounterError::Io(_)))
    ));
    assert_eq!(signer.next_slot(), 105);
}

#[test]
fn a_slot_is_written_before_the_key_is_asked() {
    let mut disk = Disk::empty();
    let mut signer = node(&mut disk, END);
    let pk = *signer.public_key();
    let written = std::cell::Cell::new(false);
    let (slot, _) = signer
        .sign(
            &hash_any(b"round"),
            |pending| {
                let slot = pending.offset / JOURNAL_SLOT_SIZE;
                let record = decode_record(&pending.bytes, slot).expect("readable").expect("new");
                assert_eq!(record.next_free, u64::from(START) + 1);
                written.set(true);
                Ok(())
            },
            |at, message| {
                assert!(written.get(), "the key was asked first");
                key_signs(&pk, at, message)
            },
        )
        .expect("signature");
    assert_eq!(slot, START);
    let refused = signer.sign(
        &hash_any(b"round"),
        |_| Err("disk full".to_string()),
        |_, _| panic!("the key may not be asked"),
    );
    assert!(refused.is_err());
}

//! The mark of a relying party, over a state file that is held in memory.
use decentralized_root_of_trust::hash::hash_any;
use decentralized_root_of_trust::state::freshness::{
    Decision, HighWaterMark, HighWaterMarkError,
};
use decentralized_root_of_trust::state::{Locking, Stored};

const PATH: &str = "state/mark";

/// What is found where nothing is.
fn nothing() -> Stored {
    Stored::Missing("no such file".to_string())
}

/// One state file with its lock.
struct Disk {
    file: Option<Vec<u8>>,
    locked: bool,
}

impl Disk {
    fn empty() -> Disk {
        Disk { file: None, locked: false }
    }

    fn holding(contents: &[u8]) -> Disk {
        Disk { file: Some(contents.to_vec()), locked: false }
    }

    fn lock(&mut self) -> Locking {
        if self.locked {
            Locking::WouldBlock
        } else {
            self.locked = true;
            Locking::Acquired
        }
    }

    fn release(&mut self) {
        self.locked = false;
    }

    fn found(&self) -> Stored {
        match &self.file {
            Some(bytes) => Stored::Bytes(bytes.clone()),
            None => nothing(),
        }
    }

    fn create(&mut self, anchor: &[u8]) -> Result<HighWaterMark, HighWaterMarkError> {
        let lock = self.lock();
        let taken = matches!(lock, Locking::Acquired);
        match HighWaterMark::create(PATH, anchor, lock, self.found()) {
            Ok((mark, line)) => {
                self.file = Some(line.into_bytes());
                Ok(mark)
            }
            Err(e) => {
                if taken {
                    self.release();
                }
                Err(e)
            }
        }
    }

    fn open(&mut self, anchor: &[u8]) -> Result<HighWaterMark, HighWaterMarkError> {
        let lock = self.lock();
        let taken = matches!(lock, Locking::Acquired);
        let opened = HighWaterMark::open(PATH, anchor, lock, self.found());
        if opened.is_err() && taken {
            self.release();
        }
        opened
    }

    fn recover(
        &mut self,
        anchor: &[u8],
        version: u32,
    ) -> Result<HighWaterMark, HighWaterMarkError> {
        let lock = self.lock();
        let taken = matches!(lock, Locking::Acquired);
        match HighWaterMark::load_from_trusted_source(PATH, anchor, lock, self.found(), version) {
            Ok((mark, line)) => {
                self.file = Some(line.into_bytes());
                Ok(mark)
            }
            Err(e) => {
                if taken {
                    self.release();
                }
                Err(e)
            }
        }
    }

    fn advance(
        &mut self,
        mark: &mut HighWaterMark,
        version: u32,
    ) -> Result<Decision, HighWaterMarkError> {
        if let Some(line) = mark.pending_line(version) {
            self.file = Some(line.into_bytes());
        }
        mark.try_advance(version, Ok(()))
    }
}

fn accepted(d: Result<Decision, HighWaterMarkError>) -> bool {
    matches!(d, Ok(Decision::Accepted))
}

fn fingerprint(anchor: &[u8]) -> String {
    hash_any(anchor).iter().map(|b| format!("{b:02x}")).collect()
}

#[test]
fn freshness_only_strictly_newer_versions_advance_the_mark() {
    let mut disk = Disk::empty();
    let mut hwm = disk.create(b"anchor-A").unwrap();

    assert_eq!(hwm.current(), None);
    assert!(accepted(disk.advance(&mut hwm, 0)));
    assert_eq!(hwm.current(), Some(0));

    assert!(matches!(disk.advance(&mut hwm, 0), Ok(Decision::Stale(0))));

    assert!(accepted(disk.advance(&mut hwm, 7)));
    assert!(matches!(disk.advance(&mut hwm, 6), Ok(Decision::Stale(7))));
    assert!(matches!(disk.advance(&mut hwm, 0), Ok(Decision::Stale(7))));
    assert_eq!(hwm.current(), Some(7));

    assert!(accepted(disk.advance(&mut hwm, 100)));
    assert_eq!(hwm.current(), Some(100));
}

#[test]
fn freshness_the_mark_survives_a_restart() {
    let mut disk = Disk::empty();
    let anchor = b"anchor-A";

    let mut hwm = disk.create(anchor).unwrap();
    assert!(accepted(disk.advance(&mut hwm, 42)));
    disk.release();

    let mut reloaded = disk.open(anchor).unwrap();
    assert_eq!(reloaded.current(), Some(42));
    assert!(matches!(disk.advance(&mut reloaded, 42), Ok(Decision::Stale(42))));
    assert!(accepted(disk.advance(&mut reloaded, 43)));
}

#[test]
fn a_different_anchor_is_refused() {
    let mut disk = Disk::empty();
    let mut a = disk.create(b"anchor-A").unwrap();
    assert!(accepted(disk.advance(&mut a, 500)));
    disk.release();

    assert!(matches!(
        disk.open(b"anchor-B"),
        Err(HighWaterMarkError::State(why)) if why == "state file belongs to a different anchor"
    ));

    let reopened = disk.open(b"anchor-A").unwrap();
    assert_eq!(reopened.current(), Some(500));
}

#[test]
fn a_different_anchor_is_a_different_domain() {
    let mut disk = Disk::empty();
    let mut a = HighWaterMark::load(b"anchor-A", disk.found());
    assert!(accepted(disk.advance(&mut a, 500)));

    let mut b = HighWaterMark::load(b"anchor-B", disk.found());
    assert_eq!(b.current(), None);
    assert!(accepted(disk.advance(&mut b, 1)));
    assert_eq!(b.current(), Some(1));
}

#[test]
fn a_corrupt_file_is_refused() {
    let mut disk = Disk::holding(b"not-a-fingerprint\n");
    assert!(matches!(
        disk.open(b"anchor-A"),
        Err(HighWaterMarkError::State(why)) if why == "missing freshness value"
    ));
}

#[test]
fn a_corrupt_file_starts_empty() {
    let mut disk = Disk::holding(b"not-a-fingerprint\n");
    let mut hwm = HighWaterMark::load(b"anchor-A", disk.found());
    assert_eq!(hwm.current(), None);
    assert!(accepted(disk.advance(&mut hwm, 0)));
    assert_eq!(HighWaterMark::load(b"anchor-A", disk.found()).current(), Some(0));
}

#[test]
fn a_live_mark_locks_its_state_file() {
    let mut disk = Disk::empty();
    let held = disk.create(b"anchor-A").expect("first mark");
    assert!(matches!(disk.open(b"anchor-A"), Err(HighWaterMarkError::Busy)));
    drop(held);
    disk.release();
    assert!(disk.open(b"anchor-A").is_ok());
}

#[test]
fn a_persistence_failure_does_not_advance_memory() {
    let mut disk = Disk::empty();
    let mut hwm = disk.create(b"anchor-A").unwrap();
    assert!(hwm.pending_line(1).is_some());
    assert!(matches!(
        hwm.try_advance(1, Err("disk full".to_string())),
        Err(HighWaterMarkError::Io(why)) if why == "disk full"
    ));
    assert_eq!(hwm.current(), None);

    disk.release();
    assert_eq!(disk.open(b"anchor-A").unwrap().current(), None);
}

#[test]
fn create_is_explicit_and_never_overwrites_state() {
    let mut disk = Disk::empty();
    let created = disk.create(b"anchor-A").unwrap();
    assert_eq!(created.current(), None);
    disk.release();

    assert_eq!(disk.open(b"anchor-A").unwrap().current(), None);
    disk.release();
    assert!(matches!(
        disk.create(b"anchor-A"),
        Err(HighWaterMarkError::State(why)) if why == "state/mark already exists; refusing to reset freshness state"
    ));
    assert!(matches!(
        Disk::empty().open(b"anchor-A"),
        Err(HighWaterMarkError::State(why)) if why == "cannot read state/mark: no such file"
    ));
}

#[test]
fn legacy_numeric_state_remains_compatible_but_trailing_data_is_rejected() {
    let mut disk = Disk::holding(format!("{} 17\n", fingerprint(b"anchor-A")).as_bytes());
    assert_eq!(disk.open(b"anchor-A").unwrap().current(), Some(17));

    let mut disk =
        Disk::holding(format!("{} 17 unexpected\n", fingerprint(b"anchor-A")).as_bytes());
    assert!(matches!(
        disk.open(b"anchor-A"),
        Err(HighWaterMarkError::State(why)) if why == "trailing data in state file"
    ));
}

#[test]
fn trusted_source_recovery_persists_the_authenticated_latest_version() {
    let mut disk = Disk::empty();
    let mut recovered = disk.recover(b"anchor-A", 42).unwrap();
    assert_eq!(recovered.current(), Some(42));
    assert!(matches!(disk.advance(&mut recovered, 42), Ok(Decision::Stale(42))));
    disk.release();

    let mut reopened = disk.open(b"anchor-A").unwrap();
    assert_eq!(reopened.current(), Some(42));
    assert!(matches!(disk.advance(&mut reopened, 7), Ok(Decision::Stale(42))));
    assert!(accepted(disk.advance(&mut reopened, 43)));
}

#[test]
fn trusted_source_recovery_replaces_invalid_but_never_valid_state() {
    let mut corrupt = Disk::holding(&[0xff, 0xfe]);
    assert_eq!(corrupt.recover(b"anchor-A", 9).unwrap().current(), Some(9));

    let mut foreign = Disk::empty();
    foreign.create(b"anchor-B").unwrap();
    foreign.release();
    assert_eq!(foreign.recover(b"anchor-A", 10).unwrap().current(), Some(10));

    let mut valid = Disk::empty();
    valid.create(b"anchor-A").unwrap();
    valid.release();
    assert!(matches!(
        valid.recover(b"anchor-A", 11),
        Err(HighWaterMarkError::State(why)) if why == "state/mark contains valid state; refusing trusted-source recovery"
    ));
}

#[test]
fn every_other_refusal_of_a_state_file_is_named() {
    let refusal = |contents: &[u8]| match Disk::holding(contents).open(b"anchor-A") {
        Err(HighWaterMarkError::State(e)) => e,
        _ => panic!("the state must be refused"),
    };
    assert_eq!(refusal(b" \n"), "empty state file");
    assert_eq!(
        refusal(&[0xff]),
        "state/mark is not UTF-8: invalid utf-8 sequence of 1 bytes from index 0"
    );
    let own = fingerprint(b"anchor-A");
    assert_eq!(
        refusal(format!("{own} 4294967296\n").as_bytes()),
        "unparseable freshness value: number too large to fit in target type"
    );
    assert_eq!(
        refusal(format!("{own} -1\n").as_bytes()),
        "unparseable freshness value: invalid digit found in string"
    );
    assert_eq!(
        HighWaterMarkError::State("x".to_string()).text(),
        "unusable high-water mark: x"
    );
    assert!(matches!(
        HighWaterMark::open(PATH, b"anchor-A", Locking::Failed("no lock".to_string()), nothing()),
        Err(HighWaterMarkError::Io(why)) if why == "no lock"
    ));
    assert!(matches!(
        HighWaterMark::create(
            PATH,
            b"anchor-A",
            Locking::Acquired,
            Stored::Unreadable("denied".to_string())
        ),
        Err(HighWaterMarkError::Io(why)) if why == "denied"
    ));
}

#[test]
fn the_state_line_holds_the_fingerprint_and_the_version() {
    let mut disk = Disk::empty();
    let mut hwm = disk.create(b"anchor-A").unwrap();
    let own = fingerprint(b"anchor-A");
    assert_eq!(disk.file.clone().unwrap(), format!("{own} none\n").into_bytes());
    disk.advance(&mut hwm, 5).unwrap();
    assert_eq!(disk.file.clone().unwrap(), format!("{own} 5\n").into_bytes());
    assert_eq!(hwm.pending_line(5), None);
    assert_eq!(hwm.state_line(Some(6)), format!("{own} 6\n"));
}

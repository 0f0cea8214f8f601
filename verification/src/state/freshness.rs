//! Persistent anti-rollback state for a status-list verifier.
//!
//! A mark accepts only versions strictly above the one it holds. It is bound to one
//! anchor by its fingerprint, so a state file is never reused under another. The
//! caller moves bytes to and from the disk; what they mean is decided here.
use crate::hash::{sha3_256, sha3_256_digest};
use crate::state::{cannot_read, Locking, Stored};
use crate::text::{
    chars_of, decimal, hex_text, is_text, joined, lemma_decimal_is_word, lemma_hex_injective,
    lemma_hex_is_word, lemma_parse_decimal, lemma_two_words, parse_u32, parse_upto, push_decimal,
    push_hex, split_words, text_of, u32_error_text, u32_or_why, utf8_error_text, utf8_or_why,
    utf8_text, words,
};
use vstd::prelude::*;
use vstd::string::*;
use vstd::utf8::{decode_utf8, encode_utf8, valid_utf8};

verus! {

/// Outcome of offering a version to the mark.
#[derive(Clone, Copy, PartialEq, Eq, Structural, Debug)]
pub enum Decision {
    /// Strictly newer than the stored mark: it advanced and was persisted.
    Accepted,
    /// Not newer than the stored mark, which is carried here.
    Stale(u32),
}

/// What is wrong with stored freshness state.
#[derive(Clone, Copy, PartialEq, Eq, Structural, Debug)]
pub enum MarkStateError {
    /// The file is not text.
    NotUtf8,
    /// The file holds no word.
    Empty,
    /// The file holds no value.
    MissingValue,
    /// The file holds more than a mark.
    Trailing,
    /// The mark belongs to another anchor.
    Foreign,
    /// The value is no version.
    Unparseable,
}

/// Why the freshness mark could not be used safely.
#[derive(Debug)]
pub enum HighWaterMarkError {
    /// The state is missing, malformed, foreign, or would be overwritten, in words.
    State(String),
    /// Another process already holds the mark for this status list.
    Busy,
    /// The mark could not be locked or durably written.
    Io(String),
}

/// What a mark holds: the fingerprint of its anchor and the newest version that
/// was accepted, if any was.
#[verifier::ext_equal]
pub struct Mark {
    pub anchor: Seq<u8>,
    pub newest: Option<u32>,
}

/// The value part of stored state.
pub open spec fn value_text(newest: Option<u32>) -> Seq<char> {
    match newest {
        Some(version) => decimal(version as nat),
        None => "none"@,
    }
}

impl Mark {
    /// The line that is stored for the mark.
    pub open spec fn line(self) -> Seq<char> {
        hex_text(self.anchor) + " "@ + value_text(self.newest) + "\n"@
    }
}

/// The mark that stored text stands for under one anchor, or what is wrong with
/// it. The checks come in this order.
pub open spec fn parse_mark(text: Seq<char>, anchor: Seq<u8>) -> Result<
    Option<u32>,
    MarkStateError,
> {
    let w = words(text);
    if w.len() == 0 {
        Err(MarkStateError::Empty)
    } else if w.len() == 1 {
        Err(MarkStateError::MissingValue)
    } else if w.len() > 2 {
        Err(MarkStateError::Trailing)
    } else if w[0] != hex_text(anchor) {
        Err(MarkStateError::Foreign)
    } else if w[1] == "none"@ {
        Ok(None)
    } else {
        match parse_upto(w[1], u32::MAX as nat) {
            Some(version) => Ok(Some(version as u32)),
            None => Err(MarkStateError::Unparseable),
        }
    }
}

/// The mark that stored bytes stand for.
pub open spec fn read_mark(bytes: Seq<u8>, anchor: Seq<u8>) -> Result<Option<u32>, MarkStateError> {
    if valid_utf8(bytes) {
        parse_mark(decode_utf8(bytes), anchor)
    } else {
        Err(MarkStateError::NotUtf8)
    }
}

impl MarkStateError {
    /// What is wrong with the text of stored state, in words; there are none for bytes
    /// that are no text.
    pub open spec fn parse_message(self, text: Seq<char>) -> Seq<char> {
        match self {
            MarkStateError::NotUtf8 => ""@,
            MarkStateError::Empty => "empty state file"@,
            MarkStateError::MissingValue => "missing freshness value"@,
            MarkStateError::Trailing => "trailing data in state file"@,
            MarkStateError::Foreign => "state file belongs to a different anchor"@,
            MarkStateError::Unparseable => "unparseable freshness value: "@ + u32_error_text(
                words(text)[1],
            ),
        }
    }

    /// What is wrong with the bytes that were found at `path`, in words.
    pub open spec fn message(self, path: Seq<char>, bytes: Seq<u8>) -> Seq<char> {
        match self {
            MarkStateError::NotUtf8 => path + " is not UTF-8: "@ + utf8_error_text(bytes),
            _ => self.parse_message(decode_utf8(bytes)),
        }
    }
}

/// Whether `e` is the refusal of stored state in these words.
pub open spec fn refused_state(e: HighWaterMarkError, words: Seq<char>) -> bool {
    e matches HighWaterMarkError::State(text) && text@ == words
}

/// Whether `version` may be accepted over `newest`.
pub open spec fn is_newer(newest: Option<u32>, version: u32) -> bool {
    newest is Some ==> version > newest->0
}

/// What was stored for a mark is read back as that mark.
pub proof fn law_the_mark_survives_a_restart(mark: Mark)
    requires
        mark.anchor.len() == 32,
    ensures
        parse_mark(mark.line(), mark.anchor) == Ok::<Option<u32>, MarkStateError>(mark.newest),
        read_mark(encode_utf8(mark.line()), mark.anchor) == Ok::<Option<u32>, MarkStateError>(
            mark.newest,
        ),
{
    reveal_strlit("none");
    lemma_hex_is_word(mark.anchor);
    match mark.newest {
        Some(version) => {
            lemma_decimal_is_word(version as nat);
            lemma_parse_decimal(version as nat);
            crate::text::lemma_decimal(version as nat);
            assert(crate::text::is_digit(decimal(version as nat)[0]));
            assert("none"@[0] == 'n');
        },
        None => {
            assert(crate::text::is_word("none"@));
        },
    }
    lemma_two_words(hex_text(mark.anchor), value_text(mark.newest));
    vstd::utf8::encode_utf8_valid_utf8(mark.line());
    vstd::utf8::encode_utf8_decode_utf8(mark.line());
}

/// State stored for one anchor is refused under every other.
pub proof fn law_a_mark_does_not_serve_another_anchor(mark: Mark, other: Seq<u8>)
    requires
        mark.anchor.len() == 32,
        other != mark.anchor,
    ensures
        parse_mark(mark.line(), other) == Err::<Option<u32>, MarkStateError>(
            MarkStateError::Foreign,
        ),
{
    reveal_strlit("none");
    lemma_hex_is_word(mark.anchor);
    match mark.newest {
        Some(version) => {
            lemma_decimal_is_word(version as nat);
        },
        None => {
            assert(crate::text::is_word("none"@));
        },
    }
    lemma_two_words(hex_text(mark.anchor), value_text(mark.newest));
    if hex_text(mark.anchor) == hex_text(other) {
        lemma_hex_injective(mark.anchor, other);
    }
}

fn parse(text: &str, anchor: &[u8; 32]) -> (r: Result<Option<u32>, String>)
    ensures
        match r {
            Ok(newest) => parse_mark(text@, anchor@) == Ok::<Option<u32>, MarkStateError>(newest),
            Err(why) => parse_mark(text@, anchor@) is Err && parse_mark(text@, anchor@)->Err_0
                !is NotUtf8 && why@ == parse_mark(text@, anchor@)->Err_0.parse_message(text@),
        },
{
    let chars = chars_of(text);
    let list = split_words(chars.as_slice());
    let ghost w = words(text@);
    assert(w.len() == list@.len());
    if list.len() == 0 {
        return Err("empty state file".to_owned());
    }
    if list.len() == 1 {
        return Err("missing freshness value".to_owned());
    }
    if list.len() > 2 {
        return Err("trailing data in state file".to_owned());
    }
    assert(w[0] == list@[0]@ && w[1] == list@[1]@);
    let mut expected: String = String::new();
    push_hex(&mut expected, anchor.as_slice());
    assert(expected@ =~= hex_text(anchor@));
    if !is_text(list[0].as_slice(), expected.as_str()) {
        return Err("state file belongs to a different anchor".to_owned());
    }
    if is_text(list[1].as_slice(), "none") {
        return Ok(None);
    }
    let value = text_of(list[1].as_slice());
    match u32_or_why(value.as_str()) {
        Ok(version) => Ok(Some(version)),
        Err(why) => Err(joined("unparseable freshness value: ", why.as_str())),
    }
}

fn read_stored(path: &str, bytes: &[u8], anchor: &[u8; 32]) -> (r: Result<Option<u32>, String>)
    ensures
        match r {
            Ok(newest) => read_mark(bytes@, anchor@) == Ok::<Option<u32>, MarkStateError>(newest),
            Err(why) => read_mark(bytes@, anchor@) is Err && why@ == read_mark(
                bytes@,
                anchor@,
            )->Err_0.message(path@, bytes@),
        },
{
    match utf8_or_why(bytes) {
        Ok(text) => parse(text.as_str(), anchor),
        Err(why) => {
            let mut text: String = joined(path, " is not UTF-8: ");
            text.append(why.as_str());
            Err(text)
        },
    }
}

fn check_lock(lock: Locking) -> (r: Result<(), HighWaterMarkError>)
    ensures
        match lock {
            Locking::Acquired => r is Ok,
            Locking::WouldBlock => r == Err::<(), HighWaterMarkError>(HighWaterMarkError::Busy),
            Locking::Failed(why) => r == Err::<(), HighWaterMarkError>(
                HighWaterMarkError::Io(why),
            ),
        },
{
    match lock {
        Locking::Acquired => Ok(()),
        Locking::WouldBlock => Err(HighWaterMarkError::Busy),
        Locking::Failed(why) => Err(HighWaterMarkError::Io(why)),
    }
}

/// The highest version accepted so far under one anchor.
#[derive(Debug)]
pub struct HighWaterMark {
    fingerprint: [u8; 32],
    current: u32,
    have: bool,
}

impl View for HighWaterMark {
    type V = Mark;

    closed spec fn view(&self) -> Mark {
        Mark {
            anchor: self.fingerprint@,
            newest: if self.have {
                Some(self.current)
            } else {
                None
            },
        }
    }
}

impl HighWaterMark {
    /// Initialises a mark for a verifier that has never accepted a record.
    ///
    /// Whatever already is in its place is left alone: initialization is not
    /// recovery, and overwriting would discard rollback protection. The line that
    /// comes back with the mark is to be durable before the mark is used.
    pub fn create(path: &str, anchor: &[u8], lock: Locking, found: Stored) -> (r: Result<
        (HighWaterMark, String),
        HighWaterMarkError,
    >)
        ensures
            match (lock, found) {
                (Locking::WouldBlock, _) => r is Err && r->Err_0 == HighWaterMarkError::Busy,
                (Locking::Failed(why), _) => r is Err && r->Err_0 == HighWaterMarkError::Io(why),
                (Locking::Acquired, Stored::Bytes(_)) => r is Err && refused_state(
                    r->Err_0,
                    path@ + " already exists; refusing to reset freshness state"@,
                ),
                (Locking::Acquired, Stored::Unreadable(why)) => r is Err && r->Err_0 == HighWaterMarkError::Io(why),
                (Locking::Acquired, Stored::Missing(_)) => r is Ok && r->Ok_0.0@ == (Mark {
                    anchor: sha3_256(anchor@),
                    newest: None,
                }) && r->Ok_0.1@ == r->Ok_0.0@.line(),
            },
    {
        match check_lock(lock) {
            Err(e) => {
                return Err(e);
            },
            Ok(_) => {},
        }
        match found {
            Stored::Bytes(_) => Err(
                HighWaterMarkError::State(
                    joined(path, " already exists; refusing to reset freshness state"),
                ),
            ),
            Stored::Unreadable(why) => Err(HighWaterMarkError::Io(why)),
            Stored::Missing(_) => {
                let mark = HighWaterMark {
                    fingerprint: sha3_256_digest(anchor),
                    current: 0,
                    have: false,
                };
                let line = mark.state_line(None);
                Ok((mark, line))
            },
        }
    }

    /// Opens existing state for the trust domain of `anchor`. State that is
    /// missing, unreadable, malformed or foreign is an error: none of these can be
    /// told safely from the loss of an established mark.
    pub fn open(path: &str, anchor: &[u8], lock: Locking, found: Stored) -> (r: Result<
        HighWaterMark,
        HighWaterMarkError,
    >)
        ensures
            match (lock, found) {
                (Locking::WouldBlock, _) => r is Err && r->Err_0 == HighWaterMarkError::Busy,
                (Locking::Failed(why), _) => r is Err && r->Err_0 == HighWaterMarkError::Io(why),
                (Locking::Acquired, Stored::Bytes(bytes)) => match read_mark(
                    bytes@,
                    sha3_256(anchor@),
                ) {
                    Ok(newest) => r is Ok && r->Ok_0@ == (Mark {
                        anchor: sha3_256(anchor@),
                        newest,
                    }),
                    Err(e) => r is Err && refused_state(r->Err_0, e.message(path@, bytes@)),
                },
                (Locking::Acquired, Stored::Missing(why)) => r is Err && refused_state(
                    r->Err_0,
                    "cannot read "@ + path@ + ": "@ + why@,
                ),
                (Locking::Acquired, Stored::Unreadable(why)) => r is Err && refused_state(
                    r->Err_0,
                    "cannot read "@ + path@ + ": "@ + why@,
                ),
            },
    {
        match check_lock(lock) {
            Err(e) => {
                return Err(e);
            },
            Ok(_) => {},
        }
        match found {
            Stored::Bytes(bytes) => {
                let fingerprint = sha3_256_digest(anchor);
                match read_stored(path, bytes.as_slice(), &fingerprint) {
                    Ok(Some(current)) => Ok(HighWaterMark { fingerprint, current, have: true }),
                    Ok(None) => Ok(HighWaterMark { fingerprint, current: 0, have: false }),
                    Err(why) => Err(HighWaterMarkError::State(why)),
                }
            },
            Stored::Missing(why) | Stored::Unreadable(why) => {
                Err(HighWaterMarkError::State(cannot_read(path, why.as_str())))
            },
        }
    }

    /// Reconstructs missing or invalid state from a trusted freshness source.
    ///
    /// `authenticated_latest_version` comes from a canonical-latest record that
    /// verified under exactly `anchor`. Valid state for this anchor is never
    /// replaced. The line that comes back is to be durable before the mark is used.
    pub fn load_from_trusted_source(
        path: &str,
        anchor: &[u8],
        lock: Locking,
        found: Stored,
        authenticated_latest_version: u32,
    ) -> (r: Result<(HighWaterMark, String), HighWaterMarkError>)
        ensures
            match (lock, found) {
                (Locking::WouldBlock, _) => r is Err && r->Err_0 == HighWaterMarkError::Busy,
                (Locking::Failed(why), _) => r is Err && r->Err_0 == HighWaterMarkError::Io(why),
                (Locking::Acquired, Stored::Unreadable(why)) => r is Err && r->Err_0 == HighWaterMarkError::Io(why),
                (Locking::Acquired, _) => if found is Bytes && read_mark(
                    found->Bytes_0@,
                    sha3_256(anchor@),
                ) is Ok {
                    r is Err && refused_state(
                        r->Err_0,
                        path@ + " contains valid state; refusing trusted-source recovery"@,
                    )
                } else {
                    r is Ok && r->Ok_0.0@ == (Mark {
                        anchor: sha3_256(anchor@),
                        newest: Some(authenticated_latest_version),
                    }) && r->Ok_0.1@ == r->Ok_0.0@.line()
                },
            },
    {
        match check_lock(lock) {
            Err(e) => {
                return Err(e);
            },
            Ok(_) => {},
        }
        let fingerprint = sha3_256_digest(anchor);
        match found {
            Stored::Bytes(bytes) => {
                match read_stored(path, bytes.as_slice(), &fingerprint) {
                    Ok(_) => {
                        return Err(
                            HighWaterMarkError::State(
                                joined(
                                    path,
                                    " contains valid state; refusing trusted-source recovery",
                                ),
                            ),
                        );
                    },
                    Err(_) => {},
                }
            },
            Stored::Unreadable(why) => {
                return Err(HighWaterMarkError::Io(why));
            },
            Stored::Missing(_) => {},
        }
        let mark = HighWaterMark { fingerprint, current: authenticated_latest_version, have: true };
        let line = mark.state_line(Some(authenticated_latest_version));
        Ok((mark, line))
    }

    /// The line that stores `newest` under this mark's anchor.
    pub fn state_line(&self, newest: Option<u32>) -> (line: String)
        ensures
            line@ == (Mark { anchor: self@.anchor, newest }).line(),
    {
        let mut line: String = String::new();
        push_hex(&mut line, self.fingerprint.as_slice());
        line.append(" ");
        match newest {
            Some(version) => push_decimal(&mut line, version as u64),
            None => line.append("none"),
        }
        line.append("\n");
        assert(line@ =~= (Mark { anchor: self@.anchor, newest }).line());
        line
    }

    /// The current mark, or nothing if no version was accepted for this domain.
    pub fn current(&self) -> (newest: Option<u32>)
        ensures
            newest == self@.newest,
    {
        if self.have {
            Some(self.current)
        } else {
            None
        }
    }

    /// What has to be durable before `version` may be accepted; nothing when it
    /// would be refused as stale.
    pub fn pending_line(&self, version: u32) -> (line: Option<String>)
        ensures
            match line {
                Some(text) => is_newer(self@.newest, version) && text@ == (Mark {
                    anchor: self@.anchor,
                    newest: Some(version),
                }).line(),
                None => !is_newer(self@.newest, version),
            },
    {
        if self.have && version <= self.current {
            None
        } else {
            Some(self.state_line(Some(version)))
        }
    }

    /// Strict monotonic rule: `version` is accepted only above the stored mark.
    /// `persisted` is what came of storing [`HighWaterMark::pending_line`]; the mark
    /// moves only after that, so a failed write cannot make a caller act on a
    /// version that is forgotten after a restart.
    pub fn try_advance(&mut self, version: u32, persisted: Result<(), String>) -> (r: Result<
        Decision,
        HighWaterMarkError,
    >)
        ensures
            final(self)@.anchor == old(self)@.anchor,
            if !is_newer(old(self)@.newest, version) {
                &&& r == Ok::<Decision, HighWaterMarkError>(
                    Decision::Stale(old(self)@.newest->0),
                )
                &&& final(self)@ == old(self)@
            } else {
                match persisted {
                    Ok(_) => {
                        &&& r == Ok::<Decision, HighWaterMarkError>(Decision::Accepted)
                        &&& final(self)@.newest == Some(version)
                    },
                    Err(why) => {
                        &&& r == Err::<Decision, HighWaterMarkError>(HighWaterMarkError::Io(why))
                        &&& final(self)@ == old(self)@
                    },
                }
            },
    {
        if self.have && version <= self.current {
            return Ok(Decision::Stale(self.current));
        }
        match persisted {
            Ok(_) => {
                self.current = version;
                self.have = true;
                Ok(Decision::Accepted)
            },
            Err(why) => Err(HighWaterMarkError::Io(why)),
        }
    }
}

/// One offer of a version to a mark: what was offered, whether the write
/// succeeded, and the mark before and after.
pub open spec fn offered(before: Mark, version: u32, stored: bool, after: Mark) -> bool {
    &&& after.anchor == before.anchor
    &&& after.newest == if is_newer(before.newest, version) && stored {
        Some(version)
    } else {
        before.newest
    }
}

/// The mark never goes back: over any run of offers it only grows, and a version
/// at or below it stays refused for good.
pub proof fn law_the_mark_never_goes_back(marks: Seq<Mark>, versions: Seq<u32>, stored: Seq<bool>)
    requires
        marks.len() == versions.len() + 1,
        stored.len() == versions.len(),
        forall|i: int|
            0 <= i < versions.len() ==> offered(
                #[trigger] marks[i],
                versions[i],
                stored[i],
                marks[i + 1],
            ),
    ensures
        marks.last().anchor == marks[0].anchor,
        forall|v: u32|
            !is_newer(marks[0].newest, v) ==> !#[trigger] is_newer(marks.last().newest, v),
    decreases versions.len(),
{
    if versions.len() > 0 {
        let n = versions.len() - 1;
        assert(offered(marks[n], versions[n], stored[n], marks[n + 1]));
        let (m, v, s) = (marks.drop_last(), versions.drop_last(), stored.drop_last());
        assert forall|i: int| 0 <= i < v.len() implies offered(
            #[trigger] m[i],
            v[i],
            s[i],
            m[i + 1],
        ) by {
            assert(marks[i] == m[i]);
        }
        law_the_mark_never_goes_back(m, v, s);
        assert(m.last() == marks[n]);
        assert forall|x: u32| !is_newer(marks[0].newest, x) implies !#[trigger] is_newer(
            marks.last().newest,
            x,
        ) by {
            assert(!is_newer(m.last().newest, x));
        }
    }
}

/// The mark a relying party starts from when it treats lost state as no state:
/// the stored version if the text names this anchor and a version, else nothing.
pub open spec fn lenient_mark(found: Stored, anchor: Seq<u8>) -> Option<u32> {
    match found {
        Stored::Bytes(bytes) => {
            let w = words(decode_utf8(bytes@));
            if valid_utf8(bytes@) && w.len() >= 2 && w[0] == hex_text(anchor) && parse_upto(
                w[1],
                u32::MAX as nat,
            ) is Some {
                Some(parse_upto(w[1], u32::MAX as nat)->0 as u32)
            } else {
                None
            }
        },
        _ => None,
    }
}

impl HighWaterMark {
    /// Loads the mark for the trust domain of `anchor` and starts empty when there
    /// is none that can be read. [`HighWaterMark::open`] refuses instead.
    pub fn load(anchor: &[u8], found: Stored) -> (mark: HighWaterMark)
        ensures
            mark@ == (Mark {
                anchor: sha3_256(anchor@),
                newest: lenient_mark(found, sha3_256(anchor@)),
            }),
    {
        let fingerprint = sha3_256_digest(anchor);
        let empty = HighWaterMark { fingerprint, current: 0, have: false };
        match found {
            Stored::Bytes(bytes) => match utf8_text(bytes) {
                Some(text) => {
                    let chars = chars_of(text.as_str());
                    let list = split_words(chars.as_slice());
                    assert(words(text@).len() == list@.len());
                    if list.len() < 2 {
                        return empty;
                    }
                    assert(words(text@)[0] == list@[0]@ && words(text@)[1] == list@[1]@);
                    let mut expected: String = String::new();
                    push_hex(&mut expected, fingerprint.as_slice());
                    assert(expected@ =~= hex_text(fingerprint@));
                    match parse_u32(list[1].as_slice()) {
                        Some(current) => if is_text(list[0].as_slice(), expected.as_str()) {
                            HighWaterMark { fingerprint, current, have: true }
                        } else {
                            empty
                        },
                        None => empty,
                    }
                },
                None => empty,
            },
            _ => empty,
        }
    }
}

impl HighWaterMarkError {
    /// The refusal in words.
    pub open spec fn message(self) -> Seq<char> {
        match self {
            HighWaterMarkError::State(why) => "unusable high-water mark: "@ + why@,
            HighWaterMarkError::Busy => "another process holds this high-water mark"@,
            HighWaterMarkError::Io(why) => "high-water mark I/O failed: "@ + why@,
        }
    }

    /// The refusal in words.
    pub fn text(&self) -> (text: String)
        ensures
            text@ == self.message(),
    {
        match self {
            HighWaterMarkError::State(why) => joined("unusable high-water mark: ", why.as_str()),
            HighWaterMarkError::Busy => "another process holds this high-water mark".to_owned(),
            HighWaterMarkError::Io(why) => joined("high-water mark I/O failed: ", why.as_str()),
        }
    }
}

/// Over a mark exactly the higher versions may be accepted, and over no mark every one.
pub proof fn law_exactly_higher_versions_are_newer(newest: u32, version: u32)
    ensures
        is_newer(None, version),
        version > newest <==> is_newer(Some(newest), version),
{
}

/// Offering a version moves the mark exactly when it is higher than every one accepted
/// before and could be stored; then the mark is that version.
pub proof fn law_an_offer_moves_the_mark_up_to_its_version(
    before: Mark,
    version: u32,
    stored: bool,
    after: Mark,
)
    requires
        offered(before, version, stored, after),
    ensures
        after.anchor == before.anchor,
        stored && before.newest is None ==> after.newest == Some(version),
        stored && before.newest is Some ==> after.newest == Some(
            if version > before.newest->0 {
                version
            } else {
                before.newest->0
            },
        ),
        !stored ==> after == before,
{
}

/// Stored text is a mark exactly when it is two words, the anchor's fingerprint in
/// hexadecimal and either `none` or a version; everything else is refused for what is wrong
/// with it first.
pub proof fn law_stored_text_is_two_words(text: Seq<char>, anchor: Seq<u8>, version: u32)
    ensures
        parse_mark(text, anchor) == Ok::<Option<u32>, MarkStateError>(None) <==> words(text)
            == seq![hex_text(anchor), "none"@],
        parse_mark(text, anchor) == Ok::<Option<u32>, MarkStateError>(Some(version)) <==> {
            &&& words(text).len() == 2
            &&& words(text)[0] == hex_text(anchor)
            &&& parse_upto(words(text)[1], u32::MAX as nat) == Some(version as nat)
        },
        words(text).len() == 0 <==> parse_mark(text, anchor) == Err::<Option<u32>, MarkStateError>(
            MarkStateError::Empty,
        ),
        words(text).len() == 1 <==> parse_mark(text, anchor) == Err::<Option<u32>, MarkStateError>(
            MarkStateError::MissingValue,
        ),
        words(text).len() > 2 <==> parse_mark(text, anchor) == Err::<Option<u32>, MarkStateError>(
            MarkStateError::Trailing,
        ),
        words(text).len() == 2 && words(text)[0] != hex_text(anchor) <==> parse_mark(text, anchor)
            == Err::<Option<u32>, MarkStateError>(MarkStateError::Foreign),
        parse_mark(text, anchor) != Err::<Option<u32>, MarkStateError>(MarkStateError::NotUtf8),
{
    let w = words(text);
    reveal_strlit("none");
    assert("none"@[0] == 'n');
    assert(!crate::text::is_digit("none"@[0]));
    if w.len() == 2 && w[0] == hex_text(anchor) && w[1] == "none"@ {
        assert(w =~= seq![hex_text(anchor), "none"@]);
    }
    if w == seq![hex_text(anchor), "none"@] {
        assert(w[0] == hex_text(anchor) && w[1] == "none"@);
    }
}

/// Starting leniently takes the stored version where the strict reading would, and starts
/// empty where nothing can be read, where the state is no text, names another anchor or
/// names no version.
pub proof fn law_a_lenient_start_keeps_a_valid_mark(bytes: Vec<u8>, anchor: Seq<u8>)
    ensures
        read_mark(bytes@, anchor) is Ok ==> lenient_mark(Stored::Bytes(bytes), anchor) == read_mark(
            bytes@,
            anchor,
        )->Ok_0,
        forall|why: String| #[trigger] lenient_mark(Stored::Missing(why), anchor) is None,
        forall|why: String| #[trigger] lenient_mark(Stored::Unreadable(why), anchor) is None,
        !valid_utf8(bytes@) ==> lenient_mark(Stored::Bytes(bytes), anchor) is None,
        lenient_mark(Stored::Bytes(bytes), anchor) is Some ==> {
            let w = words(decode_utf8(bytes@));
            &&& valid_utf8(bytes@)
            &&& w.len() >= 2
            &&& w[0] == hex_text(anchor)
            &&& parse_upto(w[1], u32::MAX as nat) == Some(
                lenient_mark(Stored::Bytes(bytes), anchor)->0 as nat,
            )
        },
{
    reveal_strlit("none");
    assert("none"@[0] == 'n');
    assert(!crate::text::is_digit("none"@[0]));
}

/// A mark that was stored is what a lenient start finds, under its own anchor alone.
pub proof fn law_a_stored_mark_survives_a_lenient_start(
    mark: Mark,
    bytes: Vec<u8>,
    other: Seq<u8>,
)
    requires
        mark.anchor.len() == 32,
        bytes@ == encode_utf8(mark.line()),
    ensures
        lenient_mark(Stored::Bytes(bytes), mark.anchor) == mark.newest,
        other != mark.anchor ==> lenient_mark(Stored::Bytes(bytes), other) is None,
{
    law_the_mark_survives_a_restart(mark);
    law_a_lenient_start_keeps_a_valid_mark(bytes, mark.anchor);
    if other != mark.anchor {
        law_a_mark_does_not_serve_another_anchor(mark, other);
        law_stored_text_is_two_words(mark.line(), other, 0);
        vstd::utf8::encode_utf8_decode_utf8(mark.line());
    }
}

/// A new mark holds no version, and opening what was stored for it gives it back under the
/// same anchor. Where anything is already stored, nothing is created.
pub proof fn law_a_created_mark_is_opened_again(
    path: &str,
    anchor: &[u8],
    why: String,
    created: Result<(HighWaterMark, String), HighWaterMarkError>,
    bytes: Vec<u8>,
    opened: Result<HighWaterMark, HighWaterMarkError>,
    again: Result<(HighWaterMark, String), HighWaterMarkError>,
)
    requires
        call_ensures(
            HighWaterMark::create,
            (path, anchor, Locking::Acquired, Stored::Missing(why)),
            created,
        ),
        created is Ok ==> bytes@ == encode_utf8((created->Ok_0).1@),
        call_ensures(
            HighWaterMark::open,
            (path, anchor, Locking::Acquired, Stored::Bytes(bytes)),
            opened,
        ),
        call_ensures(
            HighWaterMark::create,
            (path, anchor, Locking::Acquired, Stored::Bytes(bytes)),
            again,
        ),
    ensures
        created is Ok,
        (created->Ok_0).0@ == (Mark { anchor: sha3_256(anchor@), newest: None }),
        opened is Ok,
        (opened->Ok_0)@ == (created->Ok_0).0@,
        again is Err,
{
    law_the_mark_survives_a_restart((created->Ok_0).0@);
}

/// Recovery from a trusted source takes its version where nothing valid is stored, and what
/// it stores is opened again as that mark; valid state is never replaced.
pub proof fn law_recovery_never_replaces_valid_state(
    path: &str,
    anchor: &[u8],
    found: Stored,
    version: u32,
    recovered: Result<(HighWaterMark, String), HighWaterMarkError>,
    bytes: Vec<u8>,
    opened: Result<HighWaterMark, HighWaterMarkError>,
)
    requires
        found !is Unreadable,
        call_ensures(
            HighWaterMark::load_from_trusted_source,
            (path, anchor, Locking::Acquired, found, version),
            recovered,
        ),
        recovered is Ok ==> bytes@ == encode_utf8((recovered->Ok_0).1@),
        call_ensures(
            HighWaterMark::open,
            (path, anchor, Locking::Acquired, Stored::Bytes(bytes)),
            opened,
        ),
    ensures
        recovered is Err <==> found is Bytes && read_mark(
            found->Bytes_0@,
            sha3_256(anchor@),
        ) is Ok,
        recovered is Ok ==> opened is Ok && (opened->Ok_0)@ == (recovered->Ok_0).0@
            && (opened->Ok_0)@.newest == Some(version) && (opened->Ok_0)@.anchor == sha3_256(
            anchor@,
        ),
{
    if recovered is Ok {
        law_the_mark_survives_a_restart((recovered->Ok_0).0@);
    }
}

} // verus!

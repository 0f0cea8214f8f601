//! The credential the holder asks for, and the fingerprint the committee signs.
//!
//! The list holds fingerprints, never credentials. A fingerprint is taken over the
//! credential's canonical form, so that the holder hashes what the issuer hashed.
use crate::bytes::{bytes_eq, views};
use crate::hash::{hash_any, sha3_256};
use crate::text::{decimal, hex_text, lossy_text, push_decimal, push_hex, utf8_text_lossy};
use rand::RngExt;
use vstd::prelude::*;
use vstd::string::*;

verus! {

/// How a character stands in a quoted JSON text: the quote, the backslash and the control
/// characters are escaped.
pub open spec fn json_escaped(c: char) -> Seq<char> {
    if c == '"' || c == '\\' {
        seq!['\\', c]
    } else if c == '\u{8}' {
        seq!['\\', 'b']
    } else if c == '\t' {
        seq!['\\', 't']
    } else if c == '\n' {
        seq!['\\', 'n']
    } else if c == '\u{c}' {
        seq!['\\', 'f']
    } else if c == '\r' {
        seq!['\\', 'r']
    } else if (c as u32) < 32 {
        seq!['\\', 'u', '0', '0'] + hex_text(seq![c as u8])
    } else {
        seq![c]
    }
}

/// The characters of a text as they stand in its JSON form, between the quotes.
pub open spec fn json_inner(text: Seq<char>) -> Seq<char>
    decreases text.len(),
{
    if text.len() == 0 {
        Seq::empty()
    } else {
        json_inner(text.drop_last()) + json_escaped(text.last())
    }
}

/// The JSON form of a text, quotes included.
pub open spec fn json_quoted(text: Seq<char>) -> Seq<char> {
    seq!['"'] + json_inner(text) + seq!['"']
}

/// The canonical form of a JSON text, if it is one.
pub uninterp spec fn jcs_canonical(json: Seq<char>) -> Option<Seq<u8>>;

/// The indented form of a JSON text, if it is one.
pub uninterp spec fn json_indented(json: Seq<u8>) -> Option<Seq<char>>;

/// Calls `serde_json::to_string` on a text: every text has a JSON form, with quotes
/// around it and what has to be escaped inside.
#[verifier::external_body]
fn quote(text: &str) -> (quoted: Option<String>)
    ensures
        quoted is Some,
        quoted->0@ == json_quoted(text@),
{
    serde_json::to_string(text).ok()
}

/// Calls `serde_json::from_str` and `serde_jcs::to_vec`: reads a JSON text and
/// writes it in its canonical form, which is a function of the text. What is no
/// JSON text has none.
#[verifier::external_body]
fn canonical(json: &str) -> (bytes: Option<Vec<u8>>)
    ensures
        match bytes {
            Some(b) => jcs_canonical(json@) == Some(b@),
            None => jcs_canonical(json@) is None,
        },
{
    match serde_json::from_str::<serde_json::Value>(json) {
        Ok(value) => serde_jcs::to_vec(&value).ok(),
        Err(_) => None,
    }
}

/// Calls `serde_json::from_slice` and `serde_json::to_string_pretty`: reads a JSON
/// text and writes it with line breaks and indentation, which is a function of the
/// bytes. What is no JSON text has no such form.
#[verifier::external_body]
fn indented(json: &[u8]) -> (text: Option<String>)
    ensures
        match text {
            Some(t) => json_indented(json@) == Some(t@),
            None => json_indented(json@) is None,
        },
{
    match serde_json::from_slice::<serde_json::Value>(json) {
        Ok(value) => serde_json::to_string_pretty(&value).ok(),
        Err(_) => None,
    }
}

/// Calls `rand::rng` and `RngExt::random`. Which bytes come depends on chance, and
/// nothing is claimed of them.
#[verifier::external_body]
pub(crate) fn random_bytes() -> (bytes: [u8; 16])
{
    rand::rng().random()
}

/// The JSON text of a credential, where `subject` is already quoted.
pub open spec fn credential_text(
    subject: Seq<char>,
    version: u32,
    issuer_index: usize,
    id: Seq<u8>,
) -> Seq<char> {
    "{\"@context\":[\"https://www.w3.org/ns/credentials/v2\"],"@
        + "\"type\":[\"VerifiableCredential\",\"DemoStatusCredential\"],"@
        + "\"id\":\"urn:uuid:"@ + hex_text(id)
        + "\",\"issuer\":\"did:demo:committee#member-"@ + decimal(issuer_index as nat)
        + "\",\"credentialSubject\":{\"id\":"@ + subject
        + "},\"credentialStatus\":{\"type\":\"CommitteeStatusList\",\"statusListVersion\":"@
        + decimal(version as nat) + "}}"@
}

/// The JSON text of a credential, where `subject` is already quoted.
pub fn credential_json(subject: &str, version: u32, issuer_index: usize, id: &[u8; 16]) -> (json:
    String)
    ensures
        json@ == credential_text(subject@, version, issuer_index, id@),
{
    let mut json: String =
        "{\"@context\":[\"https://www.w3.org/ns/credentials/v2\"],".to_owned();
    json.append("\"type\":[\"VerifiableCredential\",\"DemoStatusCredential\"],");
    json.append("\"id\":\"urn:uuid:");
    push_hex(&mut json, id.as_slice());
    json.append("\",\"issuer\":\"did:demo:committee#member-");
    push_decimal(&mut json, issuer_index as u64);
    json.append("\",\"credentialSubject\":{\"id\":");
    json.append(subject);
    json.append("},\"credentialStatus\":{\"type\":\"CommitteeStatusList\",\"statusListVersion\":");
    push_decimal(&mut json, version as u64);
    json.append("}}");
    json
}

/// The credential for `subject` with the identifier `id`.
pub open spec fn credential_of(
    subject: Seq<char>,
    version: u32,
    issuer_index: usize,
    id: Seq<u8>,
) -> Option<Seq<u8>> {
    jcs_canonical(credential_text(json_quoted(subject), version, issuer_index, id))
}

/// The contents of an optional byte string.
pub open spec fn bytes_view(bytes: Option<Vec<u8>>) -> Option<Seq<u8>> {
    match bytes {
        Some(b) => Some(b@),
        None => None,
    }
}

/// Mints the credential for `subject` with the identifier `id`: the list version it
/// is registered in and the member that issues it go in.
pub fn issue_with_id(subject: &str, version: u32, issuer_index: usize, id: &[u8; 16]) -> (credential:
    Option<Vec<u8>>)
    ensures
        bytes_view(credential) == credential_of(subject@, version, issuer_index, id@),
{
    match quote(subject) {
        Some(quoted) => {
            let json = credential_json(quoted.as_str(), version, issuer_index, id);
            canonical(json.as_str())
        },
        None => None,
    }
}

/// Mints a credential for `subject` with a random identifier, so that two requests
/// do not give the same fingerprint.
pub fn issue(subject: &str, version: u32, issuer_index: usize) -> (credential: Option<Vec<u8>>)
    ensures
        exists|id: Seq<u8>|
            id.len() == 16 && bytes_view(credential) == #[trigger] credential_of(
                subject@,
                version,
                issuer_index,
                id,
            ),
{
    let id: [u8; 16] = random_bytes();
    issue_with_id(subject, version, issuer_index, &id)
}

/// The entry a credential occupies in the list: the hash of its bytes as they
/// travel.
pub fn fingerprint(credential: &[u8]) -> (entry: [u8; 32])
    ensures
        entry@ == sha3_256(credential@),
{
    hash_any(credential)
}

/// The text shown for a credential.
pub open spec fn shown(indented: Option<Seq<char>>, credential: Seq<u8>) -> Seq<char> {
    match indented {
        Some(t) => t,
        None => lossy_text(credential),
    }
}

/// The text shown for a credential whose indented form is known.
pub fn shown_as(indented: Option<String>, credential: &[u8]) -> (text: String)
    ensures
        text@ == shown(
            match indented {
                Some(t) => Some(t@),
                None => None,
            },
            credential@,
        ),
{
    match indented {
        Some(t) => t,
        None => utf8_text_lossy(credential),
    }
}

/// The credential as it should be read by a human.
pub fn pretty(credential: &[u8]) -> (text: String)
    ensures
        text@ == shown(json_indented(credential@), credential@),
{
    shown_as(indented(credential), credential)
}

/// Two hexadecimal digits for each byte.
pub fn hex(bytes: &[u8]) -> (text: String)
    ensures
        text@ == hex_text(bytes@),
{
    let mut text: String = String::new();
    push_hex(&mut text, bytes);
    assert(text@ =~= hex_text(bytes@));
    text
}

// ---- the list ----------------------------------------------------------------

/// Where an entry first stands in a list, or nothing.
pub fn position(list: &[[u8; 32]], entry: &[u8; 32]) -> (at: Option<usize>)
    ensures
        match at {
            Some(i) => i < list@.len() && list@[i as int]@ == entry@ && forall|j: int|
                0 <= j < i ==> (#[trigger] list@[j])@ != entry@,
            None => !views(list@).contains(entry@),
        },
{
    let mut i: usize = 0;
    while i < list.len()
        invariant
            i <= list@.len(),
            forall|j: int| 0 <= j < i ==> (#[trigger] list@[j])@ != entry@,
        decreases list@.len() - i,
    {
        if bytes_eq(list[i].as_slice(), entry.as_slice()) {
            return Some(i);
        }
        i = i + 1;
    }
    proof {
        if views(list@).contains(entry@) {
            let j = choose|j: int| 0 <= j < views(list@).len() && views(list@)[j] == entry@;
            assert(list@[j]@ == entry@);
        }
    }
    None
}

/// Whether a credential is in a list.
pub fn is_valid(list: &[[u8; 32]], credential: &[u8]) -> (r: bool)
    ensures
        r == views(list@).contains(sha3_256(credential@)),
{
    let entry = fingerprint(credential);
    match position(list, &entry) {
        Some(i) => {
            assert(views(list@)[i as int] == entry@);
            true
        },
        None => false,
    }
}

/// Adds a credential to a list, unless it is there.
pub fn add_valid(list: &mut Vec<[u8; 32]>, credential: &[u8]) -> (added: bool)
    ensures
        ({
            let (before, entry) = (views(old(list)@), sha3_256(credential@));
            if before.contains(entry) {
                !added && final(list)@ == old(list)@
            } else {
                added && views(final(list)@) == before.push(entry)
            }
        }),
{
    if is_valid(list.as_slice(), credential) {
        return false;
    }
    let ghost before = list@;
    let entry = fingerprint(credential);
    list.push(entry);
    assert(views(list@) =~= views(before).push(entry@));
    true
}

/// Whether `after` is `before` without `entry` where it first stands.
pub open spec fn removed_from(before: Seq<Seq<u8>>, entry: Seq<u8>, after: Seq<Seq<u8>>) -> bool {
    exists|i: int|
        #![trigger before.remove(i)]
        {
            &&& 0 <= i < before.len()
            &&& before[i] == entry
            &&& forall|j: int| 0 <= j < i ==> #[trigger] before[j] != entry
            &&& after == before.remove(i)
        }
}

/// Takes a credential off a list, where it is first; a credential that is not there
/// changes nothing.
pub fn revoke(list: &mut Vec<[u8; 32]>, credential: &[u8]) -> (removed: bool)
    ensures
        ({
            let (before, entry) = (views(old(list)@), sha3_256(credential@));
            if before.contains(entry) {
                removed && removed_from(before, entry, views(final(list)@))
            } else {
                !removed && final(list)@ == old(list)@
            }
        }),
{
    let entry = fingerprint(credential);
    match position(list.as_slice(), &entry) {
        Some(i) => {
            let ghost before = list@;
            assert(views(before)[i as int] == entry@);
            let gone = list.remove(i);
            assert(views(list@) =~= views(before).remove(i as int));
            true
        },
        None => false,
    }
}

/// Whether no entry occurs twice.
pub open spec fn no_entry_twice(list: Seq<Seq<u8>>) -> bool {
    forall|i: int, j: int| 0 <= i < j < list.len() ==> #[trigger] list[i] != #[trigger] list[j]
}

/// A list that holds nothing twice goes on to do so when an absent entry is added.
pub proof fn law_adding_keeps_entries_distinct(list: Seq<Seq<u8>>, entry: Seq<u8>)
    requires
        no_entry_twice(list),
        !list.contains(entry),
    ensures
        no_entry_twice(list.push(entry)),
        list.push(entry).contains(entry),
{
    let longer = list.push(entry);
    assert(longer[list.len() as int] == entry);
    assert forall|i: int, j: int| 0 <= i < j < longer.len() implies #[trigger] longer[i]
        != #[trigger] longer[j] by {
        if j == list.len() {
            assert(list[i] != entry);
        }
    }
}

/// A revoked credential is gone from a list that held nothing twice, and every
/// other entry stays.
pub proof fn law_a_revoked_entry_is_gone(list: Seq<Seq<u8>>, i: int, other: Seq<u8>)
    requires
        no_entry_twice(list),
        0 <= i < list.len(),
    ensures
        !list.remove(i).contains(list[i]),
        other != list[i] ==> list.remove(i).contains(other) == list.contains(other),
        no_entry_twice(list.remove(i)),
{
    let shorter = list.remove(i);
    assert forall|j: int| 0 <= j < shorter.len() implies #[trigger] shorter[j] == list[if j < i {
        j
    } else {
        j + 1
    }] by {}
    if other != list[i] && list.contains(other) {
        let k = choose|k: int| 0 <= k < list.len() && list[k] == other;
        assert(shorter[if k < i {
            k
        } else {
            k - 1
        }] == other);
    }
}

/// Revoking what was just added gives the list back.
pub proof fn law_revoking_undoes_adding(list: Seq<Seq<u8>>, entry: Seq<u8>, i: int)
    requires
        !list.contains(entry),
        0 <= i < list.push(entry).len(),
        list.push(entry)[i] == entry,
    ensures
        list.push(entry).remove(i) == list,
{
    if i < list.len() {
        assert(list[i] == entry);
    }
    assert(list.push(entry).remove(i) =~= list);
}

/// What the text of a credential says: it opens with its context, its type and its
/// identifier, it names the member that issues it and the subject it is for, and it closes
/// with the list version it is registered in.
pub proof fn law_a_credential_says_what_it_is_for(
    subject: Seq<char>,
    version: u32,
    issuer_index: usize,
    id: Seq<u8>,
)
    ensures
        ({
            let text = credential_text(subject, version, issuer_index, id);
            let opening = "{\"@context\":[\"https://www.w3.org/ns/credentials/v2\"],"@
                + "\"type\":[\"VerifiableCredential\",\"DemoStatusCredential\"],"@
                + "\"id\":\"urn:uuid:"@ + hex_text(id) + "\""@;
            let closing = "\"statusListVersion\":"@ + decimal(version as nat) + "}}"@;
            &&& text.len() >= opening.len() + closing.len()
            &&& text.subrange(0, opening.len() as int) == opening
            &&& text.subrange(text.len() - closing.len(), text.len() as int) == closing
            &&& exists|before: Seq<char>, after: Seq<char>|
                text == #[trigger] (before + ("\"issuer\":\"did:demo:committee#member-"@ + decimal(
                    issuer_index as nat,
                ) + "\","@) + after)
            &&& exists|before: Seq<char>, after: Seq<char>|
                text == #[trigger] (before + ("\"credentialSubject\":{\"id\":"@ + subject + "},"@)
                    + after)
        }),
{
    let text = credential_text(subject, version, issuer_index, id);
    let first = "{\"@context\":[\"https://www.w3.org/ns/credentials/v2\"],"@
        + "\"type\":[\"VerifiableCredential\",\"DemoStatusCredential\"],"@ + "\"id\":\"urn:uuid:"@;
    let (hex, number, closed) = (
        hex_text(id),
        decimal(issuer_index as nat),
        decimal(version as nat),
    );
    let issuer = "\"issuer\":\"did:demo:committee#member-"@;
    let holder = "\"credentialSubject\":{\"id\":"@;
    let status = "\"credentialStatus\":{\"type\":\"CommitteeStatusList\","@;
    let listed = "\"statusListVersion\":"@;
    reveal_strlit("\"");
    reveal_strlit(",");
    reveal_strlit("\",");
    reveal_strlit("},");
    reveal_strlit("\"issuer\":\"did:demo:committee#member-");
    reveal_strlit("\"credentialSubject\":{\"id\":");
    reveal_strlit("\"credentialStatus\":{\"type\":\"CommitteeStatusList\",");
    reveal_strlit("\"statusListVersion\":");
    assert("\",\"issuer\":\"did:demo:committee#member-"@ =~= "\""@ + ","@ + issuer) by {
        reveal_strlit("\",\"issuer\":\"did:demo:committee#member-");
    }
    assert("\",\"credentialSubject\":{\"id\":"@ =~= "\","@ + holder) by {
        reveal_strlit("\",\"credentialSubject\":{\"id\":");
    }
    assert("},\"credentialStatus\":{\"type\":\"CommitteeStatusList\",\"statusListVersion\":"@
        =~= "},"@ + status + listed) by {
        reveal_strlit(
            "},\"credentialStatus\":{\"type\":\"CommitteeStatusList\",\"statusListVersion\":",
        );
    }
    let opening = first + hex + "\""@;
    let closing = listed + closed + "}}"@;
    let middle = ","@ + issuer + number + "\","@ + holder + subject + "},"@ + status;
    assert(text =~= opening + middle + closing);
    assert(text.subrange(0, opening.len() as int) =~= opening);
    assert(text.subrange(text.len() - closing.len(), text.len() as int) =~= closing);
    let to_issuer = opening + ","@;
    let from_holder = holder + subject + "},"@ + status + closing;
    assert(text =~= to_issuer + (issuer + number + "\","@) + from_holder);
    let to_holder = opening + ","@ + issuer + number + "\","@;
    let from_status = status + closing;
    assert(text =~= to_holder + (holder + subject + "},"@) + from_status);
}

/// Taking an entry off a list that holds it takes off exactly one: where the entry first
/// stands, what comes before stays, and what comes after moves up by one place. From a list
/// that does not hold it nothing can be taken.
pub proof fn law_removing_takes_off_the_first_occurrence(
    before: Seq<Seq<u8>>,
    entry: Seq<u8>,
    after: Seq<Seq<u8>>,
)
    ensures
        removed_from(before, entry, after) ==> before.contains(entry) && after.len() + 1
            == before.len() && exists|i: int|
            {
                &&& 0 <= i < before.len()
                &&& #[trigger] before[i] == entry
                &&& !before.subrange(0, i).contains(entry)
                &&& before == after.subrange(0, i).push(entry) + after.subrange(
                    i,
                    after.len() as int,
                )
            },
        forall|i: int|
            0 <= i < before.len() && #[trigger] before[i] == entry && !before.subrange(
                0,
                i,
            ).contains(entry) && before == after.subrange(0, i).push(entry) + after.subrange(
                i,
                after.len() as int,
            ) && i <= after.len() ==> removed_from(before, entry, after),
        before.contains(entry) ==> exists|rest: Seq<Seq<u8>>|
            #[trigger] removed_from(before, entry, rest),
{
    if removed_from(before, entry, after) {
        let i = choose|i: int|
            #![trigger before.remove(i)]
            {
                &&& 0 <= i < before.len()
                &&& before[i] == entry
                &&& forall|j: int| 0 <= j < i ==> #[trigger] before[j] != entry
                &&& after == before.remove(i)
            };
        assert(before[i] == entry);
        assert(before =~= after.subrange(0, i).push(entry) + after.subrange(
            i,
            after.len() as int,
        ));
        assert(!before.subrange(0, i).contains(entry));
    }
    assert forall|i: int|
        0 <= i < before.len() && #[trigger] before[i] == entry && !before.subrange(0, i).contains(
            entry,
        ) && before == after.subrange(0, i).push(entry) + after.subrange(i, after.len() as int) && i
            <= after.len() implies removed_from(before, entry, after) by {
        assert forall|j: int| 0 <= j < i implies #[trigger] before[j] != entry by {
            assert(before.subrange(0, i)[j] == before[j]);
        }
        assert(after =~= before.remove(i));
    }
    if before.contains(entry) {
        lemma_first_occurrence(before, entry, before.len() as int);
        let i = choose|i: int|
            0 <= i < before.len() && #[trigger] before[i] == entry && forall|j: int|
                0 <= j < i ==> before[j] != entry;
        assert(removed_from(before, entry, before.remove(i)));
    }
}

proof fn lemma_first_occurrence(list: Seq<Seq<u8>>, entry: Seq<u8>, n: int)
    requires
        0 <= n <= list.len(),
        exists|i: int| 0 <= i < n && #[trigger] list[i] == entry,
    ensures
        exists|i: int|
            0 <= i < n && #[trigger] list[i] == entry && forall|j: int|
                0 <= j < i ==> list[j] != entry,
    decreases n,
{
    let i = choose|i: int| 0 <= i < n && #[trigger] list[i] == entry;
    if exists|j: int| 0 <= j < i && #[trigger] list[j] == entry {
        lemma_first_occurrence(list, entry, i);
    }
}

} // verus!

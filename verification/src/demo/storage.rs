//! The shared volumes and the private one: names of files and what their contents
//! come to.
//!
//! A record's authority comes from the signatures inside it, never from where it
//! was found; a name only orders candidates.
use crate::bytes::{le64, lemma_le64, lemma_same_split, push_all, push_le64};
use crate::hash::{sha3_256, sha3_256_digest};
use crate::protocol::committee::{decode_anchor, Anchor, Committee, CommitteeError};
use crate::text::{
    all_digits, begins_with, chars_of, decimal, digits_value, is_digit, joined, lemma_decimal,
    lemma_text_less_asymmetric, lemma_text_less_prefix, lemma_text_less_suffix, padded, parse_u32, parse_upto, push_padded,
    starts_with, text_less,
};
use vstd::prelude::*;
use vstd::string::*;

verus! {

/// The file that identifies a run of the network. Member keys derive from it.
pub const RUN_ID: &'static str = "run-id";

/// The assembled trust anchor.
pub const ANCHOR: &'static str = "anchor.bin";

/// A directory, by its setting or by default.
pub open spec fn dir_or(setting: Option<&str>, default: Seq<char>) -> Seq<char> {
    match setting {
        Some(s) => s@,
        None => default,
    }
}

fn dir_from_env(setting: Option<&str>, default: &str) -> (dir: String)
    ensures
        dir@ == dir_or(setting, default@),
{
    match setting {
        Some(s) => s.to_owned(),
        None => default.to_owned(),
    }
}

/// The bootstrap volume: run identifier, public keys and the anchor.
pub fn committee_dir(setting: Option<&str>) -> (dir: String)
    ensures
        dir@ == dir_or(setting, "/shared/committee"@),
{
    dir_from_env(setting, "/shared/committee")
}

/// The volume records are published to.
pub fn storage_dir(setting: Option<&str>) -> (dir: String)
    ensures
        dir@ == dir_or(setting, "/shared/storage"@),
{
    dir_from_env(setting, "/shared/storage")
}

/// The volume that is private to one node.
pub fn state_dir(setting: Option<&str>) -> (dir: String)
    ensures
        dir@ == dir_or(setting, "/state"@),
{
    dir_from_env(setting, "/state")
}

/// The file `name` in the directory `dir`.
pub open spec fn in_dir(dir: Seq<char>, name: Seq<char>) -> Seq<char> {
    if dir.len() == 0 || dir.last() == '/' {
        dir + name
    } else {
        dir + "/"@ + name
    }
}

/// The file `name` in the directory `dir`.
pub fn file_in(dir: &str, name: &str) -> (path: String)
    ensures
        path@ == in_dir(dir@, name@),
{
    let chars = chars_of(dir);
    let n: usize = chars.len();
    let mut path: String = dir.to_owned();
    if n > 0 && chars[n - 1] != '/' {
        path.append("/");
    }
    path.append(name);
    path
}

/// Where member `index` publishes its public key.
pub fn member_key_file(dir: &str, index: usize) -> (path: String)
    ensures
        path@ == in_dir(dir@, "pk-"@ + padded(index as nat, 2) + ".ssz"@),
{
    let mut name: String = "pk-".to_owned();
    push_padded(&mut name, index as u64, 2);
    name.append(".ssz");
    file_in(dir, name.as_str())
}

// ---- waiting for a file ------------------------------------------------------

/// What to do about a file that is waited for.
pub enum Wait {
    /// It is there, with these contents.
    Ready(Vec<u8>),
    /// It did not appear in time.
    TimedOut(String),
    /// Look again later.
    Again,
}

/// Whether `w` is what a look at `path` comes to: an empty file does not count, and
/// a file that is there counts even when the time is over.
pub open spec fn waited(
    path: Seq<char>,
    limit: Seq<char>,
    found: Option<Vec<u8>>,
    expired: bool,
    w: Wait,
) -> bool {
    if found is Some && found->0@.len() > 0 {
        w is Ready && w->Ready_0 == found->0
    } else if expired {
        w is TimedOut && w->TimedOut_0@ == path + " did not appear within "@ + limit
    } else {
        w is Again
    }
}

/// What to do after one look at `path`, where `found` are its contents if it could
/// be read and `expired` says whether the time, which is `limit` in words, is over.
pub fn wait_for(path: &str, limit: &str, found: Option<Vec<u8>>, expired: bool) -> (w: Wait)
    ensures
        waited(path@, limit@, found, expired, w),
{
    match found {
        Some(bytes) => {
            if bytes.len() > 0 {
                return Wait::Ready(bytes);
            }
        },
        None => {},
    }
    if expired {
        let mut text: String = joined(path, " did not appear within ");
        text.append(limit);
        Wait::TimedOut(text)
    } else {
        Wait::Again
    }
}

/// The file that holds the run identifier.
pub fn run_id_file(dir: &str) -> (path: String)
    ensures
        path@ == in_dir(dir@, RUN_ID@),
{
    file_in(dir, RUN_ID)
}

/// The file that holds the anchor.
pub fn anchor_file(dir: &str) -> (path: String)
    ensures
        path@ == in_dir(dir@, ANCHOR@),
{
    file_in(dir, ANCHOR)
}

/// What to do after one look for the run identifier.
pub fn wait_for_run_id(dir: &str, limit: &str, found: Option<Vec<u8>>, expired: bool) -> (w: Wait)
    ensures
        waited(in_dir(dir@, RUN_ID@), limit@, found, expired, w),
{
    let path = run_id_file(dir);
    wait_for(path.as_str(), limit, found, expired)
}

/// What to do about an anchor that is waited for.
pub enum CommitteeWait {
    /// The anchor.
    Ready(Committee),
    /// What was found is no anchor.
    Malformed(CommitteeError),
    /// It did not appear in time.
    TimedOut(String),
    /// Look again later.
    Again,
}

/// What to do after one look for the anchor.
pub fn wait_for_committee(dir: &str, limit: &str, found: Option<Vec<u8>>, expired: bool) -> (w:
    CommitteeWait)
    ensures
        ({
            let there = found is Some && found->0@.len() > 0;
            match w {
                CommitteeWait::Ready(c) => there && decode_anchor(found->0@) == Ok::<
                    Anchor,
                    CommitteeError,
                >(c@) && c@.wf(),
                CommitteeWait::Malformed(e) => there && decode_anchor(found->0@) == Err::<
                    Anchor,
                    CommitteeError,
                >(e),
                CommitteeWait::TimedOut(text) => !there && expired && text@ == in_dir(
                    dir@,
                    ANCHOR@,
                ) + " did not appear within "@ + limit@,
                CommitteeWait::Again => !there && !expired,
            }
        }),
{
    let path = anchor_file(dir);
    match wait_for(path.as_str(), limit, found, expired) {
        Wait::Ready(bytes) => match Committee::from_bytes(bytes.as_slice()) {
            Ok(committee) => CommitteeWait::Ready(committee),
            Err(e) => CommitteeWait::Malformed(e),
        },
        Wait::TimedOut(text) => CommitteeWait::TimedOut(text),
        Wait::Again => CommitteeWait::Again,
    }
}

// ---- member seeds ------------------------------------------------------------

/// What a member's seed is the hash of.
pub open spec fn seed_preimage(secret: Seq<u8>, run_id: Seq<u8>, index: u64) -> Seq<u8> {
    "drot-demo/member-seed/v1".spec_bytes() + secret + run_id + le64(index)
}

/// The seed of member `index`: the same after a restart, another in another run. A
/// member's secret is its own, so nobody derives another's key.
pub fn member_seed(secret: &str, run_id: &[u8], index: usize) -> (seed: [u8; 32])
    ensures
        seed@ == sha3_256(seed_preimage(secret.spec_bytes(), run_id@, index as u64)),
{
    let mut preimage: Vec<u8> = Vec::new();
    push_all(&mut preimage, "drot-demo/member-seed/v1".as_bytes());
    push_all(&mut preimage, secret.as_bytes());
    push_all(&mut preimage, run_id);
    push_le64(&mut preimage, index as u64);
    assert(preimage@ =~= seed_preimage(secret.spec_bytes(), run_id@, index as u64));
    sha3_256_digest(preimage.as_slice())
}

/// The seed of a member's key under the stateless scheme.
pub fn scheme_seed(seed: &[u8; 32]) -> (scheme: [u8; 32])
    ensures
        scheme@ == sha3_256("drot-demo/ml-dsa-65/member-seed/v1\0".spec_bytes() + seed@),
{
    let mut preimage: Vec<u8> = Vec::new();
    push_all(&mut preimage, "drot-demo/ml-dsa-65/member-seed/v1\0".as_bytes());
    push_all(&mut preimage, seed.as_slice());
    assert(preimage@ =~= "drot-demo/ml-dsa-65/member-seed/v1\0".spec_bytes() + seed@);
    sha3_256_digest(preimage.as_slice())
}

/// Members that share a secret and a run have seeds of different statements.
pub proof fn law_each_member_has_its_own_seed_statement(
    secret: Seq<u8>,
    run_id: Seq<u8>,
    a: u64,
    b: u64,
)
    requires
        seed_preimage(secret, run_id, a) == seed_preimage(secret, run_id, b),
    ensures
        a == b,
{
    let head = "drot-demo/member-seed/v1".spec_bytes() + secret + run_id;
    lemma_le64(a);
    lemma_le64(b);
    crate::bytes::lemma_same_split(head, le64(a), head, le64(b));
}

// ---- published records -------------------------------------------------------

/// The name of the record for a version. It has as many digits as the largest version,
/// so names sort as their versions do.
pub open spec fn record_name_of(version: u32) -> Seq<char> {
    "status-"@ + padded(version as nat, 10) + ".ssz"@
}

/// The name of the record for a version.
pub fn record_name(version: u32) -> (name: String)
    ensures
        name@ == record_name_of(version),
{
    let mut name: String = "status-".to_owned();
    push_padded(&mut name, version as u64, 10);
    name.append(".ssz");
    name
}

/// Whether `s` ends with `suffix`.
pub open spec fn ends_with(s: Seq<char>, suffix: Seq<char>) -> bool {
    suffix.len() <= s.len() && s.subrange(s.len() - suffix.len(), s.len() as int) == suffix
}

/// The version that a file name claims, if it is the name of a record.
pub open spec fn version_in_name(name: Seq<char>) -> Option<u32> {
    let rest = name.subrange(7, name.len() as int);
    if !begins_with(name, "status-"@) || !ends_with(rest, ".ssz"@) {
        None
    } else {
        match parse_upto(rest.subrange(0, rest.len() - 4), u32::MAX as nat) {
            Some(v) => Some(v as u32),
            None => None,
        }
    }
}

/// The version that a file name claims.
pub fn version_of(name: &str) -> (version: Option<u32>)
    ensures
        version == version_in_name(name@),
{
    proof {
        reveal_strlit("status-");
        reveal_strlit(".ssz");
    }
    let chars = chars_of(name);
    let prefix = chars_of("status-");
    let suffix = chars_of(".ssz");
    if !starts_with(chars.as_slice(), prefix.as_slice()) {
        return None;
    }
    let n: usize = chars.len();
    let ghost rest = name@.subrange(7, n as int);
    if n < 11 {
        return None;
    }
    let end: &[char] = &chars.as_slice()[n - 4..n];
    assert(end@ =~= rest.subrange(rest.len() - 4, rest.len() as int));
    if !crate::text::chars_eq(end, suffix.as_slice()) {
        return None;
    }
    let middle: &[char] = &chars.as_slice()[7..n - 4];
    assert(middle@ =~= rest.subrange(0, rest.len() - 4));
    parse_u32(middle)
}

/// Leading zeros do not change what digits are worth.
proof fn lemma_zeros(n: nat, s: Seq<char>)
    requires
        all_digits(s),
    ensures
        all_digits(Seq::new(n, |i: int| '0') + s),
        digits_value(Seq::new(n, |i: int| '0') + s) == digits_value(s),
    decreases s.len(), n,
{
    let z = Seq::new(n, |i: int| '0');
    let t = z + s;
    assert forall|i: int| 0 <= i < t.len() implies is_digit(#[trigger] t[i]) by {
        if i >= n {
            assert(t[i] == s[i - n]);
        }
    }
    if s.len() > 0 {
        assert(t.drop_last() =~= z + s.drop_last());
        assert(all_digits(s.drop_last()));
        lemma_zeros(n, s.drop_last());
    } else if n > 0 {
        let shorter = Seq::new((n - 1) as nat, |i: int| '0');
        assert(t.drop_last() =~= shorter + s);
        lemma_zeros((n - 1) as nat, s);
    }
}

/// A padded number is read back.
proof fn lemma_padded(n: nat, width: nat)
    ensures
        all_digits(padded(n, width)),
        padded(n, width).len() > 0,
        digits_value(padded(n, width)) == n,
{
    lemma_decimal(n);
    let d = decimal(n);
    if d.len() < width {
        lemma_zeros((width - d.len()) as nat, d);
        assert(padded(n, width) =~= Seq::new((width - d.len()) as nat, |i: int| '0') + d);
    } else {
        lemma_zeros(0, d);
        assert(padded(n, width) =~= d);
    }
}

/// The name of a record claims the version it was made for.
pub proof fn law_a_record_name_claims_its_version(version: u32)
    ensures
        version_in_name(record_name_of(version)) == Some(version),
{
    reveal_strlit("status-");
    reveal_strlit(".ssz");
    let name = record_name_of(version);
    let p = padded(version as nat, 10);
    lemma_padded(version as nat, 10);
    assert(name == "status-"@ + p + ".ssz"@);
    assert(name.subrange(0, 7) =~= "status-"@);
    let rest = name.subrange(7, name.len() as int);
    assert(rest =~= p + ".ssz"@);
    assert(rest.subrange(rest.len() - 4, rest.len() as int) =~= ".ssz"@);
    assert(rest.subrange(0, rest.len() - 4) =~= p);
    assert(is_digit(p[0]));
}

/// Rows of digits of one length are worth the same only when they are the same.
proof fn lemma_equal_digits(s: Seq<char>, t: Seq<char>)
    requires
        all_digits(s),
        all_digits(t),
        s.len() == t.len(),
        digits_value(s) == digits_value(t),
    ensures
        s == t,
    decreases s.len(),
{
    if s.len() > 0 {
        assert(is_digit(s.last()) && is_digit(t.last()));
        assert(all_digits(s.drop_last()) && all_digits(t.drop_last()));
        lemma_equal_digits(s.drop_last(), t.drop_last());
        assert(s =~= s.drop_last().push(s.last()));
        assert(t =~= t.drop_last().push(t.last()));
    } else {
        assert(s =~= t);
    }
}

/// Rows of digits of one length are in the order of what they are worth.
proof fn lemma_digit_order(s: Seq<char>, t: Seq<char>)
    requires
        all_digits(s),
        all_digits(t),
        s.len() == t.len(),
        digits_value(s) < digits_value(t),
    ensures
        text_less(s, t),
    decreases s.len(),
{
    assert(is_digit(s.last()) && is_digit(t.last()));
    let (p, q) = (s.drop_last(), t.drop_last());
    assert(all_digits(p) && all_digits(q));
    assert(s =~= p + seq![s.last()]);
    assert(t =~= q + seq![t.last()]);
    if digits_value(p) < digits_value(q) {
        lemma_digit_order(p, q);
        lemma_text_less_suffix(p, q, seq![s.last()], seq![t.last()]);
    } else {
        lemma_equal_digits(p, q);
        lemma_text_less_prefix(p, seq![s.last()], seq![t.last()]);
    }
}

/// Every version fits the digits of a name.
proof fn lemma_name_width(version: u32)
    ensures
        padded(version as nat, 10).len() == 10,
{
    reveal_with_fuel(decimal, 10);
    assert(decimal(version as nat).len() <= 10);
}

proof fn lemma_names_in_order(a: u32, b: u32)
    requires
        a < b,
    ensures
        text_less(record_name_of(a), record_name_of(b)),
{
    let (p, q) = (padded(a as nat, 10), padded(b as nat, 10));
    lemma_name_width(a);
    lemma_name_width(b);
    lemma_padded(a as nat, 10);
    lemma_padded(b as nat, 10);
    lemma_digit_order(p, q);
    lemma_text_less_suffix(p, q, ".ssz"@, ".ssz"@);
    lemma_text_less_prefix("status-"@, p + ".ssz"@, q + ".ssz"@);
    assert("status-"@ + (p + ".ssz"@) =~= record_name_of(a));
    assert("status-"@ + (q + ".ssz"@) =~= record_name_of(b));
}

/// Sorting record names sorts their versions.
pub proof fn law_sorting_names_sorts_versions(a: u32, b: u32)
    ensures
        text_less(record_name_of(a), record_name_of(b)) <==> a < b,
{
    if a < b {
        lemma_names_in_order(a, b);
    } else if b < a {
        lemma_names_in_order(b, a);
        lemma_text_less_asymmetric(record_name_of(b), record_name_of(a));
    } else if text_less(record_name_of(a), record_name_of(a)) {
        lemma_text_less_asymmetric(record_name_of(a), record_name_of(a));
    }
}

/// The path the record for `version` is published under.
pub fn publish(dir: &str, version: u32) -> (path: String)
    ensures
        path@ == in_dir(dir@, record_name_of(version)),
{
    let name = record_name(version);
    file_in(dir, name.as_str())
}

/// The contents of a list of texts.
pub open spec fn text_views(names: Seq<String>) -> Seq<Seq<char>> {
    names.map_values(|n: String| n@)
}

/// The contents of a list of versions and names.
pub open spec fn record_views(records: Seq<(u32, String)>) -> Seq<(u32, Seq<char>)> {
    records.map_values(|r: (u32, String)| (r.0, r.1@))
}

/// The names that claim a version, each with that version.
pub open spec fn claims(names: Seq<Seq<char>>) -> Seq<(u32, Seq<char>)>
    decreases names.len(),
{
    if names.len() == 0 {
        Seq::empty()
    } else {
        let before = claims(names.drop_last());
        match version_in_name(names.last()) {
            Some(v) => before.push((v, names.last())),
            None => before,
        }
    }
}

/// Whether no record is followed by one that claims a newer version.
pub open spec fn newest_first(records: Seq<(u32, Seq<char>)>) -> bool {
    forall|i: int, j: int|
        0 <= i <= j < records.len() ==> (#[trigger] records[i]).0 >= (#[trigger] records[j]).0
}

/// Every published record among the names found, newest claimed version first.
/// What a name claims orders the candidates and decides nothing.
pub fn published_records(names: &[String]) -> (records: Vec<(u32, String)>)
    ensures
        newest_first(record_views(records@)),
        record_views(records@).to_multiset() == claims(text_views(names@)).to_multiset(),
{
    let mut records: Vec<(u32, String)> = Vec::new();
    let mut i: usize = 0;
    let ghost all = text_views(names@);
    assert(all.subrange(0, 0) =~= Seq::<Seq<char>>::empty());
    assert(record_views(records@) =~= claims(all.subrange(0, 0)));
    while i < names.len()
        invariant
            i <= names@.len(),
            all == text_views(names@),
            newest_first(record_views(records@)),
            record_views(records@).to_multiset() == claims(
                all.subrange(0, i as int),
            ).to_multiset(),
        decreases names@.len() - i,
    {
        proof {
            assert(all.subrange(0, i + 1).drop_last() =~= all.subrange(0, i as int));
            assert(all.subrange(0, i + 1).last() == names@[i as int]@);
        }
        match version_of(names[i].as_str()) {
            None => {},
            Some(v) => {
                let mut at: usize = records.len();
                while at > 0 && records[at - 1].0 < v
                    invariant
                        at <= records@.len(),
                        newest_first(record_views(records@)),
                        forall|k: int| at <= k < records@.len() ==> (#[trigger] records@[k]).0 < v,
                    decreases at,
                {
                    at = at - 1;
                }
                let ghost before = record_views(records@);
                let ghost seen = claims(all.subrange(0, i as int));
                let name: String = names[i].clone();
                let ghost item = (v, name@);
                records.insert(at, (v, name));
                proof {
                    let after = record_views(records@);
                    assert(after =~= before.insert(at as int, item));
                    vstd::seq_lib::to_multiset_insert(before, at as int, item);
                    vstd::seq_lib::to_multiset_build(seen, item);
                    assert(after.to_multiset() =~= claims(
                        all.subrange(0, i + 1),
                    ).to_multiset());
                    assert forall|j: int, k: int| 0 <= j <= k < after.len() implies (
                    #[trigger] after[j]).0 >= (#[trigger] after[k]).0 by {
                        if j < at {
                            assert(at > 0 ==> before[at - 1].0 >= v);
                            assert(before[j].0 >= before[at - 1].0);
                        }
                        if k < at {
                            assert(before[j].0 >= before[k].0);
                        } else if k > at {
                            if j < at {
                                assert(before[j].0 >= before[k - 1].0);
                            } else if j > at {
                                assert(before[j - 1].0 >= before[k - 1].0);
                            }
                        }
                    }
                }
            },
        }
        i = i + 1;
    }
    assert(all.subrange(0, i as int) =~= all);
    records
}

/// Whether `read` was asked for the file `name` and answered so.
pub open spec fn read_asked<R: Fn(&str) -> Option<Vec<u8>>>(
    read: R,
    name: Seq<char>,
    answer: Option<Vec<u8>>,
) -> bool {
    exists|t: &str| t@ == name && #[trigger] call_ensures(read, (t,), answer)
}

/// Whether the first `n` records could not be read.
pub open spec fn unread<R: Fn(&str) -> Option<Vec<u8>>>(
    read: R,
    records: Seq<(u32, Seq<char>)>,
    n: int,
) -> bool {
    forall|j: int| 0 <= j < n ==> read_asked(read, (#[trigger] records[j]).1, None)
}

/// The newest published record that can be read, with the version its name claims,
/// or nothing where there is none.
pub fn latest_record<R: Fn(&str) -> Option<Vec<u8>>>(records: &[(u32, String)], read: R) -> (r:
    Option<(u32, Vec<u8>)>)
    requires
        forall|t: &str| call_requires(read, (t,)),
    ensures
        ({
            let found = record_views(records@);
            match r {
                Some(record) => exists|i: int|
                    #![trigger unread(read, found, i)]
                    {
                        &&& 0 <= i < found.len()
                        &&& unread(read, found, i)
                        &&& found[i].0 == record.0
                        &&& read_asked(read, found[i].1, Some(record.1))
                    },
                None => unread(read, found, found.len() as int),
            }
        }),
{
    let ghost found = record_views(records@);
    let mut i: usize = 0;
    while i < records.len()
        invariant
            i <= records@.len(),
            found == record_views(records@),
            unread(read, found, i as int),
            forall|t: &str| call_requires(read, (t,)),
        decreases records@.len() - i,
    {
        let name: &str = records[i].1.as_str();
        let answer = read(name);
        assert(found[i as int].1 == name@);
        assert(read_asked(read, found[i as int].1, answer));
        match answer {
            Some(bytes) => {
                assert(unread(read, found, i as int));
                return Some((records[i].0, bytes));
            },
            None => {},
        }
        i = i + 1;
    }
    None
}

/// A file in a directory is the directory, one separator and the name: whether the
/// directory is written with a separator at its end makes no difference.
pub proof fn law_a_file_stands_in_its_directory(dir: Seq<char>, name: Seq<char>)
    requires
        dir.len() > 0,
        dir.last() != '/',
    ensures
        in_dir(dir, name) == dir.push('/') + name,
        in_dir(dir.push('/'), name) == dir.push('/') + name,
        in_dir(Seq::empty(), name) == name,
{
    reveal_strlit("/");
    assert(dir + "/"@ =~= dir.push('/'));
    assert(Seq::<char>::empty() + name =~= name);
}

/// A file with contents ends the waiting at once, an empty or missing one only when the time
/// is over.
pub proof fn law_waiting_ends_with_contents_or_the_time(
    path: Seq<char>,
    limit: Seq<char>,
    found: Option<Vec<u8>>,
    expired: bool,
    w: Wait,
)
    requires
        waited(path, limit, found, expired, w),
    ensures
        w is Ready <==> found is Some && found->0@.len() > 0,
        w is Ready ==> w->Ready_0@ == found->0@,
        w is TimedOut <==> (found is None || found->0@.len() == 0) && expired,
        w is TimedOut ==> w->TimedOut_0@ == path + " did not appear within "@ + limit,
        w is Again <==> (found is None || found->0@.len() == 0) && !expired,
{
}

/// The statement behind a seed names the secret, the run and the member: two are equal, for
/// secrets of one length, only where all three are.
pub proof fn law_a_seed_statement_names_secret_run_and_member(
    s1: Seq<u8>,
    r1: Seq<u8>,
    a: u64,
    s2: Seq<u8>,
    r2: Seq<u8>,
    b: u64,
)
    requires
        s1.len() == s2.len(),
        seed_preimage(s1, r1, a) == seed_preimage(s2, r2, b),
    ensures
        s1 == s2,
        r1 == r2,
        a == b,
{
    let context = "drot-demo/member-seed/v1".spec_bytes();
    lemma_le64(a);
    lemma_le64(b);
    let (x, y) = (seed_preimage(s1, r1, a), seed_preimage(s2, r2, b));
    assert(x.len() == context.len() + s1.len() + r1.len() + 8);
    assert(y.len() == context.len() + s2.len() + r2.len() + 8);
    lemma_same_split(context + s1 + r1, le64(a), context + s2 + r2, le64(b));
    lemma_same_split(context + s1, r1, context + s2, r2);
    lemma_same_split(context, s1, context, s2);
}

/// A file name claims a version exactly when it spells that version between the words that
/// every record name has.
pub proof fn law_a_name_claims_the_version_it_spells(name: Seq<char>, version: u32)
    ensures
        version_in_name(name) == Some(version) <==> exists|number: Seq<char>|
            {
                &&& name == #[trigger] ("status-"@ + number + ".ssz"@)
                &&& parse_upto(number, u32::MAX as nat) == Some(version as nat)
            },
{
    reveal_strlit("status-");
    reveal_strlit(".ssz");
    if version_in_name(name) == Some(version) {
        let rest = name.subrange(7, name.len() as int);
        let number = rest.subrange(0, rest.len() - 4);
        assert(name =~= "status-"@ + number + ".ssz"@);
    }
    if exists|number: Seq<char>|
        {
            &&& name == #[trigger] ("status-"@ + number + ".ssz"@)
            &&& parse_upto(number, u32::MAX as nat) == Some(version as nat)
        } {
        let number = choose|number: Seq<char>|
            {
                &&& name == #[trigger] ("status-"@ + number + ".ssz"@)
                &&& parse_upto(number, u32::MAX as nat) == Some(version as nat)
            };
        let rest = name.subrange(7, name.len() as int);
        assert(name.subrange(0, 7) =~= "status-"@);
        assert(rest =~= number + ".ssz"@);
        assert(rest.subrange(rest.len() - 4, rest.len() as int) =~= ".ssz"@);
        assert(rest.subrange(0, rest.len() - 4) =~= number);
    }
}

/// Every name that claims a version is listed with it, each in its turn, and no other name
/// is.
pub proof fn law_every_claiming_name_is_listed(names: Seq<Seq<char>>, name: Seq<char>)
    ensures
        claims(Seq::empty()) == Seq::<(u32, Seq<char>)>::empty(),
        claims(names.push(name)) == match version_in_name(name) {
            Some(v) => claims(names).push((v, name)),
            None => claims(names),
        },
        forall|v: u32|
            #[trigger] claims(names).contains((v, name)) <==> names.contains(name)
                && version_in_name(name) == Some(v),
{
    assert(names.push(name).drop_last() =~= names);
    assert forall|v: u32|
        #[trigger] claims(names).contains((v, name)) <==> names.contains(name) && version_in_name(
            name,
        ) == Some(v) by {
        lemma_claimed(names, name, v);
    }
}

proof fn lemma_claimed(names: Seq<Seq<char>>, name: Seq<char>, v: u32)
    ensures
        claims(names).contains((v, name)) <==> names.contains(name) && version_in_name(name)
            == Some(v),
    decreases names.len(),
{
    if names.len() > 0 {
        let (before, last) = (names.drop_last(), names.last());
        lemma_claimed(before, name, v);
        let (earlier, all) = (claims(before), claims(names));
        if names.contains(name) {
            let i = choose|i: int| 0 <= i < names.len() && names[i] == name;
            if i < before.len() {
                assert(before[i] == name);
            }
        }
        if before.contains(name) {
            let i = choose|i: int| 0 <= i < before.len() && before[i] == name;
            assert(names[i] == name);
        }
        assert(names[names.len() - 1] == last);
        if earlier.contains((v, name)) {
            let k = choose|k: int| 0 <= k < earlier.len() && earlier[k] == (v, name);
            assert(all[k] == (v, name));
        }
        if version_in_name(last) is Some {
            assert(all[earlier.len() as int] == (version_in_name(last)->0, last));
            if all.contains((v, name)) {
                let k = choose|k: int| 0 <= k < all.len() && all[k] == (v, name);
                if k < earlier.len() {
                    assert(earlier[k] == (v, name));
                }
            }
        }
    }
}

/// Records with the newest first begin with one that no other is newer than, and so does
/// what is left once some are taken off the front.
pub proof fn law_the_first_record_is_the_newest(records: Seq<(u32, Seq<char>)>, k: int, j: int)
    ensures
        newest_first(records) && 0 <= k <= j < records.len() ==> records[j].0 <= records[k].0,
        (forall|a: int, b: int|
            0 <= a < b < records.len() ==> (#[trigger] records[a]).0 >= (#[trigger] records[b]).0)
            ==> newest_first(records),
{
}

/// The record that is found is the newest that can be read: every record that claims a newer
/// version was asked for and could not be read, and nothing is found only where none can be.
pub proof fn law_the_newest_readable_record_is_found<R: Fn(&str) -> Option<Vec<u8>>>(
    records: &[(u32, String)],
    read: R,
    r: Option<(u32, Vec<u8>)>,
)
    requires
        call_ensures(latest_record::<R>, (records, read), r),
        forall|a: int, b: int|
            0 <= a < b < records@.len() ==> (#[trigger] records@[a]).0 >= (#[trigger] records@[b]).0,
    ensures
        r is Some ==> exists|k: int, name: &str|
            {
                &&& 0 <= k < records@.len()
                &&& (#[trigger] records@[k]).0 == (r->0).0
                &&& name@ == records@[k].1@
                &&& #[trigger] call_ensures(read, (name,), Some((r->0).1))
            },
        forall|k: int|
            0 <= k < records@.len() && (r is None || records@[k].0 > (r->0).0) ==> read_asked(
                read,
                (#[trigger] records@[k]).1@,
                None,
            ),
{
    let found = record_views(records@);
    assert forall|k: int| 0 <= k < records@.len() implies #[trigger] found[k] == (
        records@[k].0,
        records@[k].1@,
    ) by {}
    match r {
        None => {
            assert(unread(read, found, found.len() as int));
            assert forall|k: int| 0 <= k < records@.len() implies read_asked(
                read,
                (#[trigger] records@[k]).1@,
                None,
            ) by {
                assert(read_asked(read, found[k].1, None));
            }
        },
        Some(record) => {
            let i = choose|i: int|
                #![trigger unread(read, found, i)]
                {
                    &&& 0 <= i < found.len()
                    &&& unread(read, found, i)
                    &&& found[i].0 == record.0
                    &&& read_asked(read, found[i].1, Some(record.1))
                };
            let name = choose|t: &str|
                t@ == found[i].1 && #[trigger] call_ensures(read, (t,), Some(record.1));
            assert(records@[i].0 == record.0);
            assert(call_ensures(read, (name,), Some(record.1)));
            assert forall|k: int|
                0 <= k < records@.len() && records@[k].0 > record.0 implies read_asked(
                read,
                (#[trigger] records@[k]).1@,
                None,
            ) by {
                if k >= i {
                    assert(records@[i].0 >= records@[k].0);
                }
                assert(read_asked(read, found[k].1, None));
            }
        },
    }
}

/// A file counts as asked for under its own name.
pub proof fn law_a_file_is_asked_for_by_name<R: Fn(&str) -> Option<Vec<u8>>>(
    read: R,
    name: Seq<char>,
    answer: Option<Vec<u8>>,
)
    ensures
        read_asked(read, name, answer) <==> exists|t: &str|
            t@ == name && #[trigger] call_ensures(read, (t,), answer),
{
}

} // verus!

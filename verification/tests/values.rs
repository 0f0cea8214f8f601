//! Configuration, storage names, credentials and the small values around them.
use decentralized_root_of_trust::bench::mem::{peak_rss_mb, rss_mb, rss_now_mb, status_mb};
use decentralized_root_of_trust::bench::stats::{sorted, usize_median};
use decentralized_root_of_trust::crypto::{inclusive_epoch_range, EpochRangeError};
use decentralized_root_of_trust::demo::config::{
    aggregator_indices, can_aggregate, contains_index, env_u64, format_indices, holder_addr,
    index_of_ip, member_addr, request_timeout, sign_window, Mode, MEMBER_IPS, N_MEMBERS,
};
use decentralized_root_of_trust::demo::report::{raw_sizes, snark_sizes, RawSizes, SnarkSizes};
use decentralized_root_of_trust::demo::storage::{
    anchor_file, committee_dir, file_in, latest_record, member_key_file, member_seed, publish,
    published_records, record_name, run_id_file, scheme_seed, state_dir, storage_dir, version_of,
    wait_for, wait_for_committee, wait_for_run_id, CommitteeWait, Wait,
};
use decentralized_root_of_trust::demo::vc::{
    add_valid, credential_json, fingerprint, hex, is_valid, issue, issue_with_id, position,
    pretty, revoke, shown_as,
};
use decentralized_root_of_trust::hash::hash_any;
use decentralized_root_of_trust::params::{
    benchmark_usize, checked_benchmark_usize, KEY_SLOTS, KEY_SLOT_COUNT, N_UPDATES,
};
use decentralized_root_of_trust::protocol::committee::{Committee, CommitteeError};
use decentralized_root_of_trust::protocol::xmss::XmssPublicKey;
use decentralized_root_of_trust::text::{
    chars_less, chars_of, parse_u32, parse_u64, parse_usize, push_decimal, push_hex, push_padded,
    split_words, white,
};

#[test]
fn count_range_is_translated_to_an_inclusive_end() {
    assert_eq!(inclusive_epoch_range(100, 3).unwrap(), (100, 102));
    assert!(inclusive_epoch_range(100, 0).is_err());
    assert!(inclusive_epoch_range(u64::from(u32::MAX), 2).is_err());
}

#[test]
fn every_refusal_of_a_slot_window_is_named() {
    let last = u64::from(u32::MAX);
    assert_eq!(inclusive_epoch_range(100, 0), Err(EpochRangeError::Empty));
    assert_eq!(inclusive_epoch_range(u64::MAX, 2), Err(EpochRangeError::Overflow));
    assert_eq!(inclusive_epoch_range(last + 1, 1), Err(EpochRangeError::StartTooLarge));
    assert_eq!(inclusive_epoch_range(last, 2), Err(EpochRangeError::EndTooLarge));
    assert_eq!(inclusive_epoch_range(last, 1), Ok((u32::MAX, u32::MAX)));
    assert!(!EpochRangeError::Empty.text().is_empty());
}

#[test]
fn a_parameter_is_read_or_defaulted() {
    assert_eq!(benchmark_usize(None, 200), 200);
    assert_eq!(benchmark_usize(Some("12"), 200), 12);
    assert_eq!(checked_benchmark_usize(Some("0012"), 1), Some(12));
    assert_eq!(checked_benchmark_usize(Some(""), 1), None);
    assert_eq!(checked_benchmark_usize(Some("0"), 1), None);
    assert_eq!(checked_benchmark_usize(Some("000"), 1), None);
    assert_eq!(checked_benchmark_usize(Some("1x"), 1), None);
    assert_eq!(checked_benchmark_usize(Some("99999999999999999999"), 1), None);
    assert_eq!(u64::from(KEY_SLOTS) + 1, KEY_SLOT_COUNT);
    assert!(N_UPDATES < KEY_SLOTS as usize);
}

#[test]
fn memory_is_read_from_the_status_text() {
    let status = "Name:\tx\nVmHWM:\t   40960 kB\nVmRSS:\t   20480 kB\n";
    assert_eq!(rss_now_mb(Some(status)), 20);
    assert_eq!(peak_rss_mb(Some(status)), 40);
    assert_eq!(status_mb(Some(status), "VmSwap:"), 0);
    assert_eq!(rss_now_mb(None), 0);
    assert_eq!(rss_mb(status, "VmRSS:"), Some(20));
    assert_eq!(rss_mb(status, "VmSwap:"), None);
    assert_eq!(rss_mb("VmRSS:\tmany kB\n", "VmRSS:"), None);
    assert_eq!(rss_mb("VmRSS:\n", "VmRSS:"), None);
}

#[test]
fn the_median_is_the_upper_middle_of_the_sorted_values() {
    assert_eq!(sorted(&[3, 1, 2, 1]), vec![1, 1, 2, 3]);
    assert_eq!(usize_median(&[5]), 5);
    assert_eq!(usize_median(&[9, 1, 5]), 5);
    assert_eq!(usize_median(&[4, 3, 2, 1]), 3);
}

#[test]
fn numbers_and_words_are_read_as_the_standard_library_reads_them() {
    for text in ["0", "007", "+5", "", "-1", "4294967295", "4294967296", "1 ", "٣"] {
        let chars = chars_of(text);
        assert_eq!(parse_u32(&chars), text.parse::<u32>().ok(), "{text:?}");
        assert_eq!(parse_u64(&chars), text.parse::<u64>().ok(), "{text:?}");
        assert_eq!(parse_usize(&chars), text.parse::<usize>().ok(), "{text:?}");
    }
    for text in ["", " a  b\t\nc ", "one", "\u{a0}x\u{2003}y\u{200b}"] {
        let words: Vec<String> =
            split_words(&chars_of(text)).iter().map(|w| w.iter().collect()).collect();
        let expected: Vec<String> = text.split_whitespace().map(|w| w.to_string()).collect();
        assert_eq!(words, expected, "{text:?}");
    }
    for code in 0..0x3100u32 {
        if let Some(c) = char::from_u32(code) {
            assert_eq!(white(c), c.is_whitespace(), "{code:#x}");
        }
    }
}

#[test]
fn numbers_and_bytes_are_written_as_the_standard_library_writes_them() {
    for n in [0u64, 9, 10, 12345, u64::MAX] {
        let mut text = String::new();
        push_decimal(&mut text, n);
        assert_eq!(text, n.to_string());
        let mut padded = String::new();
        push_padded(&mut padded, n, 5);
        assert_eq!(padded, format!("{n:05}"));
    }
    let mut text = String::from("0x");
    push_hex(&mut text, &[0x00, 0x0f, 0xf0, 0xff]);
    assert_eq!(text, "0x000ff0ff");
    for (a, b) in [("a", "b"), ("", "a"), ("ab", "a"), ("é", "z"), ("same", "same")] {
        assert_eq!(chars_less(&chars_of(a), &chars_of(b)), a < b);
    }
}

#[test]
fn the_mode_is_raw_unless_a_setting_says_otherwise() {
    assert_eq!(Mode::from_env(None), Some(Mode::Raw));
    assert_eq!(Mode::from_env(Some("snark")), Some(Mode::Snark));
    assert_eq!(Mode::from_env(Some("raw")), Some(Mode::Raw));
    assert_eq!(Mode::from_env(Some("other")), None);
    assert_eq!(Mode::Snark.as_str(), "snark");
}

#[test]
fn addresses_are_those_of_the_table() {
    for (i, ip) in MEMBER_IPS.iter().enumerate() {
        assert_eq!(index_of_ip(ip), Some(i));
        assert_eq!(member_addr(i), format!("{ip}:9000"));
    }
    assert_eq!(index_of_ip("172.28.0.30"), None);
    assert_eq!(holder_addr(), "172.28.0.30:9100");
}

#[test]
fn settings_fall_back_to_their_defaults() {
    assert_eq!(env_u64(Some("12"), 5), 12);
    assert_eq!(env_u64(Some("soon"), 5), 5);
    assert_eq!(sign_window(None), 5000);
    assert_eq!(request_timeout(None), 900);
}

#[test]
fn everybody_aggregates_raw_records_and_only_provers_aggregate_proofs() {
    let everybody: Vec<usize> = (0..N_MEMBERS).collect();
    assert_eq!(aggregator_indices(Mode::Raw, &[1, 4]), everybody);
    assert_eq!(aggregator_indices(Mode::Snark, &[1, 4]), vec![1, 4]);
    assert!(can_aggregate(Mode::Raw, &[], 9));
    assert!(!can_aggregate(Mode::Snark, &[1, 4], 2));
    assert!(contains_index(&[1, 4], 4));
    assert_eq!(format_indices(&[1, 4, 10]), "1, 4, 10");
    assert_eq!(format_indices(&[]), "");
}

#[test]
fn sizes_are_split_into_their_parts() {
    assert_eq!(
        raw_sizes(2500, 2, 2, 1208),
        RawSizes { record: 2500, signatures: 2416, list: 64, framing: 20, per_signer: 1208 }
    );
    assert_eq!(raw_sizes(10, 2, 2, 1208).framing, 0);
    assert_eq!(
        snark_sizes(900, 3, 700, 7),
        SnarkSizes { record: 900, proven: 700, list: 96, same_quorum_raw: 8456 }
    );
}

#[test]
fn directories_and_files_are_where_the_settings_put_them() {
    assert_eq!(committee_dir(None), "/shared/committee");
    assert_eq!(storage_dir(None), "/shared/storage");
    assert_eq!(state_dir(Some("/tmp/s")), "/tmp/s");
    assert_eq!(file_in("/a", "b"), "/a/b");
    assert_eq!(file_in("/a/", "b"), "/a/b");
    assert_eq!(file_in("", "b"), "b");
    assert_eq!(member_key_file("/c", 3), "/c/pk-03.ssz");
    assert_eq!(run_id_file("/c"), "/c/run-id");
    assert_eq!(anchor_file("/c"), "/c/anchor.bin");
    assert_eq!(publish("/s", 12), "/s/status-0000000012.ssz");
}

#[test]
fn waiting_ends_with_the_file_or_with_the_time() {
    assert!(matches!(
        wait_for("/c/x", "30s", Some(vec![1]), true),
        Wait::Ready(bytes) if bytes == vec![1]
    ));
    assert!(matches!(wait_for("/c/x", "30s", Some(vec![]), false), Wait::Again));
    assert!(matches!(
        wait_for("/c/x", "30s", None, true),
        Wait::TimedOut(text) if text == "/c/x did not appear within 30s"
    ));
    assert!(matches!(
        wait_for_run_id("/c", "30s", None, true),
        Wait::TimedOut(text) if text == "/c/run-id did not appear within 30s"
    ));
    let key = XmssPublicKey::from_bytes(&[1; 32]).unwrap();
    let anchor = Committee::checked(vec![key], 1, 0).unwrap().to_bytes();
    assert!(matches!(
        wait_for_committee("/c", "30s", Some(anchor.clone()), false),
        CommitteeWait::Ready(c) if c.to_bytes() == anchor
    ));
    assert!(matches!(
        wait_for_committee("/c", "30s", Some(vec![1]), false),
        CommitteeWait::Malformed(CommitteeError::NotSsz(_))
    ));
    assert!(matches!(wait_for_committee("/c", "30s", None, false), CommitteeWait::Again));
    assert!(matches!(
        wait_for_committee("/c", "30s", None, true),
        CommitteeWait::TimedOut(text) if text == "/c/anchor.bin did not appear within 30s"
    ));
}

#[test]
fn seeds_are_digests_of_what_they_are_for() {
    let mut input = b"drot-demo/member-seed/v1".to_vec();
    input.extend_from_slice(b"secret");
    input.extend_from_slice(b"run");
    input.extend_from_slice(&3u64.to_le_bytes());
    assert_eq!(member_seed("secret", b"run", 3), hash_any(&input));
    assert_ne!(member_seed("secret", b"run", 3), member_seed("secret", b"run", 4));
    let mut input = b"drot-demo/ml-dsa-65/member-seed/v1\0".to_vec();
    input.extend_from_slice(&[8; 32]);
    assert_eq!(scheme_seed(&[8; 32]), hash_any(&input));
}

#[test]
fn a_record_name_claims_its_version() {
    assert_eq!(record_name(7), "status-0000000007.ssz");
    assert_eq!(version_of("status-0000000007.ssz"), Some(7));
    assert_eq!(version_of("status-00007.ssz"), Some(7));
    assert_eq!(version_of(&record_name(u32::MAX)), Some(u32::MAX));
    for other in ["status-.ssz", "status-1.tmp", "state-00001.ssz", "status-1", "ssz"] {
        assert_eq!(version_of(other), None, "{other}");
    }
    assert!(record_name(9) < record_name(10));
    assert!(record_name(99_999) < record_name(100_000));
    assert!(record_name(999_999_999) < record_name(u32::MAX));
}

#[test]
fn the_newest_readable_record_is_the_latest() {
    let names: Vec<String> = ["status-00002.ssz", "notes.txt", "status-00010.ssz", "status-00001.ssz"]
        .iter()
        .map(|n| n.to_string())
        .collect();
    let records = published_records(&names);
    let versions: Vec<u32> = records.iter().map(|r| r.0).collect();
    assert_eq!(versions, vec![10, 2, 1]);
    let latest = latest_record(&records, |name| Some(name.as_bytes().to_vec())).unwrap();
    assert_eq!(latest, (10, b"status-00010.ssz".to_vec()));
    let readable = latest_record(&records, |name| {
        if name.contains("00010") {
            None
        } else {
            Some(vec![1])
        }
    });
    assert_eq!(readable, Some((2, vec![1])));
    assert!(latest_record(&[], |_| Some(vec![])).is_none());
}

#[test]
fn a_credential_is_canonical_json() {
    let id = [0xab; 16];
    let hex_id = "ab".repeat(16);
    let minted = issue_with_id("did:example:\"alice\"\n", 7, 3, &id).unwrap();
    let expected = format!(
        "{{\"@context\":[\"https://www.w3.org/ns/credentials/v2\"],\
         \"credentialStatus\":{{\"statusListVersion\":7,\"type\":\"CommitteeStatusList\"}},\
         \"credentialSubject\":{{\"id\":\"did:example:\\\"alice\\\"\\n\"}},\
         \"id\":\"urn:uuid:{hex_id}\",\"issuer\":\"did:demo:committee#member-3\",\
         \"type\":[\"VerifiableCredential\",\"DemoStatusCredential\"]}}"
    );
    assert_eq!(String::from_utf8(minted.clone()).unwrap(), expected);
    assert_eq!(fingerprint(&minted), hash_any(&minted));
    assert!(credential_json("\"s\"", 7, 3, &id).starts_with("{\"@context\""));
}

#[test]
fn a_subject_is_escaped_in_its_credential() {
    let minted = issue_with_id("a\\b\t\u{1}\u{1f}\u{e9}", 0, 0, &[0; 16]).unwrap();
    let text = String::from_utf8(minted).unwrap();
    assert!(text.contains("{\"id\":\"a\\\\b\\t\\u0001\\u001f\u{e9}\"}"), "{text}");
}

#[test]
fn two_credentials_for_one_subject_differ() {
    let a = issue("alice", 0, 0).unwrap();
    let b = issue("alice", 0, 0).unwrap();
    assert_ne!(fingerprint(&a), fingerprint(&b));
}

#[test]
fn a_credential_is_shown_indented_or_as_it_is() {
    assert_eq!(pretty(b"{\"a\":[1]}"), "{\n  \"a\": [\n    1\n  ]\n}");
    assert_eq!(pretty(b"not json\xff"), "not json\u{fffd}");
    assert_eq!(shown_as(Some("x".to_string()), b"y"), "x");
    assert_eq!(shown_as(None, b"y"), "y");
    assert_eq!(hex(&[0, 255]), "00ff");
}

#[test]
fn revoking_undoes_adding() {
    let mut list = vec![fingerprint(b"one")];
    assert!(!add_valid(&mut list, b"one"));
    assert!(add_valid(&mut list, b"two"));
    assert!(is_valid(&list, b"two"));
    assert_eq!(position(&list, &fingerprint(b"two")), Some(1));
    assert!(revoke(&mut list, b"two"));
    assert!(!is_valid(&list, b"two"));
    assert!(!revoke(&mut list, b"two"));
    assert_eq!(list, vec![fingerprint(b"one")]);
}

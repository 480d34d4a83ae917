use rue::attempt::{attempt_urls, authorize_url, classify_response, pairing_body};
use rue::coordinator::{Coordinator, RunState};
use rue::coordinator::round_winner;
use rue::discovery::{first_usable, format_ipv4, parse_discovery_response, DnsRecordKind};
use rue::store::{config_dir_path, config_file_path, encode_user, parse_user};
use rue::types::{AttemptOutcome, Bridge, DiscoveryError, User};

fn demo_user() -> User {
    User { username: b"abc123".to_vec(), bridge_address: b"10.0.0.5".to_vec() }
}

#[test]
fn persisted_form_is_exact() {
    let bytes = encode_user(&demo_user());
    assert_eq!(bytes, b"{\"username\":\"abc123\",\"bridge_address\":\"10.0.0.5\"}".to_vec());
}

#[test]
fn save_then_load_round_trips() {
    let bytes = encode_user(&demo_user());
    let back = parse_user(&bytes).expect("persisted form must parse");
    assert_eq!(back.username, b"abc123".to_vec());
    assert_eq!(back.bridge_address, b"10.0.0.5".to_vec());
    // the persisted form is canonical: saving what was loaded rewrites
    // the same bytes
    assert_eq!(encode_user(&back), bytes);
}

#[test]
fn round_trip_with_escaped_bytes() {
    let user = User {
        username: b"a\"b\\c".to_vec(),
        bridge_address: b"10.0.0.5".to_vec(),
    };
    let bytes = encode_user(&user);
    let back = parse_user(&bytes).expect("escaped form must parse");
    assert_eq!(back.username, b"a\"b\\c".to_vec());
    assert_eq!(back.bridge_address, b"10.0.0.5".to_vec());
}

#[test]
fn parse_user_rejects_garbage() {
    assert!(parse_user(b"not json at all").is_none());
    assert!(parse_user(b"").is_none());
    assert!(parse_user(b"{\"username\":\"a\"}").is_none());
    // trailing bytes after the object are refused
    assert!(parse_user(b"{\"username\":\"a\",\"bridge_address\":\"b\"}x").is_none());
}

#[test]
fn config_paths_join_home() {
    assert_eq!(config_dir_path(b"/home/me"), b"/home/me/.config/rue".to_vec());
    assert_eq!(config_file_path(b"/home/me"), b"/home/me/.config/rue/rue.json".to_vec());
}

#[test]
fn empty_directory_list_is_no_candidates() {
    match parse_discovery_response(b"[]") {
        Err(DiscoveryError::NoCandidates) => {},
        _ => panic!("empty list must be NoCandidates, not a decode failure"),
    }
    match parse_discovery_response(b" [ ] ") {
        Err(DiscoveryError::NoCandidates) => {},
        _ => panic!("whitespace around an empty list is still NoCandidates"),
    }
}

#[test]
fn empty_discovery_skips_the_coordinator() {
    // The caller only constructs a coordinator for a non-empty candidate
    // list; an empty directory answer surfaces as an error before any
    // round is ever started.
    match parse_discovery_response(b"[]") {
        Ok(bridges) => {
            panic!("an empty list must not reach the coordinator, got {}", bridges.len())
        },
        Err(e) => assert_eq!(e, DiscoveryError::NoCandidates),
    }
}

#[test]
fn directory_entries_parse_in_order() {
    let body = b"[{\"id\":\"x1\",\"internalipaddress\":\"192.168.0.2\",\"port\":443},{\"internalipaddress\":\"10.1.1.9\"}]";
    let bridges = parse_discovery_response(body).expect("two entries must parse");
    assert_eq!(bridges.len(), 2);
    assert_eq!(bridges[0].internalipaddress, b"192.168.0.2".to_vec());
    assert_eq!(bridges[1].internalipaddress, b"10.1.1.9".to_vec());
}

#[test]
fn directory_tolerates_whitespace() {
    let body = b" [ { \"internalipaddress\" : \"10.0.0.7\" } ] ";
    let bridges = parse_discovery_response(body).expect("spaced entry must parse");
    assert_eq!(bridges.len(), 1);
    assert_eq!(bridges[0].internalipaddress, b"10.0.0.7".to_vec());
}

#[test]
fn directory_decode_failures() {
    match parse_discovery_response(b"not json") {
        Err(DiscoveryError::Failure) => {},
        _ => panic!("garbage must be a decode failure"),
    }
    // an entry without the address field is a decode failure
    match parse_discovery_response(b"[{\"id\":\"x\"}]") {
        Err(DiscoveryError::Failure) => {},
        _ => panic!("entry without address must fail"),
    }
    // trailing bytes after the array are refused
    match parse_discovery_response(b"[{\"internalipaddress\":\"a\"}]x") {
        Err(DiscoveryError::Failure) => {},
        _ => panic!("trailing bytes must fail"),
    }
}

#[test]
fn successful_reply_yields_credential() {
    let out = classify_response(b"10.0.0.5", b"[{\"success\":{\"username\":\"abc123\"}}]");
    match out {
        AttemptOutcome::Credential(user) => {
            assert_eq!(user.username, b"abc123".to_vec());
            assert_eq!(user.bridge_address, b"10.0.0.5".to_vec());
        },
        _ => panic!("success reply must yield a credential"),
    }
}

#[test]
fn error_reply_is_rejected_not_fatal() {
    let body = b"[{\"error\":{\"type\":101,\"address\":\"\",\"description\":\"link button not pressed\"}}]";
    match classify_response(b"10.0.0.5", body) {
        AttemptOutcome::Rejected => {},
        _ => panic!("error reply must be Rejected"),
    }
}

#[test]
fn unparseable_replies_are_malformed() {
    match classify_response(b"10.0.0.5", b"not json") {
        AttemptOutcome::Malformed => {},
        _ => panic!("garbage must be Malformed"),
    }
    match classify_response(b"10.0.0.5", b"") {
        AttemptOutcome::Malformed => {},
        _ => panic!("empty body must be Malformed"),
    }
    // a success object without the expected inner field is malformed
    match classify_response(b"10.0.0.5", b"[{\"success\":{\"token\":\"x\"}}]") {
        AttemptOutcome::Malformed => {},
        _ => panic!("wrong inner key must be Malformed"),
    }
}

#[test]
fn spaced_reply_still_classifies() {
    let body = b" [ { \"success\" : { \"username\" : \"tok\" } } ] ";
    match classify_response(b"10.0.0.5", body) {
        AttemptOutcome::Credential(user) => assert_eq!(user.username, b"tok".to_vec()),
        _ => panic!("whitespace between tokens is allowed"),
    }
    // the rejection payload is not interpreted: the error key decides
    match classify_response(b"10.0.0.5", b"[{\"error\":") {
        AttemptOutcome::Rejected => {},
        _ => panic!("the error key alone decides a rejection"),
    }
}

#[test]
fn request_shape_is_fixed() {
    assert_eq!(authorize_url(b"10.0.0.5"), b"http://10.0.0.5/api".to_vec());
    assert_eq!(pairing_body(), b"{\"devicetype\":\"rue_pc_app\"}".to_vec());
}

#[test]
fn fan_out_builds_one_url_per_candidate() {
    let bridges = vec![
        Bridge::new(b"10.0.0.5".to_vec()),
        Bridge { internalipaddress: b"192.168.0.2".to_vec() },
    ];
    let urls = attempt_urls(&bridges);
    assert_eq!(urls.len(), 2);
    assert_eq!(urls[0], b"http://10.0.0.5/api".to_vec());
    assert_eq!(urls[1], b"http://192.168.0.2/api".to_vec());
}

#[test]
fn round_winner_takes_first_by_completion_order() {
    let u1 = User { username: b"one".to_vec(), bridge_address: b"a".to_vec() };
    let u2 = User { username: b"two".to_vec(), bridge_address: b"b".to_vec() };
    let outcomes = vec![
        AttemptOutcome::Rejected,
        AttemptOutcome::Credential(u1),
        AttemptOutcome::Credential(u2),
    ];
    let winner = round_winner(outcomes).expect("a credential was present");
    assert_eq!(winner.username, b"one".to_vec());
    assert!(round_winner(vec![]).is_none());
    assert!(round_winner(vec![AttemptOutcome::Unreachable, AttemptOutcome::Malformed]).is_none());
}

#[test]
fn rejected_rounds_then_success_on_round_four() {
    let mut c = Coordinator::new(24);
    for round in 0..3 {
        let done = c.record_round(vec![AttemptOutcome::Rejected]);
        assert!(!done, "round {} must not decide the run", round + 1);
        assert!(matches!(c.state, RunState::Running));
    }
    let done = c.record_round(vec![AttemptOutcome::Credential(demo_user())]);
    assert!(done, "round 4 decides the run");
    assert_eq!(c.rounds_done, 4);
    match &c.state {
        RunState::Succeeded(user) => {
            let bytes = encode_user(user);
            assert_eq!(
                bytes,
                b"{\"username\":\"abc123\",\"bridge_address\":\"10.0.0.5\"}".to_vec()
            );
        },
        _ => panic!("run must have succeeded"),
    }
}

#[test]
fn budget_exhaustion_fails_the_run() {
    let mut c = Coordinator::new(2);
    assert!(!c.record_round(vec![AttemptOutcome::Rejected, AttemptOutcome::Unreachable]));
    let done = c.record_round(vec![AttemptOutcome::Rejected, AttemptOutcome::Malformed]);
    assert!(done, "the budget is spent");
    assert!(matches!(c.state, RunState::Failed));
}

#[test]
fn same_round_race_keeps_exactly_one() {
    let u1 = User { username: b"first".to_vec(), bridge_address: b"10.0.0.5".to_vec() };
    let u2 = User { username: b"second".to_vec(), bridge_address: b"10.0.0.6".to_vec() };
    let mut c = Coordinator::new(5);
    let done = c.record_round(vec![
        AttemptOutcome::Rejected,
        AttemptOutcome::Credential(u1),
        AttemptOutcome::Credential(u2),
    ]);
    assert!(done);
    match &c.state {
        RunState::Succeeded(user) => assert_eq!(user.username, b"first".to_vec()),
        _ => panic!("the race must still succeed, with the first observed"),
    }
}

#[test]
fn first_usable_takes_either_address_family() {
    let records = vec![
        DnsRecordKind::Other,
        DnsRecordKind::A(192, 168, 0, 2),
        DnsRecordKind::Aaaa(0xfe80, 0, 0, 0, 0, 0, 0, 1),
    ];
    assert_eq!(first_usable(&records), Some(DnsRecordKind::A(192, 168, 0, 2)));
    let v6_first = vec![DnsRecordKind::Aaaa(0, 0, 0, 0, 0, 0, 0, 1), DnsRecordKind::A(1, 2, 3, 4)];
    assert_eq!(first_usable(&v6_first), Some(DnsRecordKind::Aaaa(0, 0, 0, 0, 0, 0, 0, 1)));
    assert_eq!(first_usable(&vec![DnsRecordKind::Other, DnsRecordKind::Other]), None);
    assert_eq!(first_usable(&vec![]), None);
}

#[test]
fn ipv4_formatting_is_dotted_decimal() {
    assert_eq!(format_ipv4(0, 0, 0, 0), b"0.0.0.0".to_vec());
    assert_eq!(format_ipv4(255, 10, 0, 7), b"255.10.0.7".to_vec());
    assert_eq!(format_ipv4(192, 168, 1, 254), b"192.168.1.254".to_vec());
}

//! What the server does around the boards.
use std::collections::HashSet;

use sermcp::error::SerialError;
use sermcp::inotify_watcher::{
    classify_event, next_event, FileEvent, FileEventKind, NextEvent, QueueState, WatchKind,
};
use sermcp::jsonc::{parse_jsonc_value, Json};
use sermcp::marker::{gen_marker, marker_at, MARKER_POOL};
use sermcp::owner::{
    backfill_owner_anchor, number_in, owner_is_live, read_owner_record, record_pid, signed_in,
    stdio_owner_record, text_in,
};
use sermcp::path::{extension, file_name, join_path};
use sermcp::server_args::{http_port, listen_address, parse_args, Request, ServerArgs};
use sermcp::state_manager::{format_statusline_labeled, TargetState};
use sermcp::tmp_files::{
    is_left_behind, rotate_mcp_log, tmp_file_of, tmp_name, TmpFile, TmpSequence, INVENTORY_TMP,
    MAX_LOG_BYTES,
};

// ── Watched files ────────────────────────────────────────────────────

fn event(kind: FileEventKind, paths: &[&str]) -> FileEvent {
    FileEvent { kind, paths: paths.iter().map(|s| s.to_string()).collect() }
}

#[test]
fn test_classifies_target_state_in_any_event_path() {
    let e = classify_event(&event(FileEventKind::Any, &["unrelated.tmp", "target-state"]))
        .expect("target-state should be classified");
    assert_eq!(e.kind, WatchKind::StateChanged);
    assert_eq!(e.path, "target-state");
}

#[test]
fn test_ignores_config_and_log_paths() {
    for path in [".target.jsonc", "current.serial.log"] {
        assert!(
            classify_event(&event(FileEventKind::Any, &[path])).is_none(),
            "unexpected event for {path}"
        );
    }
}

#[test]
fn a_read_is_no_change() {
    assert!(classify_event(&event(FileEventKind::Access, &["target-state"])).is_none());
    assert!(classify_event(&event(FileEventKind::Modify, &["/d/target-state"])).is_some());
}

#[test]
fn a_lost_event_is_made_up_for() {
    assert_eq!(next_event(QueueState::Ready, false), NextEvent::Queued);
    assert_eq!(next_event(QueueState::Empty, false), NextEvent::Wait);
    assert_eq!(next_event(QueueState::Empty, true), NextEvent::Overflowed);
    assert_eq!(next_event(QueueState::Closed, false), NextEvent::End);
}

// ── Markers ──────────────────────────────────────────────────────────

#[test]
fn marker_length() {
    assert_eq!(gen_marker().len(), 10);
}

#[test]
fn marker_chars() {
    let m = gen_marker();
    assert!(m.chars().all(|c| c.is_ascii_uppercase()));
    assert!(!m.contains('R'));
    assert!(!m.contains('I'));
    assert!(!m.contains('D'));
}

#[test]
fn marker_unique() {
    let a = gen_marker();
    let b = gen_marker();
    assert_ne!(a, b);
}

#[test]
fn test_marker_many_unique() {
    let mut markers = HashSet::new();
    for _ in 0..1000 {
        let m = gen_marker();
        assert!(markers.insert(m), "Duplicate marker generated");
    }
    assert_eq!(markers.len(), 1000);
}

#[test]
fn test_marker_all_from_pool() {
    for _ in 0..100 {
        let m = gen_marker();
        for c in m.chars() {
            assert!(MARKER_POOL.contains(&(c as u8)), "Char {} not in pool", c);
        }
    }
}

#[test]
fn test_marker_pool_size() {
    assert_eq!(MARKER_POOL.len(), 23);
}

#[test]
fn test_marker_excluded_chars() {
    assert!(!MARKER_POOL.contains(&b'R'));
    assert!(!MARKER_POOL.contains(&b'I'));
    assert!(!MARKER_POOL.contains(&b'D'));
}

#[test]
fn a_marker_is_made_of_the_letters_chosen() {
    assert_eq!(marker_at(&vec![0, 1, 2, 3, 22]), "ABCEZ");
}

// ── Who owns a display ───────────────────────────────────────────────

fn json(text: &str) -> Json {
    parse_jsonc_value(text).unwrap()
}

#[test]
fn stdio_display_claim_preserves_live_hook_owner_and_replaces_dead_owner() {
    let live = json(r#"{"schema_version": 1, "owner_session_id": "first-agent", "owner_mcp_pid": 4711}"#);
    assert!(owner_is_live(&live, true, 0));
    let dead = json(r#"{"schema_version": 1, "owner_mcp_pid": 2147483647}"#);
    assert!(!owner_is_live(&dead, false, 0));
    let claimed = stdio_owner_record(4711, &None, "/proj", 1000);
    assert_eq!(claimed.get("owner_kind"), Some(&Json::Text("stdio".to_string())));
    assert_eq!(claimed.get("owner_mcp_pid"), Some(&Json::Number("4711".to_string())));
}

#[test]
fn a_claim_without_a_process_runs_out() {
    let claim = json(r#"{"schema_version": 1, "claimed_at_unix": 1000}"#);
    assert!(owner_is_live(&claim, false, 1001));
    assert!(!owner_is_live(&claim, false, 100_000));
    assert!(!owner_is_live(&json("{}"), true, 0));
}

#[test]
fn a_record_is_anchored_once() {
    let record = json(r#"{"schema_version": 1, "owner_kind": "hook"}"#);
    let anchored = backfill_owner_anchor(record, 17).unwrap();
    assert_eq!(record_pid(&anchored), Some(17));
    assert_eq!(anchored.get("owner_kind"), Some(&Json::Text("hook".to_string())));
    assert!(backfill_owner_anchor(anchored, 17).is_none());
    assert!(backfill_owner_anchor(json(r#"{"schema_version": 2}"#), 17).is_none());
}

#[test]
fn a_record_is_read() {
    let owner = read_owner_record(&stdio_owner_record(17, &Some("s".into()), "/p", -5)).unwrap();
    assert_eq!(owner.owner_kind, "stdio");
    assert_eq!(owner.owner_session_id.as_deref(), Some("s"));
    assert_eq!(owner.owner_mcp_pid, Some(17));
    assert_eq!(owner.claimed_at_unix, Some(-5));
    assert!(read_owner_record(&json("[]")).is_none());
}

#[test]
fn values_are_read_by_their_kind() {
    assert_eq!(number_in(&json("17")), Some(17));
    assert_eq!(number_in(&json("-17")), None);
    assert_eq!(signed_in(&json("-17")), Some(-17));
    assert_eq!(number_in(&json("1.5")), None);
    assert_eq!(text_in(&json("\"a\"")), Some("a".to_string()));
    assert_eq!(text_in(&json("1")), None);
}

// ── Files that are being written ─────────────────────────────────────

#[test]
fn startup_hygiene_sweeps_only_dead_owner_tmp_files() {
    let (dead, alive) = (4001u32, 4002u32);
    let cases = [
        (format!(".inventory.json.tmp-{dead}-17"), true),
        (format!(".inventory.json.tmp-{alive}-42"), false),
        (format!(".owner.json.tmp-{dead}-3"), true),
        (format!(".owner.json.tmp-{alive}-9"), false),
        (format!(".inventory.json.tmp-{dead}"), true),
        (format!(".inventory.json.tmp-{alive}"), true),
        (format!(".owner.json.tmp-{dead}"), true),
        (".inventory.json.tmp-not-a-pid-7".to_string(), true),
        ("inventory.json".to_string(), false),
    ];
    for (name, should_sweep) in &cases {
        let file = tmp_file_of(name);
        let lives = matches!(file, TmpFile::Process(pid) if pid == alive);
        assert_eq!(is_left_behind(file, lives), *should_sweep, "wrong sweep decision for {name}");
    }
}

#[test]
fn tmp_sequence_is_unique_per_call() {
    let mut sequence = TmpSequence::new();
    let a = sequence.tmp_sequence();
    let b = sequence.tmp_sequence();
    assert_ne!(a, b, "sequence must advance per call");
}

#[test]
fn a_name_tells_its_writer() {
    let name = tmp_name(INVENTORY_TMP, 17, 3);
    assert_eq!(name, ".inventory.json.tmp-17-3");
    assert_eq!(tmp_file_of(&name), TmpFile::Process(17));
}

#[test]
fn the_log_is_rotated_when_it_is_large() {
    assert!(rotate_mcp_log(MAX_LOG_BYTES).is_empty());
    let renames = rotate_mcp_log(MAX_LOG_BYTES + 1);
    assert_eq!(renames.first(), Some(&("mcp.log.4", "mcp.log.5")));
    assert_eq!(renames.last(), Some(&("mcp.log", "mcp.log.1")));
}

// ── The command line ─────────────────────────────────────────────────

fn args(list: &[&str]) -> Request {
    let v: Vec<String> = ["sermcp"].iter().chain(list.iter()).map(|s| s.to_string()).collect();
    parse_args(&v)
}

fn run_args(list: &[&str]) -> ServerArgs {
    match args(list) {
        Request::Run(a) => a,
        other => panic!("{other:?}"),
    }
}

#[test]
fn nothing_asked_for_is_a_plain_run() {
    let a = run_args(&[]);
    assert!(!a.verbose && !a.http_mode && !a.dry_run && !a.diagnose && !a.log_to_stderr);
    assert_eq!(a.http_bind, "127.0.0.1:3000");
    assert_eq!(a.idle_timeout, Some(600));
}

#[test]
fn options_are_read() {
    let a = run_args(&["--http", "0.0.0.0:8080", "--verbose"]);
    assert!(a.http_mode && a.verbose);
    assert_eq!(a.http_bind, "0.0.0.0:8080");
    let a = run_args(&["--http", "--dry-run"]);
    assert!(a.http_mode && a.dry_run);
    assert_eq!(a.http_bind, "127.0.0.1:3000");
}

#[test]
fn what_is_not_understood_is_said() {
    assert!(matches!(args(&["--help"]), Request::Help));
    assert!(matches!(args(&["--version"]), Request::Version));
    assert!(matches!(args(&["--bogus"]), Request::Unknown(s) if s == "--bogus"));
    assert!(matches!(args(&["--idle-timeout"]), Request::NoTimeout));
    assert!(matches!(args(&["--idle-timeout", "soon"]), Request::BadTimeout(s) if s == "soon"));
}

#[test]
fn addresses_are_split() {
    assert_eq!(http_port("127.0.0.1:3000"), Some(3000));
    assert_eq!(http_port("localhost"), None);
    assert_eq!(listen_address("0.0.0.0:8080"), ("0.0.0.0".to_string(), 8080));
}

// ── Small things ─────────────────────────────────────────────────────

#[test]
fn errors_say_what_they_are() {
    let cases = [
        (SerialError::ConnectionFailed("x".into()), "connection", "Connection failed: x"),
        (SerialError::TelnetNegotiation("x".into()), "communication", "RFC 2217 negotiation error: x"),
        (SerialError::NegotiationTimeout, "communication", "RFC 2217 negotiation/ack timed out"),
        (
            SerialError::BaudMismatch { requested: 9600, actual: 115200 },
            "communication",
            "Baud rate mismatch: requested 9600, server applied 115200",
        ),
        (SerialError::InvalidConfig("x".into()), "configuration", "Invalid configuration: x"),
        (SerialError::Io("x".into()), "system", "I/O error: x"),
    ];
    for (e, category, message) in &cases {
        assert_eq!(e.category(), *category);
        assert_eq!(e.message(), *message);
    }
}

#[test]
fn status_lines_have_their_colors() {
    assert_eq!(format_statusline_labeled(TargetState::Stopped, "b"), "");
    assert_eq!(
        sermcp::ansi_strip::strip_text(&format_statusline_labeled(TargetState::Active, "b")),
        "● b:active"
    );
}

#[test]
fn paths_are_taken_apart_and_joined() {
    assert_eq!(join_path("/a", "b"), "/a/b");
    assert_eq!(join_path("/a/", "b"), "/a/b");
    assert_eq!(join_path("/a", "/b"), "/b");
    assert_eq!(file_name("/a/b.img"), Some("b.img".to_string()));
    assert_eq!(extension("b.img"), Some("img".to_string()));
    assert_eq!(extension("b"), None);
}

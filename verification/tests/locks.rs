//! The locks of endpoints, projects and sessions.
use sermcp::lock_manager::{
    check_project_singleton, default_lock_dir, endpoint_has_lock, endpoint_lock_owner,
    endpoint_lock_path, environment_values, find_project_holder, fnv1a_hash, hex_text, holds,
    is_live_server_holder, is_lock_of, lock_conflict, lock_content, may_clean_locks, other_server,
    parse_pid, process_alive, process_state_from_stat, read_lock_pid, refused_project_owner,
    steal_lock, Candidate, LockAttempt, SignalReply,
};
use sermcp::session_lock::{
    session_id, session_lock_content, session_lock_for, session_lock_path_for,
};

const HOST: &str = "lock-1.invalid";
const PORT: &str = "47001";

#[test]
fn steal_lock_only_displaces_the_recorded_owner() {
    let content = format!("4123\n{HOST}:{PORT}\nother-project\n");
    let recorded = read_lock_pid(&content);
    assert!(!steal_lock(recorded, 9999, false, 1));
    assert!(steal_lock(recorded, 4123, false, 1));
}

#[test]
fn test_lock_file_content() {
    let endpoint = format!("{HOST}:{PORT}");
    assert!(endpoint_has_lock(HOST, PORT));
    let key = format!("{:x}", fnv1a_hash(&endpoint))[..8].to_string();
    assert_eq!(endpoint_lock_path(HOST, PORT, "/locks"), format!("/locks/{key}.lock"));
    let content = lock_content(4711, HOST, PORT, "lab", "2026-01-01T00:00:00Z");
    let lines: Vec<&str> = content.lines().collect();
    assert_eq!(lines.len(), 4);
    assert_eq!(lines[0], "4711");
    assert_eq!(lines[1], endpoint);
    assert_eq!(lines[2], "lab");
    assert_eq!(lines[3], "2026-01-01T00:00:00Z");
    assert_eq!(read_lock_pid(&content), Some(4711));
}

#[test]
fn cleanup_dead_process_locks_is_pid_scoped() {
    let dead = format!("99999999\n{HOST}:{PORT}\nhost\nnow");
    let live = format!("4711\n{HOST}:{PORT}\nhost\nnow");
    assert!(may_clean_locks(99999999, false));
    assert!(is_lock_of("dead.lock", &dead, 99999999));
    assert!(!is_lock_of("live.lock", &live, 99999999), "another process's lock is untouched");
    assert!(!may_clean_locks(4711, true), "a live PID is never cleaned");
    assert!(!is_lock_of("dead.txt", &dead, 99999999));
}

#[test]
fn test_same_host_port_conflict() {
    assert_eq!(lock_conflict(LockAttempt::Taken, 7), None);
    assert_eq!(lock_conflict(LockAttempt::Held, 7), None);
    let foreign = LockAttempt::Refused { recorded: Some(41), alive: true };
    assert_eq!(lock_conflict(foreign, 7), Some(41));
}

#[test]
fn test_fnv1a_hash_deterministic() {
    let h1 = fnv1a_hash("test:1234");
    let h2 = fnv1a_hash("test:1234");
    assert_eq!(h1, h2);

    let h3 = fnv1a_hash("test:1235");
    assert_ne!(h1, h3);
}

#[test]
fn hashes_have_their_known_values() {
    assert_eq!(fnv1a_hash(""), 0xcbf2_9ce4_8422_2325);
    assert_eq!(fnv1a_hash("a"), 0xaf63_dc4c_8601_ec8c);
    assert_eq!(hex_text(0xcbf2_9ce4_8422_2325), "cbf29ce484222325");
    assert_eq!(hex_text(0), "0");
}

#[test]
fn test_process_alive() {
    let running = Some("4711 (sermcp) S 1 2 3".to_string());
    assert!(process_alive(SignalReply::Delivered, &running));
    assert!(!process_alive(SignalReply::NoProcess, &None));
    let zombie = Some("4711 (sermcp) Z 1 2 3".to_string());
    assert!(!process_alive(SignalReply::Delivered, &zombie));
}

#[test]
fn process_state_parser_handles_parentheses_and_spaces_in_comm() {
    assert_eq!(process_state_from_stat("42 (worker pool) S 1 2 3"), Some('S'));
    assert_eq!(process_state_from_stat("42 (worker) name) Z 1 2 3"), Some('Z'));
    assert_eq!(process_state_from_stat("42 malformed"), None);
    assert_eq!(process_state_from_stat("42 (worker)"), None);
}

#[test]
fn test_different_hosts_no_conflict() {
    assert_ne!(
        endpoint_lock_path("lock-1.invalid", PORT, "/locks"),
        endpoint_lock_path("lock-2.invalid", PORT, "/locks")
    );
}

#[test]
fn different_ports_no_conflict() {
    assert_ne!(
        endpoint_lock_path(HOST, "47001", "/locks"),
        endpoint_lock_path(HOST, "47002", "/locks")
    );
}

#[test]
fn test_acquire_lock_respects_custom_dir() {
    let path = endpoint_lock_path(HOST, PORT, "/custom");
    assert!(path.starts_with("/custom/"), "lock should be in custom dir, not default");
    assert_eq!(default_lock_dir(), "/tmp/sermcp/locks");
}

#[test]
fn recycled_pid_never_blocks_project_acquisition() {
    assert!(!is_live_server_holder(true, &Some("systemd".to_string())));
    assert_eq!(check_project_singleton(Some(1), false, false), None);
}

#[test]
fn stale_unanchored_per_dut_pid_does_not_block_project_lock() {
    let stale = Candidate { pid: 41, live_server: true, in_project: false };
    assert_eq!(find_project_holder(&vec![stale], 7), None);
    let owner = Candidate { pid: 42, live_server: true, in_project: true };
    assert_eq!(find_project_holder(&vec![stale, owner], 7), Some(42));
    assert_eq!(find_project_holder(&vec![owner], 42), None);
}

#[test]
fn project_lock_is_singleton_and_owner_drop_releases_it() {
    assert_eq!(refused_project_owner(Some(5), true, None, None), 5);
    assert_eq!(check_project_singleton(None, false, false), None);
}

#[test]
fn a_lock_without_a_number_names_nobody() {
    assert_eq!(read_lock_pid("host\n"), None);
    assert_eq!(read_lock_pid(""), None);
    assert_eq!(parse_pid("17"), Some(17));
    assert_eq!(parse_pid("x"), None);
    assert_eq!(endpoint_lock_owner(Some(5), false), None);
    assert_eq!(endpoint_lock_owner(Some(5), true), Some(5));
}

#[test]
fn servers_are_told_by_their_names() {
    assert!(is_live_server_holder(true, &Some("sermcp\n".to_string())));
    assert!(!is_live_server_holder(false, &Some("sermcp\n".to_string())));
    assert_eq!(other_server("4711", "sermcp\n", 1), Some(4711));
    assert_eq!(other_server("4711", "sermcp\n", 4711), None);
    assert_eq!(other_server("self", "sermcp\n", 1), None);
    assert!(holds("a sermcp b", "sermcp"));
    assert!(!holds("a ser mcp b", "sermcp"));
}

#[test]
fn the_environment_of_a_process_is_read() {
    let environ = b"A=1\0TARGET_CONF=/p/.target.jsonc\0B=2\0";
    let values = environment_values(environ, b"TARGET_CONF=");
    assert_eq!(values, vec![b"/p/.target.jsonc".to_vec()]);
    assert!(environment_values(environ, b"TARGET=").is_empty());
}

// ── Sessions ─────────────────────────────────────────────────────────

#[test]
fn the_session_lock_is_named_by_a_digest() {
    let digest = vec![0x12u8, 0xab, 0x00, 0xff, 0x77];
    assert_eq!(session_lock_for("agent", &digest), "/dev/shm/agent-serial-12ab00ff.lock");
    // md5("") is d41d8cd98f00b204e9800998ecf8427e.
    assert_eq!(session_lock_path_for("agent", ""), "/dev/shm/agent-serial-d41d8cd9.lock");
    // md5("/") is 6666cd76f96956469e7be39d750cc7d9.
    assert_eq!(session_lock_path_for("agent", "/"), "/dev/shm/agent-serial-6666cd76.lock");
}

#[test]
fn the_first_session_that_is_said_counts() {
    let s = |t: &str| Some(t.to_string());
    assert_eq!(session_id(&s("one"), &s("two")), "one");
    assert_eq!(session_id(&None, &s("two")), "two");
    assert_eq!(session_id(&s("  "), &s("two")), "-");
    assert_eq!(session_id(&None, &None), "-");
    assert_eq!(session_lock_content("/proj", 17, "one", 1000), "/proj\n17\none\n1000\n");
}

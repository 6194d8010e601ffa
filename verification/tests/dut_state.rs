//! What the state file of a board says, and how it is shown.
use sermcp::dut_state::{
    classification_of, classify_state, dut_state_file, format_age_suffix, format_state_cell,
    inventory_state_for, is_critical, is_shell_stage, named_state_file, read_dut_state,
    session_display, state_label, target_state_of, InventoryDutState, StateFile,
    AGE_SUFFIX_THRESHOLD_SECS, KNOWN_STATES, SHELL_STAGES, STALE_THRESHOLD_SECS,
};
use sermcp::state_manager::{format_statusline_labeled, TargetState};

fn file(text: &str, age: Option<u64>) -> StateFile {
    StateFile { missing: false, age_secs: age, text: Some(text.to_string()) }
}

fn no_file() -> StateFile {
    StateFile { missing: true, age_secs: None, text: None }
}

#[test]
fn session_display_resolves_the_occupancy_state_per_session() {
    for state in [
        "active",
        "booting",
        "uboot",
        "crashed",
        "DUT-off",
        "disconnected",
        "stopped",
        "unknown",
    ] {
        let owner = session_display(state, "rk3568-switch", false);
        assert_eq!(owner.state, state);
        let guest = session_display(state, "rk3568-switch", true);
        assert_eq!(guest.state, "busy");
        assert_eq!(guest.plain, "● rk3568-switch:busy");
        assert!(!guest.plain.contains('\x1b'));
    }
    for guest in [false, true] {
        let display = session_display("dutabo", "rk3568-switch", guest);
        assert_eq!(display.state, "dutabo");
        assert_eq!(display.plain, "● rk3568-switch:dutabo");
    }
}

#[test]
fn classify_known_state_vocabulary_maps_to_itself() {
    for state in KNOWN_STATES {
        assert_eq!(classify_state(state), state, "exact match failed");
        assert_eq!(
            classify_state(&format!("  {state}\n")),
            state,
            "whitespace-trimmed match failed"
        );
    }
}

#[test]
fn classify_unknown_text_falls_back_to_unknown() {
    for text in ["", "   ", "\n", "garbage", "ACTIVE", "Active", "crashed!"] {
        assert_eq!(classify_state(text), "unknown", "input {text:?}");
    }
}

#[test]
fn classification_buckets_and_critical_flag() {
    for state in ["crashed", "DUT-off", "disconnected"] {
        assert_eq!(classification_of(state), "critical", "{state}");
        assert!(is_critical(state), "{state}");
        assert_eq!(state_label(state), format!("✗ {state}"));
    }
    for (state, bucket) in [
        ("booting", "transitional"),
        ("uboot", "transitional"),
        ("active", "online"),
        ("dutabo", "online"),
        ("stopped", "offline"),
        ("unknown", "unknown"),
    ] {
        assert_eq!(classification_of(state), bucket, "{state}");
        assert!(!is_critical(state), "{state}");
        assert_eq!(state_label(state), state, "{state}");
    }
}

#[test]
fn target_state_of_round_trips_vocabulary() {
    for state in KNOWN_STATES {
        let target = target_state_of(state).unwrap_or_else(|| panic!("{state} unmapped"));
        assert_eq!(target.as_str(), state);
    }
    assert_eq!(target_state_of("unknown"), None);
    assert_eq!(target_state_of(""), None);
}

#[test]
fn read_missing_file_is_unknown_and_never_healthy() {
    let view = read_dut_state(&no_file());
    assert_eq!(view.state, "unknown");
    assert_eq!(view.classification, "unknown");
    assert!(view.missing);
    assert_eq!(view.age_secs, None);
    assert!(!view.stale);
    assert!(!view.critical);
    assert_eq!(view.label, "unknown");
}

#[test]
fn read_empty_file_is_unknown_but_not_missing() {
    let view = read_dut_state(&file("", Some(0)));
    assert_eq!(view.state, "unknown");
    assert!(!view.missing);
    assert!(view.age_secs.is_some());
    assert!(!view.stale);
    assert!(!view.critical);
}

#[test]
fn read_unrecognized_text_is_unknown() {
    let view = read_dut_state(&file("kernel-panic-loop", Some(0)));
    assert_eq!(view.state, "unknown");
    assert!(!view.missing);
    assert!(!view.critical);
}

#[test]
fn read_unreadable_path_is_unknown_but_not_missing() {
    let view = read_dut_state(&StateFile { missing: false, age_secs: Some(0), text: None });
    assert_eq!(view.state, "unknown");
    assert!(!view.missing);
    assert!(!view.critical);
}

#[test]
fn read_computes_age_and_marks_critical_states() {
    let view = read_dut_state(&file("crashed", Some(42)));
    assert_eq!(view.state, "crashed");
    assert_eq!(view.classification, "critical");
    assert!(view.critical);
    assert_eq!(view.label, "✗ crashed");
    let age = view.age_secs.expect("existing file must have an age");
    assert!((42..=44).contains(&age), "age {age} not ~42s");
    assert!(!view.stale);
}

#[test]
fn read_marks_stale_at_threshold() {
    assert!(!read_dut_state(&file("active", Some(STALE_THRESHOLD_SECS - 1))).stale);
    assert!(read_dut_state(&file("active", Some(STALE_THRESHOLD_SECS))).stale);
    assert!(read_dut_state(&file("active", Some(STALE_THRESHOLD_SECS + 1))).stale);
    assert_eq!(AGE_SUFFIX_THRESHOLD_SECS, 600);
}

#[test]
fn read_future_mtime_yields_no_age() {
    let view = read_dut_state(&file("active", None));
    assert_eq!(view.state, "active");
    assert_eq!(view.age_secs, None);
    assert!(!view.stale);
}

#[test]
fn read_known_states_round_trip() {
    for state in KNOWN_STATES {
        let view = read_dut_state(&file(state, Some(0)));
        assert_eq!(view.state, state, "round-trip failed");
        assert!(!view.missing);
        assert_eq!(view.critical, is_critical(state));
    }
}

#[test]
fn age_suffix_threshold_and_units() {
    assert_eq!(format_age_suffix(0), None);
    assert_eq!(format_age_suffix(AGE_SUFFIX_THRESHOLD_SECS - 1), None);
    assert_eq!(format_age_suffix(AGE_SUFFIX_THRESHOLD_SECS), Some("10m ago".into()));
    assert_eq!(format_age_suffix(2_520), Some("42m ago".into()));
    assert_eq!(format_age_suffix(3_600), Some("1h ago".into()));
    assert_eq!(format_age_suffix(5 * 3_600), Some("5h ago".into()));
    assert_eq!(format_age_suffix(86_400), Some("1d ago".into()));
}

#[test]
fn state_cell_appends_age_suffix() {
    let active = read_dut_state(&file("active", Some(2_520)));
    assert_eq!(format_state_cell(&active), "active (42m ago)");
    let crashed = read_dut_state(&file("crashed", Some(5 * 3_600)));
    assert_eq!(format_state_cell(&crashed), "✗ crashed (5h ago)");
    let fresh = read_dut_state(&file("active", Some(0)));
    assert_eq!(format_state_cell(&fresh), "active");
    assert_eq!(format_state_cell(&read_dut_state(&no_file())), "unknown");
}

// ── The inventory ────────────────────────────────────────────────────

/// The files that exist, with what they hold.
fn inventory(files: &[(&str, &str)], name: &str, dut_dir: &str) -> InventoryDutState {
    let exists = |p: &str| files.iter().any(|(f, _)| *f == p);
    let named = named_state_file("/project", name).is_some_and(|p| exists(&p));
    let path = dut_state_file("/project", name, dut_dir, named);
    let state = match files.iter().find(|(f, _)| *f == path) {
        Some((_, text)) => file(text, Some(0)),
        None => no_file(),
    };
    inventory_state_for(&read_dut_state(&state), name)
}

#[test]
fn inventory_state_for_uses_statusline_text() {
    let files = [("/project/.dut-serial/rk3576/target-state", "crashed")];
    let state = inventory(&files, "rk3576", ".dut-serial/rk3576");
    assert_eq!(state.state, "crashed");
    assert_eq!(state.state_label, "✗ crashed");
    assert!(state.critical);
    let expected = format_statusline_labeled(TargetState::Crashed, "rk3576");
    assert_eq!(state.state_text, expected);
    assert!(!state.state_plain.contains('\x1b'));
    assert!(state.state_plain.contains("rk3576:crashed"));

    let state = inventory(&files, "ghost", ".dut-serial/ghost");
    assert_eq!(state.state, "unknown");
    assert_eq!(state.state_label, "unknown");
    assert_eq!(state.age_secs, None);
    assert!(!state.critical);
    assert_eq!(state.state_text, "");
}

#[test]
fn inventory_state_for_stopped_has_empty_statusline() {
    let files = [("/project/.dut-serial/d1/target-state", "stopped")];
    let state = inventory(&files, "d1", ".dut-serial/d1");
    assert_eq!(state.state, "stopped");
    assert_eq!(state.state_text, "");
    assert_eq!(state.state_plain, "");
    assert!(!state.critical);
}

#[test]
fn inventory_state_for_prefers_name_dir_over_explicit_dut_dir() {
    let files = [
        ("/project/.dut-serial/board/target-state", "active"),
        ("/project/explicitdir/target-state", "crashed"),
    ];
    let state = inventory(&files, "board", "explicitdir");
    assert_eq!(state.state, "active", "name dir must win over dut_dir");
    assert!(!state.critical);
    assert_eq!(state.state_label, "active");
}

#[test]
fn inventory_state_for_falls_back_to_dut_dir_when_name_dir_missing() {
    let files = [("/project/explicitdir/target-state", "crashed")];
    let state = inventory(&files, "board", "explicitdir");
    assert_eq!(state.state, "crashed");
    assert!(state.critical);
    assert_eq!(state.state_label, "✗ crashed");
}

#[test]
fn dut_state_file_preference_rules() {
    assert_eq!(
        dut_state_file("/project", "board", "explicitdir", true),
        "/project/.dut-serial/board/target-state"
    );
    assert_eq!(
        dut_state_file("/project", "ghost", "explicitdir2", false),
        "/project/explicitdir2/target-state"
    );
    assert_eq!(
        dut_state_file("/project", "", "custom", false),
        "/project/custom/target-state"
    );
    assert_eq!(named_state_file("/project", ""), None);
}

#[test]
fn an_absolute_directory_stands_for_itself() {
    assert_eq!(
        dut_state_file("/project", "ghost", "/var/duts", false),
        "/var/duts/target-state"
    );
}

#[test]
fn a_guest_sees_only_that_the_board_is_in_use() {
    let a = session_display("active", "b", true);
    let b = session_display("crashed", "b", true);
    assert_eq!(a.text, b.text);
    assert_eq!(a.plain, b.plain);
    assert_eq!(a.state, b.state);
}

#[test]
fn an_unknown_state_is_shown_as_nothing() {
    let d = session_display("unknown", "b", false);
    assert_eq!((d.text.as_str(), d.plain.as_str()), ("", ""));
}

#[test]
fn shell_stages_are_told_apart() {
    for stage in SHELL_STAGES {
        assert!(is_shell_stage(stage));
    }
    assert!(!is_shell_stage("kernel"));
    assert!(!is_shell_stage("Shell"));
}

//! The questions, the answers, and what becomes of the configuration.
use sermcp::advanced::{
    advanced_default, advanced_fields, advanced_literal, dut_advanced_keys, dut_owned_advanced,
    parse_number_or_string, EmptyMeans,
};
use sermcp::answers::{
    build_config_from_answers, DutAnswers, HostAnswers, WizardAnswers,
};
use sermcp::ask::ask_required;
use sermcp::config::{
    parse_jsonc_text, JsoncDevHost, JsoncDut, JsoncRelay, JsoncSerial, JsoncTarget, NumberOrString,
    TargetJsoncConfig,
};
use sermcp::current::advanced_current;
use sermcp::defaults::fill_defaults;
use sermcp::edit::{apply_edits, EditOp};
use sermcp::fields::{dut_advanced_default, schema_fields, supported_relay_types, FieldInstance};
use sermcp::finish::{finish_init, prepare_init, render_test_config, PendingWrite};
use sermcp::form::{
    form_groups, DefaultSrc, FieldKey, FieldKeyFrag, FieldKind, FieldValues, FormGroup, Repeat,
};
use sermcp::locate::{locate_container_close, locate_value, PathSeg};
use sermcp::json_text::json_file;
use sermcp::mcp_json::McpJsonAction;
use sermcp::merge::{merge_advanced, merge_dut_advanced};
use sermcp::naming::next_free_dut_name;
use sermcp::number::Real;
use sermcp::occupancy::{
    answered_endpoints, endpoint_conflict_line, holder_conflict, occupancy_gate, HeldEndpoint,
};
use sermcp::options::InitOptions;
use sermcp::outcome::{ensure_mcp_json, gather_answers, lock_dir_for, wizard_outcome};
use sermcp::prompt::{
    BusyDecision, CannedIO, EndpointConflict, NoteKind, PromptIO, Recorded, TalkView,
};
use sermcp::render::{render_dut_block, render_host_block, render_jsonc};
use sermcp::resolve::{resolve_answers, NamePolicy};
use sermcp::schema::{build_form_schema, AdvancedGate, FormSchema, SchemaTarget};
use sermcp::text_map::TextMap;
use sermcp::update_config::compute_update_ops;
use sermcp::validate::{check_relay_types, dry_run_complaint};
use sermcp::walk::walk_schema;

// ── Helpers ──────────────────────────────────────────────────────────

fn quick_opts() -> InitOptions {
    InitOptions { quick: true, ..Default::default() }
}

fn non_interactive_opts() -> InitOptions {
    InitOptions { non_interactive: true, ..Default::default() }
}

fn advanced_opts() -> InitOptions {
    InitOptions { advanced: true, ..Default::default() }
}

const QUICK_ANSWERS: [&str; 9] = ["1", "10.0.0.1", "linaro", "", "", "1", "", "41002", ""];

fn with_empties(front: &[&str], n: usize) -> Vec<String> {
    let mut v: Vec<String> = front.iter().map(|s| s.to_string()).collect();
    for _ in 0..n {
        v.push(String::new());
    }
    v
}

/// The quick answers, and Enter for each question about the board's own keys.
fn quick_with_dut_advanced() -> Vec<String> {
    with_empties(&QUICK_ANSWERS, 13)
}

fn refs(v: &[String]) -> Vec<&str> {
    v.iter().map(|s| s.as_str()).collect()
}

/// Keeps the kinds of the notes and the questions; the review can be refused.
struct RecordingIO {
    inputs: Vec<String>,
    confirms: Vec<bool>,
    busy: Vec<BusyDecision>,
    refusal: Option<String>,
    notes: Vec<(NoteKind, String)>,
    calls: Vec<(String, Option<String>)>,
    seen: Vec<String>,
    busy_calls: usize,
}

impl RecordingIO {
    fn new(inputs: &[&str]) -> Self {
        RecordingIO {
            inputs: inputs.iter().map(|s| s.to_string()).collect(),
            confirms: Vec::new(),
            busy: Vec::new(),
            refusal: None,
            notes: Vec::new(),
            calls: Vec::new(),
            seen: Vec::new(),
            busy_calls: 0,
        }
    }
}

impl PromptIO for RecordingIO {
    fn talk(&self) -> TalkView {
        unreachable!("only proofs speak of the conversation")
    }
    fn input(&mut self, prompt: &str, default: Option<&str>) -> Result<String, String> {
        self.calls.push((prompt.to_string(), default.map(str::to_string)));
        if self.inputs.is_empty() {
            return Err("no more canned inputs".to_string());
        }
        Ok(self.inputs.remove(0))
    }
    fn confirm(&mut self, _prompt: &str, default: bool) -> Result<bool, String> {
        if self.confirms.is_empty() {
            return Ok(default);
        }
        Ok(self.confirms.remove(0))
    }
    fn note(&mut self, kind: NoteKind, msg: &str) {
        self.notes.push((kind, msg.to_string()));
    }
    fn finish(&mut self, _target_path: &str, changes: &Vec<String>) -> Result<(), String> {
        self.seen = changes.clone();
        match &self.refusal {
            Some(e) => Err(e.clone()),
            None => Ok(()),
        }
    }
    fn busy_endpoints(&mut self, _c: &Vec<EndpointConflict>) -> Result<BusyDecision, String> {
        self.busy_calls += 1;
        if self.busy.is_empty() {
            return Ok(BusyDecision::Continue);
        }
        Ok(self.busy.remove(0))
    }
}

const PATH: &str = "/project/.target.jsonc";

/// A whole run over the text of a file, up to the writing.
fn run<P: PromptIO>(
    io: &mut P,
    opts: &InitOptions,
    text: Option<&str>,
) -> Result<(PendingWrite, bool), String> {
    let mut prepared = prepare_init(PATH.to_string(), text.map(str::to_string), opts)?;
    let answers = gather_answers(io, opts, &mut prepared.schema)?;
    let held: Vec<HeldEndpoint> = Vec::new();
    let pending = finish_init(io, opts, &prepared, &answers, &held)?;
    Ok((pending, prepared.created))
}

fn run_canned(
    inputs: &[String],
    opts: &InitOptions,
    text: Option<&str>,
) -> Result<(PendingWrite, bool), String> {
    let mut io = CannedIO::new(&refs(inputs), Vec::new(), Vec::new());
    run(&mut io, opts, text)
}

fn has_line(v: &[String], part: &str) -> bool {
    v.iter().any(|c| c.contains(part))
}

fn dut_answers(name: &str, port: &str) -> DutAnswers {
    DutAnswers {
        dut_name: name.into(),
        serial_port: port.into(),
        login_user: "root".into(),
        relay_gate: false,
        relay_type: String::new(),
        relay_port: String::new(),
        relay_reset_ch: String::new(),
        relay_download_ch: String::new(),
        relay_power_ch: String::new(),
        relay_reset_time_ms: String::new(),
        relay_power_off_time_ms: String::new(),
        advanced: TextMap::new(),
    }
}

fn host_answers(ip: &str, user: &str, duts: Vec<DutAnswers>) -> HostAnswers {
    HostAnswers {
        ip: ip.into(),
        user: user.into(),
        pass: String::new(),
        host_name: String::new(),
        duts,
    }
}

fn answers_of(hosts: Vec<HostAnswers>, advanced: TextMap) -> WizardAnswers {
    WizardAnswers { hosts, advanced, announcements: Vec::new() }
}

fn one_dut_answers(ip: &str, port: &str) -> WizardAnswers {
    let mut dut = dut_answers("dut1", port);
    dut.advanced.insert("serial.baudrate", advanced_default("serial.baudrate"));
    answers_of(vec![host_answers(ip, "linaro", vec![dut])], TextMap::new())
}

fn values_of(pairs: &[(FieldKey, &str)]) -> FieldValues {
    let mut v = FieldValues::new();
    for (k, t) in pairs {
        v.insert(*k, t.to_string());
    }
    v
}

fn got<'a>(m: &'a TextMap, key: &str) -> Option<&'a str> {
    m.get(key).map(|s| s.as_str())
}

fn float_of(r: &Option<Real>) -> Option<f64> {
    r.as_ref().map(|v| v.text.parse::<f64>().unwrap())
}

fn port_text(d: &JsoncDut) -> String {
    d.serial.as_ref().unwrap().port.as_ref().unwrap().to_value_string()
}

fn baud_text(d: &JsoncDut) -> Option<String> {
    d.serial.as_ref().and_then(|s| s.baudrate.as_ref()).map(|b| b.to_value_string())
}

fn key(s: &str) -> PathSeg {
    PathSeg::Key(s.to_string())
}

const LOCATE_FIXTURE: &str = r#"{
  // leading comment with braces {} and brackets []
  "dev_hosts": [
    {
      "ip": "10.0.0.1",   /* block comment { } */
      "user": "linaro",
      "pass": "",
      "duts": [
        {
          "dut_name": "board1",  // board
          "serial": {
            "port": 41000,  // keep this comment
            "baudrate": 1500000,
            "rfc2217": false
          },
          "target": { "login_user": "root", "login_pass": "" },
          "relay": { "type": "ch340" }
        },
        {
          "dut_name": "board2",
          "serial": { "port": "41001", "baudrate": 460800 }
        }
      ]
    }
  ]
}"#;

const UPDATE_GLOBAL_FIXTURE: &str = r#"{
  "dev_hosts": [
    {
      "ip": "10.0.0.1",
      "user": "linaro",
      "pass": "",
      "duts": [
        {
          "dut_name": "board1",
          "serial": { "port": 41000, "baudrate": 460800 },
          "target": { "login_user": "root" },
          "relay": { "type": "ch340" }
        }
      ]
    }
  ],
  "serial": { "baudrate": 1500000, "rfc2217": false },
  "relay": { "reset_ch": 2 },
  "flash": { "loader_bin": "rockdev/loader.bin" }
}"#;

const SMALL_FIXTURE: &str = "{\n  \"dev_hosts\": [\n    { \"ip\": \"10.0.0.1\", \"user\": \"u\", \"pass\": \"\", \"duts\": [ { \"dut_name\": \"b1\", \"serial\": { \"port\": 41000 } } ] }\n  ]\n}\n";

// ── Naming ───────────────────────────────────────────────────────────

#[test]
fn test_next_free_dut_name() {
    assert_eq!(next_free_dut_name("dut", &["dut1".into()]), "dut2");
}

#[test]
fn next_free_name_skips_every_taken_number() {
    let taken: Vec<String> = vec!["dut2".into(), "dut1".into(), "dut4".into()];
    assert_eq!(next_free_dut_name("dut", &taken), "dut3");
    assert_eq!(next_free_dut_name("b", &taken), "b1");
}

#[test]
fn test_parse_number_or_string() {
    assert_eq!(parse_number_or_string("41002").unwrap().to_value_string(), "41002");
    assert_eq!(parse_number_or_string("41002.5").unwrap().to_value_string(), "41002.5");
    assert!(matches!(
        parse_number_or_string("/dev/ttyUSB0").unwrap(),
        NumberOrString::String(ref s) if s == "/dev/ttyUSB0"
    ));
}

// ── Advanced keys ────────────────────────────────────────────────────

#[test]
fn test_advanced_defaults_cover_every_key() {
    for spec in advanced_fields() {
        let _ = advanced_literal(spec.key, &advanced_default(spec.key));
    }
}

#[test]
fn test_advanced_literal_zero_guarded() {
    for key in [
        "relay.port",
        "relay.reset_ch",
        "relay.download_ch",
        "relay.power_ch",
        "relay.reset_time_ms",
        "relay.power_off_time_ms",
    ] {
        assert_eq!(advanced_literal(key, "0").unwrap(), None, "{key} 0 must be zero-guarded");
    }
    assert_eq!(advanced_literal("monitor.learner_stage_threshold", "0.0").unwrap(), None);
    assert_eq!(advanced_literal("monitor.crash_keywords", "").unwrap(), None);
    assert_eq!(advanced_literal("monitor.crash_keywords", "  , , ").unwrap(), None);
    assert_eq!(advanced_literal("relay.port", "41000").unwrap(), Some("41000".into()));
}

#[test]
fn test_advanced_literal_typed_errors_name_key() {
    assert!(advanced_literal("relay.port", "abc").unwrap_err().contains("relay.port"));
    assert!(advanced_literal("serial.rfc2217", "maybe").unwrap_err().contains("serial.rfc2217"));
    assert!(advanced_literal("monitor.hang_timeout", "x")
        .unwrap_err()
        .contains("monitor.hang_timeout"));
    assert!(advanced_literal("no.such.key", "1").unwrap_err().contains("no.such.key"));
}

#[test]
fn test_interrupt_char_is_validated_before_test_or_save() {
    for value in ["ctrl_c", "^C", "esc", "space", "F12", "0x03", "3", "x"] {
        assert!(advanced_literal("uboot.interrupt_char", value).is_ok(), "{value} should be accepted");
    }
    for value in ["ctrl_shift_c", "0x100", "中文"] {
        let error = advanced_literal("uboot.interrupt_char", value).unwrap_err();
        assert!(error.contains("uboot.interrupt_char"), "{error}");
    }
}

#[test]
fn test_advanced_literal_power_off_clamped() {
    assert_eq!(
        advanced_literal("relay.power_off_time_ms", "1000").unwrap(),
        Some("3000".into())
    );
    assert_eq!(
        advanced_literal("relay.power_off_time_ms", "5000").unwrap(),
        Some("5000".into())
    );
}

#[test]
fn test_merge_advanced_roundtrip() {
    let mut config = TargetJsoncConfig {
        dev_hosts: Vec::new(),
        serial: None,
        target: None,
        uboot: None,
        relay: None,
        monitor: None,
        flash: None,
        download: None,
        control: None,
        loader: None,
        reference_log: None,
        dut_dir: None,
        lock_dir: None,
    };
    let answers = TextMap::from_pairs(&[
        ("serial.baudrate", "921600"),
        ("serial.rfc2217", "true"),
        ("monitor.crash_keywords", "Kernel panic, BUG:"),
        ("control.dev_ctrl", "ctl --reset 1"),
        ("loader", "uefi"),
        ("lock_dir", "/tmp/locks"),
    ]);
    merge_advanced(&mut config, &answers).unwrap();
    let serial = config.serial.as_ref().unwrap();
    assert_eq!(serial.baudrate.as_ref().unwrap().to_value_string(), "921600");
    assert_eq!(serial.rfc2217, Some(true));
    assert!(config.relay.is_none());
    assert_eq!(
        config.monitor.as_ref().unwrap().crash_keywords.as_ref().unwrap(),
        &["Kernel panic".to_string(), "BUG:".to_string()]
    );
    assert_eq!(config.lock_dir.as_deref(), Some("/tmp/locks"));
    assert_eq!(config.loader.as_deref(), Some("uefi"));
    let current = advanced_current(&config);
    assert_eq!(got(&current, "serial.baudrate"), Some("921600"));
    assert_eq!(got(&current, "monitor.crash_keywords"), Some("Kernel panic, BUG:"));
}

// ── Locator ──────────────────────────────────────────────────────────

#[test]
fn test_locate_values() {
    let text = LOCATE_FIXTURE;
    let ip_path = [key("dev_hosts"), PathSeg::Index(0), key("ip")];
    let (start, end) = locate_value(text, &ip_path).unwrap();
    assert_eq!(&text[start..end], "\"10.0.0.1\"");

    let port_path = [
        key("dev_hosts"),
        PathSeg::Index(0),
        key("duts"),
        PathSeg::Index(0),
        key("serial"),
        key("port"),
    ];
    let (start, end) = locate_value(text, &port_path).unwrap();
    assert_eq!(&text[start..end], "41000");

    let port2_path = [
        key("dev_hosts"),
        PathSeg::Index(0),
        key("duts"),
        PathSeg::Index(1),
        key("serial"),
        key("port"),
    ];
    let (start, end) = locate_value(text, &port2_path).unwrap();
    assert_eq!(&text[start..end], "\"41001\"");
}

#[test]
fn test_locate_handles_strings_with_braces_and_escapes() {
    let text = r#"{
  "dev_hosts": [
    {
      "ip": "10.0.0.1",
      "pass": "}{not\"a\\\"key}",
      "duts": [
        { "dut_name": "board1", "serial": { "port": 41000 } }
      ]
    }
  ]
}"#;
    let ip_path = [key("dev_hosts"), PathSeg::Index(0), key("ip")];
    let (start, end) = locate_value(text, &ip_path).unwrap();
    assert_eq!(&text[start..end], "\"10.0.0.1\"");
    let pass_path = [key("dev_hosts"), PathSeg::Index(0), key("pass")];
    let (start, end) = locate_value(text, &pass_path).unwrap();
    assert_eq!(&text[start..end], r#""}{not\"a\\\"key}""#);
}

#[test]
fn test_locate_missing_path_is_none() {
    assert_eq!(locate_value(LOCATE_FIXTURE, &[key("nope")]), None);
    assert_eq!(
        locate_value(LOCATE_FIXTURE, &[key("dev_hosts"), PathSeg::Index(3), key("ip")]),
        None
    );
}

#[test]
fn test_locate_container_close() {
    let text = LOCATE_FIXTURE;
    let duts_close =
        locate_container_close(text, &[key("dev_hosts"), PathSeg::Index(0), key("duts")]).unwrap();
    assert_eq!(&text[duts_close..duts_close + 1], "]");
    let root_close = locate_container_close(text, &[]).unwrap();
    assert_eq!(&text[root_close..root_close + 1], "}");
    let dev_hosts_close = locate_container_close(text, &[key("dev_hosts")]).unwrap();
    assert_eq!(&text[dev_hosts_close..dev_hosts_close + 1], "]");
}

#[test]
fn offsets_are_bytes_behind_wide_characters() {
    let text = "{ \"a\": \"— é\", \"b\": 7 }";
    let (start, end) = locate_value(text, &[key("b")]).unwrap();
    assert_eq!(&text[start..end], "7");
}

// ── Edits ────────────────────────────────────────────────────────────

#[test]
fn test_set_scalar_preserves_trailing_comment_and_comma() {
    let text = LOCATE_FIXTURE;
    let op = EditOp::SetScalar {
        path: vec![
            key("dev_hosts"),
            PathSeg::Index(0),
            key("duts"),
            PathSeg::Index(0),
            key("serial"),
            key("port"),
        ],
        literal: "41003".into(),
    };
    let result = apply_edits(text, &[op]).unwrap();
    assert!(result.contains("41003,  // keep this comment"), "{result}");
    assert!(result.contains("\"baudrate\": 1500000"), "{result}");
    let original_prefix = &text[..text.find("41000").unwrap()];
    assert!(result.starts_with(original_prefix), "prefix must be byte-identical");
}

fn bare_host(ip: &str) -> JsoncDevHost {
    JsoncDevHost {
        ip: Some(ip.into()),
        user: Some(String::new()),
        pass: Some(String::new()),
        host_name: None,
        duts: Vec::new(),
    }
}

#[test]
fn test_append_host_into_existing_array() {
    let text = LOCATE_FIXTURE;
    let op = EditOp::AppendBlock {
        path: vec![key("dev_hosts")],
        block: render_host_block(&bare_host("10.0.0.2"), 4),
    };
    let result = apply_edits(text, &[op]).unwrap();
    parse_jsonc_text(&result).unwrap_or_else(|e| panic!("{e}\n{result}"));
    assert!(result.contains("\"ip\": \"10.0.0.2\""), "{result}");
    let old_block = "\"ip\": \"10.0.0.1\",   /* block comment { } */";
    assert!(result.contains(old_block), "{result}");
}

#[test]
fn test_append_dut_into_nested_duts_array() {
    let text = LOCATE_FIXTURE;
    let new_dut = JsoncDut {
        dut_name: "board3".into(),
        serial: Some(JsoncSerial {
            port: Some(NumberOrString::Int(41003)),
            baudrate: None,
            rfc2217: None,
            tx_repeat: None,
            tx_gap_ms: None,
            backspace: None,
            enter: None,
            rx_newline: None,
            highlight: None,
            mouse: None,
        }),
        target: Some(JsoncTarget {
            login_user: Some("root".into()),
            login_pass: Some(String::new()),
            login_prompt: None,
        }),
        relay: Some(JsoncRelay {
            relay_type: Some("ch340".into()),
            port: None,
            ip: None,
            reset_ch: None,
            download_ch: None,
            power_ch: None,
            reset_time_ms: None,
            power_off_time_ms: None,
        }),
        uboot: None,
        monitor: None,
        flash: None,
        download: None,
        control: None,
        loader: None,
        reference_log: None,
        dut_dir: None,
    };
    let op = EditOp::AppendBlock {
        path: vec![key("dev_hosts"), PathSeg::Index(0), key("duts")],
        block: render_dut_block(&new_dut, 8),
    };
    let result = apply_edits(text, &[op]).unwrap();
    parse_jsonc_text(&result).unwrap_or_else(|e| panic!("{e}\n{result}"));
    assert!(result.contains("\"dut_name\": \"board3\""), "{result}");
    assert!(result.contains("\"port\": 41003"), "{result}");
}

#[test]
fn test_append_into_empty_array() {
    let text = "{\n  \"dev_hosts\": [],\n  \"serial\": { \"port\": 41000 }\n}\n";
    let op = EditOp::AppendBlock {
        path: vec![key("dev_hosts")],
        block: render_host_block(&bare_host("10.0.0.1"), 4),
    };
    let result = apply_edits(text, &[op]).unwrap();
    parse_jsonc_text(&result).unwrap_or_else(|e| panic!("{e}\n{result}"));
    assert!(result.contains("\"ip\": \"10.0.0.1\""), "{result}");
}

#[test]
fn test_append_when_last_entry_lacks_trailing_comma() {
    let text = "{\n  \"dev_hosts\": [\n    { \"ip\": \"10.0.0.1\" }\n  ]\n}\n";
    let op = EditOp::AppendBlock {
        path: vec![key("dev_hosts")],
        block: render_host_block(&bare_host("10.0.0.2"), 4),
    };
    let result = apply_edits(text, &[op]).unwrap();
    parse_jsonc_text(&result).unwrap_or_else(|e| panic!("{e}\n{result}"));
    assert!(result.contains("\"ip\": \"10.0.0.2\""), "{result}");
}

#[test]
fn test_apply_edits_reverts_on_parse_failure() {
    let text = LOCATE_FIXTURE;
    let bad = EditOp::SetScalar {
        path: vec![key("dev_hosts"), PathSeg::Index(0), key("ip")],
        literal: "not-json".into(),
    };
    let err = apply_edits(text, &[bad]).unwrap_err();
    assert!(err.contains("invalid JSONC"), "{err}");
    assert_eq!(text, LOCATE_FIXTURE);
}

#[test]
fn test_remove_key_removes_line() {
    let text = "{\n  \"lock_dir\": \"/tmp/x\",  // comment\n  \"dut_dir\": \".dut-serial\"\n}\n";
    let op = EditOp::RemoveKey { path: vec![], key: "lock_dir".into() };
    let result = apply_edits(text, &[op]).unwrap();
    parse_jsonc_text(&result).unwrap_or_else(|e| panic!("{e}\n{result}"));
    assert!(!result.contains("lock_dir"), "{result}");
    assert!(result.contains("dut_dir"), "{result}");
}

#[test]
fn an_edit_of_a_path_that_is_not_there_is_refused() {
    let op = EditOp::SetScalar { path: vec![key("nope")], literal: "1".into() };
    assert!(apply_edits(LOCATE_FIXTURE, &[op]).is_err());
    let no_ops: [EditOp; 0] = [];
    assert_eq!(apply_edits(LOCATE_FIXTURE, &no_ops).unwrap(), LOCATE_FIXTURE);
}

// ── Renderer ─────────────────────────────────────────────────────────

#[test]
fn test_render_roundtrip_with_answers() {
    let answers = answers_of(
        vec![host_answers("10.0.0.1", "linaro", vec![dut_answers("dut1", "41002")])],
        TextMap::new(),
    );
    let config = build_config_from_answers(&answers).unwrap();
    let text = render_jsonc(&config, true);
    let parsed = parse_jsonc_text(&text).unwrap_or_else(|e| panic!("{e}\n{text}"));
    assert_eq!(parsed.dev_hosts.len(), 1);
    assert_eq!(parsed.dev_hosts[0].ip.as_deref(), Some("10.0.0.1"));
    assert_eq!(parsed.dev_hosts[0].duts.len(), 1);
    assert_eq!(port_text(&parsed.dev_hosts[0].duts[0]), "41002");
    assert!(text.contains("REQUIRED — unique across ALL DUTs"), "{text}");
    assert!(text.contains("ser2net port OR device path"), "{text}");
    assert!(text.contains("Global fallbacks (optional)"), "{text}");
    assert!(!render_jsonc(&config, false).contains("Global fallbacks"));
    assert!(text.starts_with("// .target.jsonc"), "{text}");
}

#[test]
fn test_render_global_sections_when_set() {
    let dut = DutAnswers {
        dut_name: "dut1".into(),
        serial_port: "41002".into(),
        login_user: "root".into(),
        relay_gate: true,
        relay_type: "ch340".into(),
        relay_port: String::new(),
        relay_reset_ch: "1".into(),
        relay_download_ch: String::new(),
        relay_power_ch: String::new(),
        relay_reset_time_ms: String::new(),
        relay_power_off_time_ms: "3000".into(),
        advanced: TextMap::from_pairs(&[("serial.baudrate", "921600")]),
    };
    let config = build_config_from_answers(&answers_of(
        vec![host_answers("10.0.0.1", "", vec![dut])],
        TextMap::from_pairs(&[("monitor.hang_timeout", "30")]),
    ))
    .unwrap();
    let text = render_jsonc(&config, true);
    assert!(text.contains("\"baudrate\": 921600"), "{text}");
    assert!(text.contains("\"hang_timeout\": 30"), "{text}");
    assert!(!text.contains("Global fallbacks"), "{text}");
    parse_jsonc_text(&text).unwrap();
}

#[test]
fn test_render_jsonc_emits_crash_keywords() {
    let config = parse_jsonc_text(
        r#"{
  "dev_hosts": [],
  "monitor": { "crash_keywords": ["Kernel panic", "BUG:"] }
}"#,
    )
    .unwrap();
    let text = render_jsonc(&config, false);
    assert!(text.contains("\"crash_keywords\""), "rendered: {text}");
    assert!(!text.contains("crash_patterns"), "old spelling must not be rendered: {text}");
    let reparsed = parse_jsonc_text(&text).unwrap();
    assert_eq!(
        reparsed.monitor.as_ref().and_then(|m| m.crash_keywords.as_ref()).unwrap(),
        &["Kernel panic".to_string(), "BUG:".to_string()]
    );
}

// ── Whole runs ───────────────────────────────────────────────────────

#[test]
fn test_wizard_create_canned_answers() {
    let (pending, created) = run_canned(&quick_with_dut_advanced(), &quick_opts(), None).unwrap();
    assert!(created);
    let text = pending.text.unwrap();
    let parsed = parse_jsonc_text(&text).unwrap();
    assert_eq!(parsed.dev_hosts[0].duts[0].dut_name, "dut1");
    assert!(text.contains("\"dut_name\": \"dut1\""), "{text}");
    assert!(text.contains("\"host_name\""), "{text}");
    assert!(!has_line(&pending.changes, "auto-named"), "{:?}", pending.changes);
    let (root, action) = ensure_mcp_json("/project/.mcp.json", &None, PATH).unwrap();
    assert_eq!(action, McpJsonAction::Created);
    let mcp_text = json_file(&root).unwrap();
    assert!(mcp_text.contains("TARGET_CONF"), "{mcp_text}");
    assert!(mcp_text.contains(".target.jsonc"), "{mcp_text}");
}

#[test]
fn test_wizard_create_required_reasked_until_given() {
    let inputs = with_empties(
        &["1", "", "10.0.0.1", "", "", "", "1", "", "", "41002", "", ""],
        13,
    );
    let (pending, _) = run_canned(&inputs, &quick_opts(), None).unwrap();
    let parsed = parse_jsonc_text(&pending.text.unwrap()).unwrap();
    assert_eq!(parsed.dev_hosts[0].ip.as_deref(), Some("10.0.0.1"));
    assert_eq!(port_text(&parsed.dev_hosts[0].duts[0]), "41002");
}

#[test]
fn test_non_interactive_create_lists_every_missing_required() {
    let err = run_canned(&[], &non_interactive_opts(), None).err().unwrap();
    assert!(err.contains("dev_hosts[0].ip"), "{err}");
    assert!(err.contains("dev_hosts[0].duts[0].serial.port"), "{err}");
}

#[test]
fn test_non_interactive_update_is_noop() {
    let before = "{\n  // untouched\n  \"dev_hosts\": [\n    {\n      \"ip\": \"10.0.0.1\",\n      \"user\": \"u\",\n      \"pass\": \"\",\n      \"duts\": [\n        {\n          \"dut_name\": \"board1\",\n          \"serial\": { \"port\": 41000, \"baudrate\": 460800 },\n          \"target\": { \"login_user\": \"root\" },\n          \"relay\": { \"type\": \"ch340\" }\n        }\n      ]\n    }\n  ]\n}\n";
    let (pending, created) = run_canned(&[], &non_interactive_opts(), Some(before)).unwrap();
    assert!(!created);
    assert!(pending.text.is_none(), "{:?}", pending.text);
    assert!(has_line(&pending.changes, "unchanged"), "{:?}", pending.changes);
}

#[test]
fn test_wizard_update_preserves_comments_golden() {
    let mut inputs = with_empties(
        &[
            "2", "10.0.0.1", "linaro", "", "", "2", "board1", "41003", "ubuntu", "ch340", "", "",
            "", "", "", "",
        ],
        17,
    );
    inputs.extend(with_empties(&["board2", "41001", "root"], 17));
    inputs.extend(with_empties(&["10.0.0.2", "", "", "", "1", "", "41004", ""], 17));
    let (pending, created) = run_canned(&inputs, &quick_opts(), Some(LOCATE_FIXTURE)).unwrap();
    assert!(!created);
    let result = pending.text.unwrap();
    assert!(result.contains("41003,  // keep this comment"), "{result}");
    assert!(result.contains("\"ip\": \"10.0.0.1\",   /* block comment { } */"), "{result}");
    assert!(result.contains("// leading comment with braces {} and brackets []"), "{result}");
    assert!(result.contains("\"login_user\": \"ubuntu\""), "{result}");
    assert!(result.contains("\"ip\": \"10.0.0.2\""), "{result}");
    assert!(result.contains("\"dut_name\": \"dut1\""), "{result}");
    assert!(result.contains("\"host_name\""), "{result}");
    let parsed = parse_jsonc_text(&result).unwrap_or_else(|e| panic!("{e}\n{result}"));
    assert_eq!(parsed.dev_hosts.len(), 2);
    assert_eq!(parsed.dev_hosts[0].duts.len(), 2);
    assert_eq!(port_text(&parsed.dev_hosts[0].duts[0]), "41003");
    assert_eq!(
        parsed.dev_hosts[0].duts[0].target.as_ref().unwrap().login_user.as_deref(),
        Some("ubuntu")
    );
    assert!(has_line(&pending.changes, "serial.port: 41000 -> 41003"), "{:?}", pending.changes);
    assert!(
        has_line(&pending.changes, "added host '10.0.0.2' at dev_hosts[1]"),
        "{:?}",
        pending.changes
    );
}

#[test]
fn test_wizard_update_typed_host_name_inserts_before_duts() {
    let text = "{\n  \"dev_hosts\": [\n    {\n      \"ip\": \"10.0.0.1\",\n      \"user\": \"u\",\n      \"pass\": \"\",\n      \"duts\": [\n        {\n          \"dut_name\": \"b1\",\n          \"serial\": { \"port\": 41000 }\n        }\n      ]\n    }\n  ]\n}\n";
    let inputs = with_empties(
        &["1", "10.0.0.1", "u", "", "lab-pc", "1", "b1", "41000", "root"],
        13,
    );
    let (pending, _) = run_canned(&inputs, &quick_opts(), Some(text)).unwrap();
    let result = pending.text.unwrap();
    let parsed = parse_jsonc_text(&result).unwrap_or_else(|e| panic!("{e}\n{result}"));
    assert_eq!(parsed.dev_hosts[0].host_name.as_deref(), Some("lab-pc"), "{result}");
    let host_name_pos = result.find("\"host_name\"").expect("host_name key");
    let duts_pos = result.find("\"duts\"").expect("duts key");
    assert!(host_name_pos < duts_pos, "{result}");
    assert!(!result.contains("]\n    ,"), "{result}");
    assert!(has_line(&pending.changes, "host_name:  -> lab-pc"), "{:?}", pending.changes);
}

fn host_level(f: &dyn Fn(&str) -> Vec<String>) -> Vec<String> {
    let mut out = Vec::new();
    for spec in advanced_fields().iter().filter(|s| !dut_owned_advanced(s.key)) {
        out.extend(f(spec.key));
    }
    out
}

#[test]
fn test_wizard_update_adds_global_section_from_advanced() {
    let mut inputs = with_empties(
        &["1", "10.0.0.1", "u", "", "", "1", "b1", "41000", "root"],
        13,
    );
    inputs[9] = "921600".into();
    inputs.extend(host_level(&|k| {
        vec![if k == "monitor.hang_timeout" { "60".to_string() } else { String::new() }]
    }));
    let (pending, _) = run_canned(&inputs, &advanced_opts(), Some(SMALL_FIXTURE)).unwrap();
    let result = pending.text.unwrap();
    let parsed = parse_jsonc_text(&result).unwrap_or_else(|e| panic!("{e}\n{result}"));
    assert_eq!(baud_text(&parsed.dev_hosts[0].duts[0]).as_deref(), Some("921600"));
    assert!(parsed.serial.is_none());
    assert_eq!(parsed.monitor.as_ref().unwrap().hang_timeout, Some(60));
    assert!(parsed.relay.is_none());
    assert!(has_line(&pending.changes, "serial.baudrate"), "{:?}", pending.changes);
}

#[test]
fn test_wizard_update_adds_key_in_new_section() {
    let mut inputs = with_empties(
        &["1", "10.0.0.1", "u", "", "", "1", "b1", "41000", "root"],
        13,
    );
    inputs.extend(host_level(&|k| {
        vec![if k == "monitor.hang_timeout" { "60".to_string() } else { String::new() }]
    }));
    let (pending, _) = run_canned(&inputs, &advanced_opts(), Some(SMALL_FIXTURE)).unwrap();
    let result = pending.text.unwrap();
    let parsed = parse_jsonc_text(&result).unwrap_or_else(|e| panic!("{e}\n{result}"));
    assert_eq!(parsed.monitor.as_ref().expect("monitor section").hang_timeout, Some(60));
    assert_eq!(result.matches("\"monitor\"").count(), 1, "{result}");
    assert!(has_line(&pending.changes, "monitor.hang_timeout"), "{:?}", pending.changes);
}

#[test]
fn test_wizard_update_refuses_unparseable_file() {
    let err = run_canned(&[], &quick_opts(), Some("this is not jsonc {{{")).err().unwrap();
    assert!(err.contains("does not parse"), "{err}");
    assert!(err.contains("refusing to edit"), "{err}");
}

#[test]
fn test_wizard_update_no_changes() {
    let mut inputs = with_empties(
        &[
            "1", "10.0.0.1", "linaro", "", "", "2", "board1", "41000", "root", "ch340", "", "", "",
            "", "", "",
        ],
        13,
    );
    inputs.extend(with_empties(&["board2", "41001", "root"], 13));
    let (pending, _) = run_canned(&inputs, &quick_opts(), Some(LOCATE_FIXTURE)).unwrap();
    assert!(has_line(&pending.changes, "unchanged"), "{:?}", pending.changes);
    assert!(pending.text.is_none(), "unchanged file must be byte-identical");
}

#[test]
fn test_wizard_count_enter_accepts_default_proceeds_to_host_fields() {
    let inputs = with_empties(&["", "10.0.0.1", "", "", "", "", "", "41002", "", ""], 13);
    let (pending, created) = run_canned(&inputs, &quick_opts(), None).unwrap();
    assert!(created);
    let parsed = parse_jsonc_text(&pending.text.unwrap()).unwrap();
    assert_eq!(parsed.dev_hosts.len(), 1);
    assert_eq!(parsed.dev_hosts[0].duts.len(), 1);
    assert_eq!(parsed.dev_hosts[0].duts[0].dut_name, "dut1");
    assert_eq!(port_text(&parsed.dev_hosts[0].duts[0]), "41002");
}

#[test]
fn test_wizard_count_explicit_number_proceeds_in_sequence() {
    let mut inputs = with_empties(&["2", "10.0.0.1", "", "", "", "2", "", "41002", ""], 17);
    inputs.extend(with_empties(&["", "41003", ""], 17));
    inputs.extend(with_empties(&["10.0.0.2", "", "", "", "1", "", "41004", ""], 17));
    let (pending, _) = run_canned(&inputs, &quick_opts(), None).unwrap();
    let parsed = parse_jsonc_text(&pending.text.unwrap()).unwrap();
    assert_eq!(parsed.dev_hosts.len(), 2);
    assert_eq!(parsed.dev_hosts[0].ip.as_deref(), Some("10.0.0.1"));
    assert_eq!(parsed.dev_hosts[1].ip.as_deref(), Some("10.0.0.2"));
    assert_eq!(parsed.dev_hosts[0].duts.len(), 2);
    assert_eq!(parsed.dev_hosts[1].duts.len(), 1);
    assert_eq!(parsed.dev_hosts[0].duts[0].dut_name, "dut1");
    assert_eq!(parsed.dev_hosts[0].duts[1].dut_name, "dut2");
    assert_eq!(parsed.dev_hosts[1].duts[0].dut_name, "dut3");
}

#[test]
fn test_wizard_count_invalid_reasks_with_note() {
    let inputs = with_empties(
        &["abc", "1", "10.0.0.1", "", "", "", "1", "", "41002", ""],
        13,
    );
    let mut io = RecordingIO::new(&refs(&inputs));
    let (pending, _) = run(&mut io, &quick_opts(), None).unwrap();
    let parsed = parse_jsonc_text(&pending.text.unwrap()).unwrap();
    assert_eq!(parsed.dev_hosts.len(), 1);
    let errors: Vec<&(NoteKind, String)> =
        io.notes.iter().filter(|(k, _)| *k == NoteKind::Error).collect();
    assert_eq!(errors.len(), 1, "{:?}", io.notes);
    assert!(errors[0].1.contains("not a non-negative integer"), "{:?}", errors);
}

#[test]
fn test_wizard_required_notes_before_reask() {
    let inputs = with_empties(
        &["1", "", "10.0.0.1", "", "", "", "1", "", "0", "41002", ""],
        17,
    );
    let mut io = RecordingIO::new(&refs(&inputs));
    let (pending, _) = run(&mut io, &quick_opts(), None).unwrap();
    let parsed = parse_jsonc_text(&pending.text.unwrap()).unwrap();
    assert_eq!(parsed.dev_hosts[0].ip.as_deref(), Some("10.0.0.1"));
    let errors: Vec<&String> = io
        .notes
        .iter()
        .filter(|(k, _)| *k == NoteKind::Error)
        .map(|(_, m)| m)
        .collect();
    assert!(errors.iter().any(|m| m.contains("value is required")), "{errors:?}");
    assert!(errors.iter().any(|m| m.contains("serial.port cannot be 0")), "{errors:?}");
}

#[test]
fn test_ask_required_empty_enter_accepts_shown_default_silently() {
    let mut io = RecordingIO::new(&[""]);
    let answer = ask_required(
        &mut io,
        "Dev host ip (ssh / ser2net host)",
        &Some("10.0.0.1".into()),
    )
    .unwrap();
    assert_eq!(answer, "10.0.0.1");
    assert!(io.notes.iter().all(|(k, _)| *k != NoteKind::Error), "{:?}", io.notes);
}

#[test]
fn test_ask_required_empty_default_still_notes_and_reasks() {
    let mut io = RecordingIO::new(&["", "10.0.0.1"]);
    let answer = ask_required(&mut io, "Dev host ip (ssh / ser2net host)", &None).unwrap();
    assert_eq!(answer, "10.0.0.1");
    assert!(
        io.notes
            .iter()
            .any(|(k, m)| *k == NoteKind::Error && m.contains("value is required")),
        "{:?}",
        io.notes
    );
}

#[test]
fn test_wizard_update_enter_accepts_required_defaults_silently() {
    let mut inputs = with_empties(
        &[
            "1", "", "linaro", "", "", "2", "", "", "root", "ch340", "", "", "", "", "", "",
        ],
        13,
    );
    inputs.extend(with_empties(&["", "", "root"], 13));
    let mut io = RecordingIO::new(&refs(&inputs));
    let (pending, created) = run(&mut io, &quick_opts(), Some(LOCATE_FIXTURE)).unwrap();
    assert!(!created);
    assert!(pending.text.is_none(), "Enter must keep the file as it is");
    assert!(io.notes.iter().all(|(k, _)| *k != NoteKind::Error), "{:?}", io.notes);
}

#[test]
fn test_wizard_name_announcements_are_noted() {
    let mut inputs = with_empties(&["1", "10.0.0.1", "", "", "", "2", "dutX", "41002", ""], 13);
    inputs.extend(with_empties(&["dutX", "41003", ""], 13));
    let mut io = RecordingIO::new(&refs(&inputs));
    let (pending, _) = run(&mut io, &quick_opts(), None).unwrap();
    let parsed = parse_jsonc_text(&pending.text.unwrap()).unwrap();
    assert_eq!(parsed.dev_hosts[0].duts[0].dut_name, "dutX");
    assert_eq!(parsed.dev_hosts[0].duts[1].dut_name, "dut1");
    assert!(has_line(&pending.changes, "already taken — using"), "{:?}", pending.changes);
    assert!(
        io.notes
            .iter()
            .any(|(k, m)| *k == NoteKind::Info && m.contains("already taken — using")),
        "{:?}",
        io.notes
    );
}

#[test]
fn test_wizard_advanced_enter_accepts_natural_defaults() {
    let mut inputs = quick_with_dut_advanced();
    inputs.extend(host_level(&|_| vec![String::new()]));
    let (pending, created) = run_canned(&inputs, &advanced_opts(), None).unwrap();
    assert!(created);
    let parsed = parse_jsonc_text(&pending.text.unwrap()).unwrap();
    let monitor = parsed.monitor.as_ref().unwrap();
    assert_eq!(monitor.hang_timeout, Some(60));
    assert_eq!(monitor.max_log_file_size, Some(100));
    assert_eq!(float_of(&monitor.learner_stage_threshold), Some(0.45));
    assert_eq!(float_of(&monitor.learner_crash_threshold), Some(0.50));
    assert!(monitor.crash_keywords.is_none());
    let dut = &parsed.dev_hosts[0].duts[0];
    assert_eq!(baud_text(dut).as_deref(), Some("460800"));
    assert!(dut.monitor.is_none());
    assert!(dut.flash.is_none());
    assert!(dut.uboot.is_none());
    assert!(dut.control.is_none());
    assert!(parsed.target.is_none());
    assert!(parsed.serial.is_none());
    assert!(parsed.relay.is_none(), "gate off -> relay omitted");
    assert!(parsed.dev_hosts[0].duts[0].relay.is_none());
}

#[test]
fn test_wizard_reference_log_default_composed_from_dut_name() {
    let mut inputs = with_empties(
        &["1", "10.0.0.1", "", "", "", "1", "boardX", "41002", ""],
        13,
    );
    inputs[9 + 6] = "/tmp/ref.log".into();
    inputs.extend(host_level(&|_| vec![String::new()]));
    let (pending, created) = run_canned(&inputs, &advanced_opts(), None).unwrap();
    let parsed = parse_jsonc_text(&pending.text.unwrap()).unwrap();
    assert_eq!(
        parsed.dev_hosts[0].duts[0].monitor.as_ref().unwrap().reference_log.as_deref(),
        Some("/tmp/ref.log")
    );
    assert!(parsed.monitor.as_ref().and_then(|m| m.reference_log.clone()).is_none());
    assert!(created);
}

#[test]
fn test_wizard_advanced_enter_on_update_keeps_existing_values() {
    let mut create: Vec<String> =
        ["1", "10.0.0.1", "linaro", "", "", "1", "", "41002", ""].iter().map(|s| s.to_string()).collect();
    for k in dut_advanced_keys().iter().filter(|k| **k != "uboot.pattern") {
        create.push(
            match *k {
                "serial.baudrate" => "460800",
                "target.login_pass" => "pw",
                "target.login_prompt" => "login:",
                "uboot.interrupt_char" => "0x03",
                "uboot.interrupt_strategy" => "flood",
                "monitor.max_archived_logs" => "20",
                "monitor.reference_log" => "/tmp/ref.log",
                "monitor.crash_keywords" => "Oops:",
                "flash.full_image_cmd" => "cmd1",
                "flash.kernel_image_cmd" => "cmd2",
                "flash.loader_bin" => "x.bin",
                "control.dev_ctrl" => "ch340-relay",
                "loader" => "uboot",
                _ => "",
            }
            .into(),
        );
    }
    create.extend(host_level(&|k| {
        vec![match k {
            "monitor.hang_timeout" => "30",
            "monitor.max_log_file_size" => "50",
            "monitor.learner_stage_threshold" => "0.60",
            "monitor.learner_crash_threshold" => "0.70",
            _ => "",
        }
        .to_string()]
    }));
    let (pending, _) = run_canned(&create, &advanced_opts(), None).unwrap();
    let before = pending.text.unwrap();
    let mut update = with_empties(&["1", "10.0.0.1", "linaro", "", "", "1", "", "41002", ""], 13);
    update.extend(host_level(&|_| vec![String::new()]));
    let (pending, created) = run_canned(&update, &advanced_opts(), Some(&before)).unwrap();
    assert!(!created);
    assert!(pending.text.is_none(), "Enter must keep the file as it is: {:?}", pending.changes);
    assert!(has_line(&pending.changes, "unchanged"), "{:?}", pending.changes);
}

#[test]
fn test_wizard_advanced_invalid_typed_value_reasked_with_note() {
    let mut inputs = quick_with_dut_advanced();
    inputs.extend(host_level(&|k| {
        if k == "monitor.max_log_file_size" {
            vec!["abc".to_string(), "41000".to_string()]
        } else {
            vec![String::new()]
        }
    }));
    let mut io = RecordingIO::new(&refs(&inputs));
    let (pending, _) = run(&mut io, &advanced_opts(), None).unwrap();
    let parsed = parse_jsonc_text(&pending.text.unwrap()).unwrap();
    assert_eq!(parsed.monitor.as_ref().unwrap().max_log_file_size, Some(41000));
    assert!(
        io.notes.iter().any(|(k, m)| {
            *k == NoteKind::Error && m.contains("monitor.max_log_file_size: invalid count: abc")
        }),
        "{:?}",
        io.notes
    );
}

#[test]
fn test_wizard_finish_abort_writes_nothing() {
    let mut io = RecordingIO::new(&refs(&quick_with_dut_advanced()));
    io.refusal = Some("aborted by user".into());
    let err = run(&mut io, &quick_opts(), None).err().unwrap();
    assert!(err.contains("aborted by user"), "{err}");
    assert!(has_line(&io.seen, &format!("created {PATH}")), "{:?}", io.seen);
}

#[test]
fn test_wizard_finish_ok_writes() {
    let mut io = RecordingIO::new(&refs(&quick_with_dut_advanced()));
    let (pending, created) = run(&mut io, &quick_opts(), None).unwrap();
    assert!(created);
    let created_line = format!("created {PATH}");
    assert!(io.seen.contains(&created_line), "{:?}", io.seen);
    assert_eq!(pending.changes.first().map(String::as_str), Some(created_line.as_str()));
}

// ── Options ──────────────────────────────────────────────────────────

#[test]
fn test_init_options_from_args() {
    let s = |v: &str| v.to_string();
    let opts =
        InitOptions::from_args(&[s("--non-interactive"), s("--quick"), s("--force")], false).unwrap();
    assert!(opts.non_interactive && opts.quick && opts.force);
    assert!(!opts.advanced);

    let opts = InitOptions::from_args(&[], true).unwrap();
    assert!(opts.non_interactive);

    let err = InitOptions::from_args(&[s("--bogus")], false).unwrap_err();
    assert!(err.contains("--bogus"), "{err}");

    let err = InitOptions::from_args(&[s("--quick"), s("--advanced")], false).unwrap_err();
    assert!(err.contains("mutually exclusive"), "{err}");
}

#[test]
fn test_init_options_tui_plain_flags() {
    let s = |v: &str| v.to_string();
    let opts = InitOptions::from_args(&[s("--tui")], false).unwrap();
    assert!(opts.tui && !opts.plain);
    let opts = InitOptions::from_args(&[s("--plain")], false).unwrap();
    assert!(!opts.tui && opts.plain);
    let opts = InitOptions::from_args(&[s("--tui"), s("--quick")], false).unwrap();
    assert!(opts.tui && opts.quick);
    assert!(!InitOptions::default().tui && !InitOptions::default().plain);
    let err = InitOptions::from_args(&[s("--tui"), s("--plain")], false).unwrap_err();
    assert!(err.contains("mutually exclusive"), "{err}");
}

// ── The form ─────────────────────────────────────────────────────────

#[test]
fn test_schema_fields_order_matches_legacy_sequence() {
    let schema = build_form_schema(None, &quick_opts());
    let keys: Vec<FieldKey> = schema_fields(&schema).into_iter().map(|f| f.key).collect();
    let mut expected: Vec<FieldKey> = vec![
        FieldKey::HostCount,
        FieldKey::HostIp(0),
        FieldKey::HostUser(0),
        FieldKey::HostPass(0),
        FieldKey::HostName(0),
        FieldKey::DutCount(0),
        FieldKey::DutName(0, 0),
        FieldKey::DutPort(0, 0),
        FieldKey::DutLoginUser(0, 0),
        FieldKey::DutRelayGate(0, 0),
        FieldKey::DutRelayType(0, 0),
        FieldKey::DutRelayPort(0, 0),
        FieldKey::DutRelayReset(0, 0),
        FieldKey::DutRelayDownload(0, 0),
        FieldKey::DutRelayPower(0, 0),
        FieldKey::DutRelayResetTimeMs(0, 0),
        FieldKey::DutRelayPowerOffTimeMs(0, 0),
    ];
    for k in dut_advanced_keys() {
        expected.push(FieldKey::DutAdvanced(0, 0, k));
    }
    for spec in advanced_fields().iter().filter(|s| !dut_owned_advanced(s.key)) {
        expected.push(FieldKey::Advanced(spec.key));
    }
    assert_eq!(keys, expected);
    assert_eq!(&keys[..9], &expected[..9]);
}

fn label_of(group: &FormGroup, frag: FieldKeyFrag) -> &'static str {
    group.fields.iter().find(|d| d.key == frag).map(|d| d.label).unwrap()
}

#[test]
fn test_walk_prompts_are_form_group_labels() {
    let mut schema = build_form_schema(None, &InitOptions::default());
    let mut inputs = with_empties(&["1", "10.0.0.1", "", "", "", "1", "", "41002", ""], 13);
    inputs.extend(host_level(&|_| vec![String::new()]));
    let mut io = RecordingIO::new(&refs(&inputs));
    io.confirms.push(false);
    io.confirms.push(true);
    walk_schema(&mut schema, &mut io).unwrap();
    let groups = form_groups();
    let mut expected: Vec<String> = vec![
        groups[0].fields[0].label.to_string(),
        format!("{} (required)", label_of(&groups[1], FieldKeyFrag::HostIp)),
        label_of(&groups[1], FieldKeyFrag::HostUser).to_string(),
        label_of(&groups[1], FieldKeyFrag::HostPass).to_string(),
        label_of(&groups[1], FieldKeyFrag::HostName).to_string(),
        label_of(&groups[1], FieldKeyFrag::DutCount).to_string(),
        label_of(&groups[2], FieldKeyFrag::DutName).to_string(),
        format!("{} (required)", label_of(&groups[2], FieldKeyFrag::DutPort)),
        label_of(&groups[2], FieldKeyFrag::DutLoginUser).to_string(),
    ];
    for k in dut_advanced_keys() {
        if k == "uboot.pattern" {
            continue;
        }
        expected.push(label_of(&groups[3], FieldKeyFrag::DutAdvanced(k)).to_string());
    }
    for spec in advanced_fields().iter().filter(|s| !dut_owned_advanced(s.key)) {
        expected.push(spec.label.to_string());
    }
    let asked: Vec<String> = io.calls.iter().map(|(p, _)| p.clone()).collect();
    assert_eq!(asked, expected);
}

type Pinned = (FieldKeyFrag, FieldKind, &'static str, bool, EmptyMeans, DefaultSrc);

fn pin(
    key: FieldKeyFrag,
    kind: FieldKind,
    label: &'static str,
    required: bool,
    empty: EmptyMeans,
    default: DefaultSrc,
) -> Pinned {
    (key, kind, label, required, empty, default)
}

#[test]
fn test_form_groups_quick_part_pinned() {
    let groups = form_groups();
    assert_eq!(groups.len(), 5);
    let accept = EmptyMeans::AcceptDefault;
    let skip = EmptyMeans::SkipInherit;
    let none = DefaultSrc::Static("");
    let zero = DefaultSrc::Static("0");
    let text = FieldKind::Text;
    let pinned: Vec<(Repeat, &str, Vec<Pinned>)> = vec![
        (
            Repeat::Once,
            "host-count",
            vec![pin(
                FieldKeyFrag::HostCount,
                FieldKind::Count,
                "Number of dev hosts",
                false,
                accept,
                DefaultSrc::RuntimeCount,
            )],
        ),
        (
            Repeat::PerHost,
            "dev-host",
            vec![
                pin(FieldKeyFrag::HostIp, text, "Dev host ip (ssh / ser2net host)", true, accept, none),
                pin(FieldKeyFrag::HostUser, text, "Dev host ssh user", false, accept, none),
                pin(
                    FieldKeyFrag::HostPass,
                    text,
                    "Dev host ssh password (plaintext)",
                    false,
                    accept,
                    none,
                ),
                pin(
                    FieldKeyFrag::HostName,
                    text,
                    "Dev host display name (optional — falls back to ip)",
                    false,
                    accept,
                    none,
                ),
                pin(
                    FieldKeyFrag::DutCount,
                    FieldKind::Count,
                    "Number of DUTs on this host",
                    false,
                    accept,
                    DefaultSrc::RuntimeCount,
                ),
            ],
        ),
        (
            Repeat::PerHostDut,
            "dut",
            vec![
                pin(FieldKeyFrag::DutName, text, "DUT name", false, accept, DefaultSrc::AutoDutName),
                pin(
                    FieldKeyFrag::DutPort,
                    text,
                    "Serial port (ser2net port or /dev/ttyUSB0)",
                    true,
                    accept,
                    none,
                ),
                pin(
                    FieldKeyFrag::DutLoginUser,
                    text,
                    "Target login user",
                    false,
                    accept,
                    DefaultSrc::Static("root"),
                ),
                pin(
                    FieldKeyFrag::DutRelayGate,
                    FieldKind::Toggle,
                    "Use relay? (reset/download/power control)",
                    false,
                    accept,
                    DefaultSrc::RuntimeRelayGate,
                ),
                pin(
                    FieldKeyFrag::DutRelayType,
                    FieldKind::Select,
                    "Relay type",
                    false,
                    accept,
                    DefaultSrc::Static("ch340"),
                ),
                pin(FieldKeyFrag::DutRelayPort, text, "Relay port (0 = inherit)", false, skip, zero),
                pin(FieldKeyFrag::DutRelayReset, text, "Relay reset (0 = inherit)", false, skip, zero),
                pin(
                    FieldKeyFrag::DutRelayDownload,
                    text,
                    "Relay download (0 = inherit)",
                    false,
                    skip,
                    zero,
                ),
                pin(FieldKeyFrag::DutRelayPower, text, "Relay power (0 = inherit)", false, skip, zero),
                pin(
                    FieldKeyFrag::DutRelayResetTimeMs,
                    text,
                    "Reset hold ms — how long the reset key stays pressed (0 = inherit)",
                    false,
                    skip,
                    zero,
                ),
                pin(
                    FieldKeyFrag::DutRelayPowerOffTimeMs,
                    text,
                    "Power hold ms — how long the power key stays pressed (0 = inherit global)",
                    false,
                    accept,
                    DefaultSrc::Static("3000"),
                ),
            ],
        ),
    ];
    for (g, (repeat, title, fields)) in groups.iter().zip(pinned.iter()) {
        assert_eq!(g.repeat, *repeat);
        assert_eq!(g.title, *title);
        let shown: Vec<Pinned> = g
            .fields
            .iter()
            .map(|d| pin(d.key, d.kind, d.label, d.required, d.empty, d.default))
            .collect();
        assert_eq!(&shown, fields);
    }
    assert_eq!(groups[3].repeat, Repeat::PerHostDut);
    assert_eq!(groups[3].title, "dut-advanced");
    assert_eq!(groups[4].repeat, Repeat::Once);
    assert_eq!(groups[4].title, "advanced");
}

#[test]
fn test_advanced_fields_migration_pinned() {
    let old_keys: [(&str, &str); 18] = [
        ("serial.baudrate", "Serial baudrate (number)"),
        ("target.login_pass", "Target login password"),
        ("target.login_prompt", "Target login prompt regex"),
        ("uboot.interrupt_char", "U-Boot interrupt char"),
        ("uboot.interrupt_strategy", "U-Boot interrupt strategy"),
        ("uboot.pattern", "U-Boot interrupt pattern regex"),
        ("monitor.hang_timeout", "Hang timeout seconds"),
        ("monitor.max_archived_logs", "Max archived boot logs"),
        ("monitor.max_log_file_size", "Max log file size MB"),
        ("monitor.reference_log", "Reference boot log path"),
        ("monitor.learner_stage_threshold", "Learner stage threshold (0.0-1.0)"),
        ("monitor.learner_crash_threshold", "Learner crash threshold (0.0-1.0)"),
        ("monitor.crash_keywords", "Crash keywords (comma/newline separated)"),
        ("flash.full_image_cmd", "Flash full-image command"),
        ("flash.kernel_image_cmd", "Flash kernel-image command"),
        ("flash.loader_bin", "Flash loader binary path"),
        ("control.dev_ctrl", "Device control backend"),
        ("loader", "Boot loader"),
    ];
    let enter_accepts: [&str; 14] = [
        "serial.baudrate",
        "uboot.interrupt_char",
        "uboot.interrupt_strategy",
        "monitor.hang_timeout",
        "monitor.max_archived_logs",
        "monitor.max_log_file_size",
        "monitor.reference_log",
        "monitor.learner_stage_threshold",
        "monitor.learner_crash_threshold",
        "monitor.crash_keywords",
        "flash.full_image_cmd",
        "flash.kernel_image_cmd",
        "flash.loader_bin",
        "loader",
    ];
    let fields = advanced_fields();
    assert_eq!(fields.len(), old_keys.len());
    for (i, spec) in fields.iter().enumerate() {
        assert_eq!((spec.key, spec.label), old_keys[i], "index {i}");
        let accepts = spec.empty == EmptyMeans::AcceptDefault;
        assert_eq!(accepts, enter_accepts.contains(&spec.key), "{}", spec.key);
    }
    let groups = form_groups();
    let dut_group = &groups[3];
    assert_eq!(dut_group.repeat, Repeat::PerHostDut);
    assert_eq!(dut_group.title, "dut-advanced");
    let host_group = &groups[4];
    assert_eq!(host_group.repeat, Repeat::Once);
    assert_eq!(host_group.title, "advanced");
    assert_eq!(dut_group.fields.len() + host_group.fields.len(), fields.len());
    for (def, key) in dut_group.fields.iter().zip(dut_advanced_keys().iter()) {
        assert_eq!(def.key, FieldKeyFrag::DutAdvanced(key));
        let spec = fields.iter().find(|s| s.key == *key).unwrap();
        assert_eq!(def.label, spec.label);
        assert_eq!(def.empty, spec.empty);
        let select = matches!(*key, "control.dev_ctrl" | "loader" | "uboot.interrupt_strategy");
        assert_eq!(def.kind, if select { FieldKind::Select } else { FieldKind::Text }, "{key}");
        if *key == "control.dev_ctrl" {
            assert_eq!(def.options, ["ch340-relay", "none"]);
        } else if *key == "loader" {
            assert_eq!(def.options, sermcp::loader::OPTIONS);
        } else if *key == "uboot.interrupt_strategy" {
            assert_eq!(def.options, ["flood", "pattern"]);
        }
        let expected_default = if *key == "monitor.reference_log" {
            DefaultSrc::ReferenceLogComposed
        } else {
            DefaultSrc::AdvancedNatural
        };
        assert_eq!(def.default, expected_default, "{key}");
    }
    let host_keys: Vec<&str> =
        fields.iter().map(|s| s.key).filter(|k| !dut_owned_advanced(k)).collect();
    assert_eq!(host_keys.len(), host_group.fields.len());
    for (def, key) in host_group.fields.iter().zip(host_keys.iter()) {
        assert!(matches!(def.key, FieldKeyFrag::Advanced(k) if k == *key));
        let spec = fields.iter().find(|s| s.key == *key).unwrap();
        assert_eq!(def.label, spec.label);
        assert_eq!(def.empty, spec.empty);
        assert_eq!(def.kind, FieldKind::Text, "kind for {key}");
        assert_eq!(def.default, DefaultSrc::AdvancedNatural, "{key}");
    }
}

#[test]
fn test_build_form_schema_create_defaults() {
    let schema = build_form_schema(None, &InitOptions::default());
    assert!(matches!(schema.target, SchemaTarget::Create));
    assert_eq!(schema.host_count_default, 1);
    assert_eq!(schema.host_count_max, 99);
    assert!(schema.taken_duts.is_empty());
    assert!(schema.host_defaults.is_empty());
    assert_eq!(schema.advanced_gate, AdvancedGate::Confirm { default: false });
    assert!(schema.advanced_current.is_empty());
    let fields = schema_fields(&schema);
    let host_name = fields
        .iter()
        .find(|f| f.key == FieldKey::HostName(0))
        .expect("host_name field exists on create");
    assert_eq!(host_name.default.as_deref(), Some(""));
    assert!(!host_name.required, "host_name is optional");
}

#[test]
fn test_build_form_schema_update_prefills_and_gates() {
    let existing = parse_jsonc_text(LOCATE_FIXTURE).unwrap();
    let schema = build_form_schema(Some(&existing), &quick_opts());
    assert!(matches!(schema.target, SchemaTarget::Update(_)));
    assert_eq!(schema.host_count_default, 1);
    assert_eq!(schema.taken_duts, ["board1", "board2"]);
    let h0 = &schema.host_defaults[0];
    assert_eq!(h0.ip.as_deref(), Some("10.0.0.1"));
    assert_eq!(h0.user.as_deref(), Some("linaro"));
    assert_eq!(h0.pass.as_deref(), Some(""));
    assert!(h0.host_name.is_none());
    assert_eq!(h0.dut_count, 2);
    assert_eq!(h0.duts[0].serial_port.as_deref(), Some("41000"));
    assert_eq!(h0.duts[1].serial_port.as_deref(), Some("41001"));
    assert_eq!(h0.duts[0].login_user.as_deref(), Some("root"));
    assert_eq!(h0.duts[0].relay_type.as_deref(), Some("ch340"));
    assert!(h0.duts[0].relay_gate, "board1 has a relay section");
    assert!(!h0.duts[1].relay_gate, "board2 has no relay section");
    assert_eq!(schema.advanced_gate, AdvancedGate::Skip);
    let with_globals = parse_jsonc_text(UPDATE_GLOBAL_FIXTURE).unwrap();
    let gschema = build_form_schema(Some(&with_globals), &InitOptions::default());
    assert_eq!(got(&gschema.advanced_current, "serial.baudrate"), Some("1500000"));
    assert_eq!(got(&gschema.advanced_current, "serial.rfc2217"), None);
    assert!(!gschema.advanced_current.contains_key("relay.reset_ch"));
    assert_eq!(got(&gschema.advanced_current, "flash.loader_bin"), Some("rockdev/loader.bin"));
}

// ── The relay ────────────────────────────────────────────────────────

#[test]
fn test_plain_walk_relay_gate_no_skips_relay_questions() {
    let mut schema = build_form_schema(None, &quick_opts());
    let mut io = RecordingIO::new(&refs(&quick_with_dut_advanced()));
    io.confirms.push(false);
    let answers = walk_schema(&mut schema, &mut io).unwrap();
    assert!(!answers.hosts[0].duts[0].relay_gate);
    assert_eq!(answers.hosts[0].duts[0].relay_type, "");
    assert_eq!(got(&answers.hosts[0].duts[0].advanced, "serial.baudrate"), Some("460800"));
    let prompts: Vec<String> = io.calls.iter().map(|(p, _)| p.clone()).collect();
    assert!(
        !prompts.iter().any(|p| p.contains("Relay")),
        "gate NO must skip every relay question: {prompts:?}"
    );
}

#[test]
fn test_plain_walk_relay_gate_yes_asks_relay_fields() {
    let mut schema = build_form_schema(None, &quick_opts());
    let mut front: Vec<&str> = QUICK_ANSWERS.to_vec();
    front.extend(["ch340-relay", "41000", "1", "", "", "", "5000"]);
    let inputs = with_empties(&front, 13);
    let mut io = RecordingIO::new(&refs(&inputs));
    io.confirms.push(true);
    let answers = walk_schema(&mut schema, &mut io).unwrap();
    let dut = &answers.hosts[0].duts[0];
    assert!(dut.relay_gate);
    assert_eq!(dut.relay_type, "ch340-relay");
    assert_eq!(dut.relay_port, "41000");
    assert_eq!(dut.relay_reset_ch, "1");
    assert_eq!(dut.relay_power_off_time_ms, "5000");
    let config = build_config_from_answers(&answers).unwrap();
    let relay = config.dev_hosts[0].duts[0].relay.as_ref().unwrap();
    assert_eq!(relay.relay_type.as_deref(), Some("ch340-relay"));
    assert_eq!(relay.port, Some(41000));
    assert_eq!(relay.reset_ch, Some(1));
    assert_eq!(relay.download_ch, None, "empty = inherit");
    assert_eq!(relay.power_off_time_ms, Some(5000));
}

#[test]
fn test_wizard_create_relay_gate_end_state() {
    let mut io = RecordingIO::new(&refs(&quick_with_dut_advanced()));
    io.confirms.push(false);
    let (pending, _) = run(&mut io, &quick_opts(), None).unwrap();
    let first = pending.text.unwrap();
    let parsed = parse_jsonc_text(&first).unwrap();
    assert!(parsed.dev_hosts[0].duts[0].relay.is_none(), "gate NO must omit the relay section");

    let mut front: Vec<&str> = QUICK_ANSWERS.to_vec();
    front.extend(["ch340", "", "2", "", "", "100", "1000"]);
    let inputs = with_empties(&front, 13);
    let mut io = RecordingIO::new(&refs(&inputs));
    io.confirms.push(true);
    let (pending, _) = run(&mut io, &quick_opts(), Some(&first)).unwrap();
    let parsed = parse_jsonc_text(&pending.text.unwrap()).unwrap();
    let relay = parsed.dev_hosts[0].duts[0].relay.as_ref().unwrap();
    assert_eq!(relay.reset_ch, Some(2));
    assert_eq!(relay.port, None);
    assert_eq!(relay.reset_time_ms, Some(100));
    assert_eq!(relay.power_off_time_ms, Some(3000), "clamped to >= 3000");
}

#[test]
fn test_resolve_relay_gate_tri_state() {
    let schema = build_form_schema(None, &quick_opts());
    let mut values = values_of(&[
        (FieldKey::HostIp(0), "10.0.0.1"),
        (FieldKey::DutPort(0, 0), "41002"),
        (FieldKey::DutRelayGate(0, 0), "no"),
        (FieldKey::DutRelayType(0, 0), "ch340-relay"),
    ]);
    let answers = resolve_answers(&schema, &values, false, NamePolicy::ErrorOnCollision).unwrap();
    let dut = &answers.hosts[0].duts[0];
    assert!(!dut.relay_gate);
    assert_eq!(dut.relay_type, "", "gate off drops relay buffers");
    values.insert(FieldKey::DutRelayGate(0, 0), "yes".into());
    values.insert(FieldKey::DutRelayReset(0, 0), "2".into());
    let answers = resolve_answers(&schema, &values, false, NamePolicy::ErrorOnCollision).unwrap();
    let dut = &answers.hosts[0].duts[0];
    assert!(dut.relay_gate);
    assert_eq!(dut.relay_type, "ch340-relay");
    assert_eq!(dut.relay_reset_ch, "2");
    values.insert(FieldKey::DutRelayReset(0, 0), "abc".into());
    let errs = resolve_answers(&schema, &values, false, NamePolicy::ErrorOnCollision).unwrap_err();
    assert!(
        errs.iter().any(|(k, m)| {
            k == &FieldKey::DutRelayReset(0, 0) && m.contains("relay.reset_ch: invalid channel: abc")
        }),
        "{errs:?}"
    );
}

// ── No hosts ─────────────────────────────────────────────────────────

#[test]
fn test_wizard_create_zero_hosts_writes_empty_dev_hosts() {
    let (pending, created) = run_canned(&["0".to_string()], &quick_opts(), None).unwrap();
    assert!(created);
    let text = pending.text.unwrap();
    let parsed = parse_jsonc_text(&text).unwrap();
    assert!(parsed.dev_hosts.is_empty(), "zero hosts => zero DUTs");
    assert!(text.contains("\"dev_hosts\""), "{text}");
}

#[test]
fn test_wizard_update_zero_hosts_clears_dev_hosts() {
    let (pending, created) =
        run_canned(&["0".to_string()], &quick_opts(), Some(LOCATE_FIXTURE)).unwrap();
    assert!(!created);
    let text = pending.text.unwrap();
    let parsed = parse_jsonc_text(&text).unwrap_or_else(|e| panic!("{e}\n{text}"));
    assert!(parsed.dev_hosts.is_empty(), "{text}");
    assert!(has_line(&pending.changes, "zero dev hosts"), "{:?}", pending.changes);
    assert!(has_line(&pending.changes, "dev_hosts cleared"), "{:?}", pending.changes);
}

#[test]
fn test_build_form_schema_gate_matrix() {
    let existing = parse_jsonc_text(LOCATE_FIXTURE).unwrap();
    let advanced = build_form_schema(Some(&existing), &advanced_opts());
    assert_eq!(advanced.advanced_gate, AdvancedGate::Forced);
    let quick = build_form_schema(Some(&existing), &quick_opts());
    assert_eq!(quick.advanced_gate, AdvancedGate::Skip);
    let normal = build_form_schema(Some(&existing), &InitOptions::default());
    assert_eq!(normal.advanced_gate, AdvancedGate::Confirm { default: false });
}

fn default_of<'a>(fields: &'a [FieldInstance], k: FieldKey) -> Option<&'a str> {
    fields.iter().find(|f| f.key == k).unwrap().default.as_deref()
}

#[test]
fn test_materialize_defaults_runtime_values_win() {
    let existing = parse_jsonc_text(LOCATE_FIXTURE).unwrap();
    let schema = build_form_schema(Some(&existing), &InitOptions::default());
    let fields = schema_fields(&schema);
    assert_eq!(default_of(&fields, FieldKey::HostCount), Some("1"));
    assert_eq!(default_of(&fields, FieldKey::HostIp(0)), Some("10.0.0.1"));
    assert_eq!(default_of(&fields, FieldKey::DutCount(0)), Some("2"));
    assert_eq!(default_of(&fields, FieldKey::DutPort(0, 0)), Some("41000"));
    assert_eq!(default_of(&fields, FieldKey::DutPort(0, 1)), Some("41001"));
    assert_eq!(default_of(&fields, FieldKey::DutLoginUser(0, 0)), Some("root"));
    assert_eq!(default_of(&fields, FieldKey::DutRelayType(0, 0)), Some("ch340"));
    let relay = fields.iter().find(|f| f.key == FieldKey::DutRelayType(0, 0)).unwrap();
    assert_eq!(relay.kind, FieldKind::Select);
    assert_eq!(
        relay.options,
        supported_relay_types().into_iter().map(|s| s.to_string()).collect::<Vec<_>>()
    );
    assert_eq!(
        default_of(&fields, FieldKey::DutAdvanced(0, 0, "serial.baudrate")),
        Some("1500000"),
        "board1's own override"
    );
    assert_eq!(
        default_of(&fields, FieldKey::DutAdvanced(0, 1, "serial.baudrate")),
        Some("460800"),
        "board2"
    );
    assert_eq!(
        default_of(&fields, FieldKey::DutAdvanced(0, 0, "monitor.reference_log")),
        Some(".dut-serial/board1/reference-boot.log")
    );
    assert_eq!(
        default_of(&fields, FieldKey::DutAdvanced(0, 1, "monitor.reference_log")),
        Some(".dut-serial/board2/reference-boot.log")
    );
    assert_eq!(default_of(&fields, FieldKey::Advanced("monitor.hang_timeout")), Some("60"));
    let named = parse_jsonc_text(
        r#"{ "dev_hosts": [ { "ip": "10.0.0.1", "host_name": "lab-pc", "user": "u", "pass": "", "duts": [ { "dut_name": "board1", "serial": { "port": 41000 } } ] } ] }"#,
    )
    .unwrap();
    let nfields = schema_fields(&build_form_schema(Some(&named), &InitOptions::default()));
    assert_eq!(default_of(&nfields, FieldKey::HostName(0)), Some("lab-pc"));
    let create_fields = schema_fields(&build_form_schema(None, &InitOptions::default()));
    assert_eq!(
        default_of(&create_fields, FieldKey::DutAdvanced(0, 0, "monitor.reference_log")),
        Some(".dut-serial/dut1/reference-boot.log")
    );
}

// ── Typed answers ────────────────────────────────────────────────────

#[test]
fn test_resolve_required_empty_default_errors() {
    let schema = build_form_schema(None, &quick_opts());
    let errs = resolve_answers(
        &schema,
        &values_of(&[
            (FieldKey::HostCount, "1"),
            (FieldKey::DutCount(0), "1"),
            (FieldKey::DutPort(0, 0), "41002"),
        ]),
        false,
        NamePolicy::ErrorOnCollision,
    )
    .unwrap_err();
    assert!(
        errs.iter().any(|(k, m)| k == &FieldKey::HostIp(0) && m == "value is required"),
        "{errs:?}"
    );
    let errs = resolve_answers(
        &schema,
        &values_of(&[
            (FieldKey::HostCount, "1"),
            (FieldKey::HostIp(0), ""),
            (FieldKey::DutCount(0), "1"),
            (FieldKey::DutPort(0, 0), "41002"),
        ]),
        false,
        NamePolicy::ErrorOnCollision,
    )
    .unwrap_err();
    assert!(
        errs.iter().any(|(k, m)| k == &FieldKey::HostIp(0) && m == "value is required"),
        "{errs:?}"
    );
}

#[test]
fn test_resolve_required_empty_buffer_accepts_shown_default_on_update() {
    let existing = parse_jsonc_text(LOCATE_FIXTURE).unwrap();
    let schema = build_form_schema(Some(&existing), &quick_opts());
    let mut values = values_of(&[
        (FieldKey::HostCount, "1"),
        (FieldKey::DutCount(0), "2"),
        (FieldKey::DutPort(0, 0), "41000"),
        (FieldKey::DutPort(0, 1), "41001"),
    ]);
    values.insert(FieldKey::HostIp(0), String::new());
    let answers = resolve_answers(&schema, &values, false, NamePolicy::ErrorOnCollision).unwrap();
    assert_eq!(answers.hosts[0].ip, "10.0.0.1");
    assert_eq!(answers.hosts[0].duts.len(), 2);
}

#[test]
fn test_resolve_port_zero_errors_and_device_path_passes() {
    let schema = build_form_schema(None, &quick_opts());
    let errs = resolve_answers(
        &schema,
        &values_of(&[
            (FieldKey::HostCount, "1"),
            (FieldKey::HostIp(0), "10.0.0.1"),
            (FieldKey::DutCount(0), "1"),
            (FieldKey::DutPort(0, 0), "0"),
        ]),
        false,
        NamePolicy::ErrorOnCollision,
    )
    .unwrap_err();
    assert!(
        errs.iter().any(|(k, m)| k == &FieldKey::DutPort(0, 0) && m == "serial.port cannot be 0"),
        "{errs:?}"
    );
    let answers = resolve_answers(
        &schema,
        &values_of(&[
            (FieldKey::HostCount, "1"),
            (FieldKey::HostIp(0), "10.0.0.1"),
            (FieldKey::DutCount(0), "1"),
            (FieldKey::DutPort(0, 0), "/dev/ttyUSB0"),
        ]),
        false,
        NamePolicy::ErrorOnCollision,
    )
    .unwrap();
    assert_eq!(answers.hosts[0].duts[0].serial_port, "/dev/ttyUSB0");
}

#[test]
fn test_resolve_count_empty_default_invalid_errors() {
    let schema = build_form_schema(None, &quick_opts());
    let answers = resolve_answers(
        &schema,
        &values_of(&[(FieldKey::HostIp(0), "10.0.0.1"), (FieldKey::DutPort(0, 0), "41002")]),
        false,
        NamePolicy::ErrorOnCollision,
    )
    .unwrap();
    assert_eq!(answers.hosts.len(), 1);
    assert_eq!(answers.hosts[0].duts.len(), 1);
    let answers = resolve_answers(
        &schema,
        &values_of(&[
            (FieldKey::HostCount, "0"),
            (FieldKey::HostIp(0), "10.0.0.1"),
            (FieldKey::DutCount(0), "1"),
            (FieldKey::DutPort(0, 0), "41002"),
        ]),
        false,
        NamePolicy::ErrorOnCollision,
    )
    .unwrap();
    assert!(answers.hosts.is_empty(), "{answers:?}");
    let errs = resolve_answers(
        &schema,
        &values_of(&[(FieldKey::HostCount, "x"), (FieldKey::DutPort(0, 0), "41002")]),
        false,
        NamePolicy::ErrorOnCollision,
    )
    .unwrap_err();
    assert!(
        errs.iter()
            .any(|(k, m)| k == &FieldKey::HostCount && m == "'x' is not a non-negative integer"),
        "{errs:?}"
    );
    let answers = resolve_answers(
        &schema,
        &values_of(&[(FieldKey::HostIp(0), "10.0.0.1"), (FieldKey::DutCount(0), "0")]),
        false,
        NamePolicy::ErrorOnCollision,
    )
    .unwrap();
    assert_eq!(answers.hosts.len(), 1);
    assert!(answers.hosts[0].duts.is_empty());
}

#[test]
fn test_resolve_dut_name_empty_autonames_and_collision_policies() {
    let schema = build_form_schema(None, &quick_opts());
    let answers = resolve_answers(
        &schema,
        &values_of(&[(FieldKey::HostIp(0), "10.0.0.1"), (FieldKey::DutPort(0, 0), "41002")]),
        false,
        NamePolicy::ErrorOnCollision,
    )
    .unwrap();
    assert_eq!(answers.hosts[0].duts[0].dut_name, "dut1");
    let twice = [
        (FieldKey::HostCount, "1"),
        (FieldKey::HostIp(0), "10.0.0.1"),
        (FieldKey::DutCount(0), "2"),
        (FieldKey::DutName(0, 0), "dup"),
        (FieldKey::DutName(0, 1), "dup"),
        (FieldKey::DutPort(0, 0), "41002"),
        (FieldKey::DutPort(0, 1), "41003"),
    ];
    let errs =
        resolve_answers(&schema, &values_of(&twice), false, NamePolicy::ErrorOnCollision).unwrap_err();
    let collisions: Vec<&(FieldKey, String)> =
        errs.iter().filter(|(_, m)| m.contains("already taken")).collect();
    assert_eq!(collisions.len(), 2, "{errs:?}");
    let answers =
        resolve_answers(&schema, &values_of(&twice), false, NamePolicy::AutoAdvance).unwrap();
    assert!(
        has_line(&answers.announcements, "already taken — using"),
        "{:?}",
        answers.announcements
    );
}

fn two_boards(extra: &[(FieldKey, &str)]) -> FieldValues {
    let mut v = values_of(&[
        (FieldKey::HostCount, "1"),
        (FieldKey::DutCount(0), "2"),
        (FieldKey::DutName(0, 0), "board1"),
        (FieldKey::DutName(0, 1), "board2"),
        (FieldKey::DutPort(0, 0), "41000"),
        (FieldKey::DutPort(0, 1), "41001"),
    ]);
    for (k, val) in extra {
        v.insert(*k, val.to_string());
    }
    v
}

fn resolve_ok(schema: &FormSchema, v: &FieldValues, gate: bool) -> WizardAnswers {
    resolve_answers(schema, v, gate, NamePolicy::ErrorOnCollision).unwrap()
}

#[test]
fn test_resolve_advanced_tri_state_and_gate() {
    let existing = parse_jsonc_text(LOCATE_FIXTURE).unwrap();
    let schema = build_form_schema(Some(&existing), &InitOptions::default());
    let values = two_boards(&[(FieldKey::DutAdvanced(0, 0, "flash.loader_bin"), "x.bin")]);
    let answers = resolve_ok(&schema, &values, false);
    assert!(answers.advanced.is_empty(), "gate off → no host-level answers");
    assert_eq!(got(&answers.hosts[0].duts[0].advanced, "flash.loader_bin"), Some("x.bin"));
    let values = two_boards(&[
        (FieldKey::Advanced("monitor.hang_timeout"), "30"),
        (FieldKey::Advanced("monitor.max_log_file_size"), ""),
    ]);
    let answers = resolve_ok(&schema, &values, true);
    assert_eq!(got(&answers.advanced, "monitor.max_log_file_size"), Some("100"));
    assert_eq!(got(&answers.advanced, "monitor.hang_timeout"), Some("30"));
    let values = two_boards(&[
        (FieldKey::DutAdvanced(0, 0, "target.login_pass"), "pw"),
        (FieldKey::DutAdvanced(0, 1, "target.login_pass"), ""),
    ]);
    let answers = resolve_ok(&schema, &values, true);
    assert_eq!(got(&answers.hosts[0].duts[0].advanced, "target.login_pass"), Some("pw"));
    assert_eq!(
        got(&answers.hosts[0].duts[1].advanced, "target.login_pass"),
        Some(""),
        "cleared SkipInherit → explicit unset marker"
    );
    let values = two_boards(&[(FieldKey::Advanced("monitor.hang_timeout"), "abc")]);
    let errs = resolve_answers(&schema, &values, true, NamePolicy::ErrorOnCollision).unwrap_err();
    assert!(
        errs.iter().any(|(k, m)| {
            k == &FieldKey::Advanced("monitor.hang_timeout")
                && m.contains("monitor.hang_timeout: invalid seconds: abc")
        }),
        "{errs:?}"
    );
    let values = two_boards(&[(FieldKey::DutAdvanced(0, 1, "monitor.max_archived_logs"), "abc")]);
    let errs = resolve_answers(&schema, &values, true, NamePolicy::ErrorOnCollision).unwrap_err();
    assert!(
        errs.iter().any(|(k, m)| {
            k == &FieldKey::DutAdvanced(0, 1, "monitor.max_archived_logs")
                && m.contains("monitor.max_archived_logs: invalid count: abc")
        }),
        "{errs:?}"
    );
    let values =
        two_boards(&[(FieldKey::DutAdvanced(0, 1, "monitor.reference_log"), "/tmp/typed.log")]);
    let answers = resolve_ok(&schema, &values, true);
    assert_eq!(
        got(&answers.hosts[0].duts[1].advanced, "monitor.reference_log"),
        Some("/tmp/typed.log")
    );
    assert!(!answers.hosts[0].duts[0].advanced.contains_key("monitor.reference_log"));
    let answers = resolve_ok(&schema, &two_boards(&[]), true);
    for dut in &answers.hosts[0].duts {
        assert_eq!(got(&dut.advanced, "serial.baudrate"), Some("460800"));
    }
}

#[test]
fn test_resolve_reference_log_composed_from_live_dut_name() {
    let schema = build_form_schema(None, &InitOptions::default());
    assert_eq!(
        dut_advanced_default(&schema, 0, 0, "monitor.reference_log", Some("boardX")),
        ".dut-serial/boardX/reference-boot.log"
    );
    let mut values = values_of(&[
        (FieldKey::HostIp(0), "10.0.0.1"),
        (FieldKey::DutName(0, 0), "boardX"),
        (FieldKey::DutPort(0, 0), "41002"),
    ]);
    values.insert(FieldKey::DutAdvanced(0, 0, "monitor.reference_log"), String::new());
    let answers = resolve_ok(&schema, &values, true);
    assert!(!answers.hosts[0].duts[0].advanced.contains_key("monitor.reference_log"));
    values.insert(FieldKey::DutAdvanced(0, 0, "monitor.reference_log"), "/tmp/x.log".into());
    let answers = resolve_ok(&schema, &values, true);
    assert_eq!(
        got(&answers.hosts[0].duts[0].advanced, "monitor.reference_log"),
        Some("/tmp/x.log")
    );
}

#[test]
fn test_resolve_matches_walk_for_same_inputs() {
    let schema = build_form_schema(None, &quick_opts());
    let mut walked_schema = build_form_schema(None, &quick_opts());
    let inputs = quick_with_dut_advanced();
    let mut io = CannedIO::new(&refs(&inputs), Vec::new(), Vec::new());
    let walked = walk_schema(&mut walked_schema, &mut io).unwrap();
    assert_eq!(io.remaining(), 0);
    let values = values_of(&[
        (FieldKey::HostCount, "1"),
        (FieldKey::HostIp(0), "10.0.0.1"),
        (FieldKey::HostUser(0), "linaro"),
        (FieldKey::HostPass(0), ""),
        (FieldKey::HostName(0), ""),
        (FieldKey::DutCount(0), "1"),
        (FieldKey::DutName(0, 0), ""),
        (FieldKey::DutPort(0, 0), "41002"),
        (FieldKey::DutLoginUser(0, 0), ""),
        (FieldKey::DutRelayType(0, 0), ""),
    ]);
    let resolved = resolve_ok(&schema, &values, false);
    assert_eq!(walked.hosts, resolved.hosts);
    assert_eq!(walked.advanced, resolved.advanced);
    assert!(resolved.announcements.len() == 1);
    assert!(walked.announcements.is_empty());
}

// ── Held endpoints ───────────────────────────────────────────────────

fn held(host: &str, port: &str, own: bool) -> Vec<HeldEndpoint> {
    let content = format!("77\n{host}:{port}\nhost\n2026-01-01T00:00:00Z");
    let conflict = holder_conflict(host, port, 77, &content, Some("/elsewhere".to_string()));
    vec![HeldEndpoint { conflict, own }]
}

#[test]
fn test_endpoint_conflicts_only_same_host_port() {
    let h = held("10.9.9.9", "41001", false);
    assert_eq!(h[0].conflict.host, "10.9.9.9");
    assert_eq!(h[0].conflict.since, "2026-01-01T00:00:00Z");
    assert_eq!(
        endpoint_conflict_line(&h[0].conflict),
        "serial endpoint 10.9.9.9:41001 is held by another MCP (PID 77, project /elsewhere, since 2026-01-01T00:00:00Z)"
    );
    let mut dup = one_dut_answers("10.9.9.9", "41001");
    dup.hosts[0].duts.push(dut_answers("dut2", "41001"));
    dup.hosts[0].duts.push(dut_answers("dut3", "41002"));
    let endpoints = answered_endpoints(&dup);
    assert_eq!(
        endpoints,
        vec![
            ("10.9.9.9".to_string(), "41001".to_string()),
            ("10.9.9.9".to_string(), "41002".to_string()),
        ]
    );
}

#[test]
fn occupancy_gate_bypasses_own_project_and_asks_for_foreign() {
    let mut io = RecordingIO::new(&[]);
    io.busy.push(BusyDecision::Abort);
    occupancy_gate(&mut io, &InitOptions::default(), &held("10.9.9.9", "41001", true))
        .expect("a holder of the own project must not abort");
    assert_eq!(io.busy_calls, 0, "the own project's holder never prompts");
    assert!(io
        .notes
        .iter()
        .any(|(k, m)| *k == NoteKind::Info && m.contains("this project's own MCP holds the endpoint")));

    let mut io = RecordingIO::new(&[]);
    io.busy.push(BusyDecision::Abort);
    let err = occupancy_gate(&mut io, &InitOptions::default(), &held("10.9.9.9", "41001", false))
        .unwrap_err();
    assert!(err.starts_with("aborted: "), "{err}");
    assert_eq!(io.busy_calls, 1, "the user is asked once");

    let mut io = RecordingIO::new(&[]);
    io.busy.push(BusyDecision::Continue);
    occupancy_gate(&mut io, &InitOptions::default(), &held("10.9.9.9", "41001", false)).unwrap();
}

#[test]
fn test_finish_init_aborts_on_busy_endpoint_writes_nothing() {
    let opts = quick_opts();
    let prepared = prepare_init(PATH.to_string(), None, &opts).unwrap();
    let answers = one_dut_answers("10.0.0.1", "47111");
    let mut io = RecordingIO::new(&[]);
    io.busy.push(BusyDecision::Abort);
    let err = finish_init(&mut io, &opts, &prepared, &answers, &held("10.0.0.1", "47111", false))
        .err()
        .unwrap();
    assert!(err.contains("aborted"), "{err}");
    assert!(err.contains("10.0.0.1"), "{err}");
    assert!(err.contains("47111"), "{err}");
    assert_eq!(io.busy_calls, 1, "the user was asked exactly once");
    let mut io2 = RecordingIO::new(&[]);
    let nobody: Vec<HeldEndpoint> = Vec::new();
    let pending = finish_init(&mut io2, &opts, &prepared, &answers, &nobody).unwrap();
    assert!(pending.text.is_some());
    assert_eq!(io2.busy_calls, 0);
}

#[test]
fn test_finish_init_continue_writes_keeps_holder_lock() {
    let opts = quick_opts();
    let prepared = prepare_init(PATH.to_string(), None, &opts).unwrap();
    let mut io = RecordingIO::new(&[]);
    io.busy.push(BusyDecision::Continue);
    let pending = finish_init(
        &mut io,
        &opts,
        &prepared,
        &one_dut_answers("10.0.0.1", "47112"),
        &held("10.0.0.1", "47112", false),
    )
    .unwrap();
    assert!(prepared.created);
    assert!(pending.text.unwrap().contains("47112"));
}

#[test]
fn test_finish_init_non_interactive_warns_and_continues() {
    let opts = non_interactive_opts();
    let prepared = prepare_init(PATH.to_string(), None, &opts).unwrap();
    let mut io = RecordingIO::new(&[]);
    let pending = finish_init(
        &mut io,
        &opts,
        &prepared,
        &one_dut_answers("10.0.0.1", "47113"),
        &held("10.0.0.1", "47113", false),
    )
    .unwrap();
    assert!(pending.text.is_some());
    assert_eq!(io.busy_calls, 0, "headless never asks");
    assert!(io.notes.iter().any(|(_, n)| n.contains("47113")), "{:?}", io.notes);
    assert!(io.notes.iter().any(|(_, n)| n.contains("held by another MCP")));
}

#[test]
fn test_finish_init_noop_update_still_gates() {
    let opts = quick_opts();
    let answers = one_dut_answers("10.0.0.1", "47114");
    let text = render_jsonc(&build_config_from_answers(&answers).unwrap(), true);
    let prepared = prepare_init(PATH.to_string(), Some(text), &opts).unwrap();
    let mut io = RecordingIO::new(&[]);
    let pending =
        finish_init(&mut io, &opts, &prepared, &answers, &held("10.0.0.1", "47114", false)).unwrap();
    assert!(has_line(&pending.changes, "unchanged"), "{:?}", pending.changes);
    assert!(pending.text.is_none());
    assert_eq!(io.busy_calls, 1, "the user is asked on a no-op too");
}

// ── A board's own keys ───────────────────────────────────────────────

#[test]
fn test_resolve_dut_advanced_isolated_and_gate_independent() {
    let existing = parse_jsonc_text(LOCATE_FIXTURE).unwrap();
    let schema = build_form_schema(Some(&existing), &InitOptions::default());
    let values = two_boards(&[
        (FieldKey::DutAdvanced(0, 1, "monitor.crash_keywords"), "Oops2"),
        (FieldKey::DutAdvanced(0, 1, "serial.baudrate"), "921600"),
    ]);
    let answers = resolve_ok(&schema, &values, false);
    let dut1 = &answers.hosts[0].duts[0];
    let dut2 = &answers.hosts[0].duts[1];
    assert_eq!(got(&dut1.advanced, "serial.baudrate"), Some("460800"), "{dut1:?}");
    assert_eq!(got(&dut2.advanced, "monitor.crash_keywords"), Some("Oops2"));
    assert_eq!(got(&dut2.advanced, "serial.baudrate"), Some("921600"));
    assert!(answers.advanced.is_empty());
    let values = two_boards(&[(FieldKey::DutAdvanced(0, 1, "monitor.max_archived_logs"), "abc")]);
    let errs = resolve_answers(&schema, &values, false, NamePolicy::ErrorOnCollision).unwrap_err();
    assert!(
        errs.iter().any(|(k, m)| {
            k == &FieldKey::DutAdvanced(0, 1, "monitor.max_archived_logs")
                && m.contains("monitor.max_archived_logs: invalid count: abc")
        }),
        "{errs:?}"
    );
}

#[test]
fn test_create_renders_dut_advanced_overrides_global_untouched() {
    let mut d0 = dut_answers("dut1", "41002");
    d0.advanced = TextMap::from_pairs(&[
        ("serial.baudrate", "921600"),
        ("monitor.crash_keywords", "Oops:"),
        ("flash.loader_bin", "/opt/custom-loader.bin"),
    ]);
    let mut d1 = dut_answers("dut2", "41003");
    d1.advanced = TextMap::from_pairs(&[("monitor.crash_keywords", "BUG:")]);
    let answers = answers_of(
        vec![host_answers("10.0.0.1", "", vec![d0, d1])],
        TextMap::from_pairs(&[("monitor.hang_timeout", "30")]),
    );
    let config = build_config_from_answers(&answers).unwrap();
    assert!(config.serial.is_none());
    assert!(config.target.is_none());
    assert!(config.flash.is_none());
    assert!(config.control.is_none());
    assert_eq!(config.monitor.as_ref().unwrap().hang_timeout, Some(30));
    assert!(config.monitor.as_ref().unwrap().crash_keywords.is_none());
    let d0 = &config.dev_hosts[0].duts[0];
    assert_eq!(baud_text(d0).as_deref(), Some("921600"));
    assert_eq!(
        d0.monitor.as_ref().unwrap().crash_keywords.as_ref().unwrap(),
        &["Oops:".to_string()]
    );
    assert_eq!(d0.flash.as_ref().unwrap().loader_bin.as_deref(), Some("/opt/custom-loader.bin"));
    let d1 = &config.dev_hosts[0].duts[1];
    assert!(d1.serial.as_ref().unwrap().baudrate.is_none());
    assert_eq!(
        d1.monitor.as_ref().unwrap().crash_keywords.as_ref().unwrap(),
        &["BUG:".to_string()]
    );
    assert!(d1.flash.is_none());
    let text = render_jsonc(&config, true);
    parse_jsonc_text(&text).unwrap_or_else(|e| panic!("{e}\n{text}"));
    assert!(text.contains("\"crash_keywords\""), "{text}");
}

fn apply(text: &str, answers: &WizardAnswers) -> (String, Vec<String>) {
    let existing = parse_jsonc_text(text).unwrap();
    let ops = compute_update_ops(text, &existing, answers).unwrap();
    let bare: Vec<EditOp> = ops.iter().map(|o| o.op.copy()).collect();
    (apply_edits(text, &bare).unwrap(), ops.iter().map(|o| o.desc.clone()).collect())
}

#[test]
fn test_update_appends_new_dut_overrides_only() {
    let existing_text = "{\n  // untouched\n  \"dev_hosts\": [\n    {\n      \"ip\": \"10.0.0.1\",\n      \"user\": \"u\",\n      \"pass\": \"\",\n      \"duts\": [\n        {\n          \"dut_name\": \"board1\",\n          \"serial\": { \"port\": 41000 },\n          \"target\": { \"login_user\": \"root\" }\n        }\n      ]\n    }\n  ],\n  \"monitor\": { \"hang_timeout\": 60 }\n}\n";
    let mut b2 = dut_answers("board2", "41001");
    b2.advanced = TextMap::from_pairs(&[
        ("monitor.crash_keywords", "Oops:"),
        ("flash.full_image_cmd", "uf-b {image}"),
    ]);
    let answers = answers_of(
        vec![host_answers("10.0.0.1", "u", vec![dut_answers("board1", "41000"), b2])],
        TextMap::new(),
    );
    let (new_text, descs) = apply(existing_text, &answers);
    let before = &existing_text[..existing_text.rfind("\n      ]").unwrap()];
    assert!(new_text.contains(before), "existing lines untouched: {new_text}");
    let parsed = parse_jsonc_text(&new_text).unwrap_or_else(|e| panic!("{e}\n{new_text}"));
    let b2p = &parsed.dev_hosts[0].duts[1];
    assert_eq!(b2p.dut_name, "board2");
    assert_eq!(
        b2p.monitor.as_ref().unwrap().crash_keywords.as_ref().unwrap(),
        &["Oops:".to_string()]
    );
    assert_eq!(b2p.flash.as_ref().unwrap().full_image_cmd.as_deref(), Some("uf-b {image}"));
    assert!(parsed.dev_hosts[0].duts[0].monitor.is_none());
    assert!(parsed.dev_hosts[0].duts[0].flash.is_none());
    assert!(has_line(&descs, "added DUT 'board2'"), "{descs:?}");
}

#[test]
fn test_update_dut_advanced_set_unset_and_global_equal_skip() {
    let existing_text = "{\n  \"dev_hosts\": [\n    {\n      \"ip\": \"10.0.0.1\",\n      \"user\": \"u\",\n      \"pass\": \"\",\n      \"duts\": [\n        {\n          \"dut_name\": \"board1\",\n          \"serial\": {\n            \"port\": 41000\n          },\n          \"target\": {\n            \"login_user\": \"root\",\n            \"login_pass\": \"oldpw\"\n          },\n          \"monitor\": {\n            \"crash_keywords\": [\n              \"Old\"\n            ]\n          }\n        }\n      ]\n    }\n  ],\n  \"serial\": {\n    \"baudrate\": 460800\n  }\n}\n";
    let mut board = dut_answers("board1", "41000");
    board.advanced = TextMap::from_pairs(&[
        ("monitor.crash_keywords", "New"),
        ("target.login_pass", ""),
        ("serial.baudrate", "460800"),
    ]);
    let answers = answers_of(vec![host_answers("10.0.0.1", "u", vec![board])], TextMap::new());
    let (new_text, descs) = apply(existing_text, &answers);
    let parsed = parse_jsonc_text(&new_text).unwrap_or_else(|e| panic!("{e}\n{new_text}"));
    let dut = &parsed.dev_hosts[0].duts[0];
    assert_eq!(
        dut.monitor.as_ref().unwrap().crash_keywords.as_ref().unwrap(),
        &["New".to_string()]
    );
    assert_eq!(dut.target.as_ref().unwrap().login_pass, None);
    assert_eq!(dut.target.as_ref().unwrap().login_user.as_deref(), Some("root"));
    assert!(dut.serial.as_ref().unwrap().baudrate.is_none());
    assert_eq!(
        parsed.serial.as_ref().unwrap().baudrate.as_ref().unwrap().to_value_string(),
        "460800"
    );
    assert!(!new_text.contains("oldpw"), "{new_text}");
    assert!(has_line(&descs, "unset target.login_pass"), "{descs:?}");
}

#[test]
fn test_update_dut_advanced_loader_top_level_key() {
    let existing_text = "{\n  \"dev_hosts\": [\n    {\n      \"ip\": \"10.0.0.1\",\n      \"user\": \"u\",\n      \"pass\": \"\",\n      \"duts\": [\n        {\n          \"dut_name\": \"board1\",\n          \"serial\": {\n            \"port\": 41000\n          }\n        }\n      ]\n    }\n  ],\n  \"loader\": \"uboot\"\n}\n";
    let mut board = dut_answers("board1", "41000");
    board.advanced = TextMap::from_pairs(&[("loader", "uefi")]);
    let answers = answers_of(vec![host_answers("10.0.0.1", "u", vec![board])], TextMap::new());
    let (new_text, _) = apply(existing_text, &answers);
    let parsed = parse_jsonc_text(&new_text).unwrap_or_else(|e| panic!("{e}\n{new_text}"));
    assert_eq!(parsed.dev_hosts[0].duts[0].loader.as_deref(), Some("uefi"));
    assert_eq!(parsed.loader.as_deref(), Some("uboot"));
    assert!(!new_text.contains("\"\": {"), "{new_text}");
}

#[test]
fn test_schema_dut_advanced_prefill_and_materialize() {
    let fixture = r#"{
  "dev_hosts": [
    {
      "ip": "10.0.0.1",
      "user": "u",
      "pass": "",
      "duts": [
        {
          "dut_name": "board1",
          "serial": { "port": 41000, "baudrate": 921600 },
          "monitor": { "crash_keywords": ["Kernel panic"] }
        },
        {
          "dut_name": "board2",
          "serial": { "port": 41001 }
        }
      ]
    }
  ],
  "serial": { "baudrate": 460800 }
}"#;
    let existing = parse_jsonc_text(fixture).unwrap();
    let schema = build_form_schema(Some(&existing), &InitOptions::default());
    let d0 = &schema.host_defaults[0].duts[0];
    assert_eq!(got(&d0.advanced, "serial.baudrate"), Some("921600"));
    assert_eq!(got(&d0.advanced, "monitor.crash_keywords"), Some("Kernel panic"));
    let d1 = &schema.host_defaults[0].duts[1];
    assert!(d1.advanced.is_empty(), "board2 typed nothing per-DUT");
    let fields = schema_fields(&schema);
    assert_eq!(default_of(&fields, FieldKey::DutAdvanced(0, 0, "serial.baudrate")), Some("921600"));
    assert_eq!(default_of(&fields, FieldKey::DutAdvanced(0, 1, "serial.baudrate")), Some("460800"));
    assert_eq!(
        default_of(&fields, FieldKey::DutAdvanced(0, 1, "monitor.reference_log")),
        Some(".dut-serial/board2/reference-boot.log")
    );
    assert_eq!(default_of(&fields, FieldKey::Advanced("monitor.hang_timeout")), Some("60"));
}

#[test]
fn test_walk_dut_advanced_asked_regardless_of_gate() {
    let mut schema = build_form_schema(None, &InitOptions::default());
    let mut inputs = quick_with_dut_advanced();
    inputs[9] = "921600".into();
    let mut io = RecordingIO::new(&refs(&inputs));
    io.confirms.push(false);
    io.confirms.push(false);
    let answers = walk_schema(&mut schema, &mut io).unwrap();
    assert_eq!(got(&answers.hosts[0].duts[0].advanced, "serial.baudrate"), Some("921600"));
    assert!(answers.advanced.is_empty(), "gate NO → no host-level answers");
    assert!(!io.calls.iter().any(|(p, _)| p.contains("Hang timeout")), "{:?}", io.calls);
}

// ── Without questions ────────────────────────────────────────────────

#[test]
fn test_fill_defaults_create_matches_legacy() {
    let schema = build_form_schema(None, &quick_opts());
    let answers = fill_defaults(&schema);
    assert_eq!(answers.hosts.len(), 1);
    assert_eq!(answers.hosts[0].ip, "");
    assert_eq!(answers.hosts[0].user, "");
    assert_eq!(answers.hosts[0].pass, "");
    assert_eq!(answers.hosts[0].host_name, "");
    assert_eq!(answers.hosts[0].duts.len(), 1);
    assert_eq!(answers.hosts[0].duts[0].dut_name, "dut1");
    assert_eq!(answers.hosts[0].duts[0].serial_port, "");
    assert_eq!(answers.hosts[0].duts[0].login_user, "root");
    assert!(!answers.hosts[0].duts[0].relay_gate);
    assert_eq!(answers.hosts[0].duts[0].relay_type, "");
    assert!(answers.advanced.is_empty());
    assert!(answers.announcements.is_empty(), "no announcements headless");
}

#[test]
fn test_fill_defaults_update_is_strict_noop_answers() {
    let existing = parse_jsonc_text(UPDATE_GLOBAL_FIXTURE).unwrap();
    let schema = build_form_schema(Some(&existing), &advanced_opts());
    let answers = fill_defaults(&schema);
    assert_eq!(answers.hosts.len(), 1);
    assert_eq!(answers.hosts[0].ip, "10.0.0.1");
    assert_eq!(answers.hosts[0].user, "linaro");
    assert_eq!(answers.hosts[0].host_name, "");
    assert_eq!(answers.hosts[0].duts.len(), 1);
    assert_eq!(answers.hosts[0].duts[0].serial_port, "41000");
    assert_eq!(got(&answers.advanced, "serial.baudrate"), Some("1500000"));
    assert_eq!(got(&answers.advanced, "serial.rfc2217"), None);
    assert_eq!(got(&answers.advanced, "flash.loader_bin"), Some("rockdev/loader.bin"));
    assert_eq!(answers.advanced.get("relay.reset_ch"), None);
    assert_eq!(answers.advanced.get("monitor.hang_timeout"), None);
    assert!(answers.hosts[0].duts[0].relay_gate);
    assert_eq!(answers.hosts[0].duts[0].relay_type, "ch340");
    assert!(answers.announcements.is_empty());
    let quick = build_form_schema(Some(&existing), &quick_opts());
    assert!(fill_defaults(&quick).advanced.is_empty());
}

// ── The beginning ────────────────────────────────────────────────────

#[test]
fn test_prepare_init_refuses_unparseable_before_questions() {
    let err = prepare_init(PATH.to_string(), Some("this is not jsonc {{{".to_string()), &quick_opts())
        .err()
        .unwrap();
    assert!(err.contains("does not parse"), "{err}");
    assert!(err.contains("refusing to edit"), "{err}");
}

#[test]
fn test_init_refuses_config_with_removed_host_alias() {
    let text = "{\n  \"dev_hosts\": [\n    { \"alias\": \"old\", \"ip\": \"10.0.0.1\" }\n  ]\n}\n";
    let err = prepare_init(PATH.to_string(), Some(text.to_string()), &quick_opts()).err().unwrap();
    assert!(err.contains("renamed to host_name"), "{err}");
    assert!(err.contains("refusing to edit"), "{err}");
    assert!(err.contains("re-run 'dutabo init'"), "{err}");
}

#[test]
fn test_prepare_init_force_reroutes_to_create_defaults() {
    let force = InitOptions { force: true, ..Default::default() };
    let prepared =
        prepare_init(PATH.to_string(), Some(LOCATE_FIXTURE.to_string()), &force).unwrap();
    assert!(prepared.created);
    assert!(prepared.existing.is_none());
    assert!(prepared.existing_text.is_some());
    assert!(prepared.schema.host_defaults.is_empty());
    let opts = InitOptions { force: true, quick: true, ..Default::default() };
    let (pending, created) =
        run_canned(&quick_with_dut_advanced(), &opts, Some(LOCATE_FIXTURE)).unwrap();
    assert!(created);
    assert!(pending.changes[0].contains("--force: overwriting"), "{:?}", pending.changes);
}

#[test]
fn trying_answers_gives_the_text_that_is_written() {
    let opts = quick_opts();
    let prepared = prepare_init(PATH.to_string(), None, &opts).unwrap();
    let answers = one_dut_answers("10.0.0.1", "47120");
    let tried = render_test_config(&prepared, &answers).unwrap();
    let mut io = RecordingIO::new(&[]);
    let nobody: Vec<HeldEndpoint> = Vec::new();
    let pending = finish_init(&mut io, &opts, &prepared, &answers, &nobody).unwrap();
    assert_eq!(pending.text.as_deref(), Some(tried.as_str()));
    let err = render_test_config(&prepared, &one_dut_answers("", "")).unwrap_err();
    assert!(err.contains("dev_hosts[0].ip"), "{err}");
}

#[test]
fn the_outcome_ends_with_the_list_of_servers() {
    let prepared = prepare_init(PATH.to_string(), None, &quick_opts()).unwrap();
    assert_eq!(lock_dir_for(&prepared), "/tmp/sermcp/locks");
    let o = wizard_outcome(
        &prepared,
        vec!["created it".to_string()],
        &Err("Cannot read .mcp.json".to_string()),
    );
    assert_eq!(o.changes, ["created it", "warning: Cannot read .mcp.json"]);
    assert_eq!(o.config_path, PATH);
    assert!(o.config_created);
    let text = "{ \"dev_hosts\": [], \"lock_dir\": \"/locks\" }";
    let prepared = prepare_init(PATH.to_string(), Some(text.to_string()), &quick_opts()).unwrap();
    assert_eq!(lock_dir_for(&prepared), "/locks");
}

#[test]
fn test_wizard_create_invalid_values_never_land_on_disk() {
    let mut front: Vec<&str> = vec!["1", "10.0.0.1", "", "", "", "1", "", "41002", ""];
    front.extend(["bogus-relay", "", "", "", "", "", ""]);
    let inputs = with_empties(&front, 13);
    let mut io = RecordingIO::new(&refs(&inputs));
    io.confirms.push(true);
    let (pending, _) = run(&mut io, &quick_opts(), None).unwrap();
    let config = parse_jsonc_text(&pending.text.unwrap()).unwrap();
    let err = check_relay_types(&config).unwrap_err();
    assert!(err.contains("unsupported relay.type"), "{err}");
}

#[test]
fn the_relays_that_there_are_can_be_used() {
    let config = parse_jsonc_text(LOCATE_FIXTURE).unwrap();
    assert_eq!(check_relay_types(&config), Ok(()));
    let config = parse_jsonc_text(r#"{ "dev_hosts": [], "relay": { "type": "x" } }"#).unwrap();
    assert_eq!(check_relay_types(&config), Err("unsupported relay.type 'x'".to_string()));
}

// ── A file that is kept as it is ─────────────────────────────────────

/// A headless run over a text that the wizard leaves alone.
fn left_alone(text: &str) {
    let opts = non_interactive_opts();
    let mut io = RecordingIO::new(&[]);
    let (pending, created) = run(&mut io, &opts, Some(text)).unwrap();
    assert!(!created);
    assert!(has_line(&pending.changes, "unchanged"), "{:?}", pending.changes);
    assert!(pending.text.is_none(), "{:?}", pending.changes);
    assert!(io.calls.is_empty(), "headless never asks");
}

#[test]
fn a_created_file_stays_as_it_is() {
    let mut dut = dut_answers("dut1", "41002");
    dut.advanced.insert("serial.baudrate", "115200".to_string());
    let mut second = dut_answers("dut2", "/dev/ttyUSB0");
    second.relay_gate = true;
    second.relay_type = "ch340".to_string();
    second.relay_reset_ch = "2".to_string();
    let answers =
        answers_of(vec![host_answers("10.0.0.1", "linaro", vec![dut, second])], TextMap::new());
    for hints in [false, true] {
        left_alone(&render_jsonc(&build_config_from_answers(&answers).unwrap(), hints));
    }
}

#[test]
fn empty_and_zero_values_stay_as_they_are() {
    left_alone(LOCATE_FIXTURE);
    left_alone(
        r#"{
  "dev_hosts": [
    {
      "ip": "10.0.0.1",
      "user": "",
      "pass": "",
      "host_name": "",
      "duts": [
        {
          "dut_name": "b1",
          "serial": { "port": 41000 },
          "target": { "login_user": "root", "login_pass": "" },
          "relay": { "type": "ch340", "port": 0, "reset_ch": 0 }
        }
      ]
    }
  ]
}
"#,
    );
}

#[test]
fn an_untouched_reset_time_is_empty() {
    let schema = build_form_schema(None, &quick_opts());
    let v = values_of(&[
        (FieldKey::HostIp(0), "10.0.0.1"),
        (FieldKey::DutPort(0, 0), "41002"),
        (FieldKey::DutRelayGate(0, 0), "true"),
        (FieldKey::DutRelayType(0, 0), "ch340"),
    ]);
    let answers = resolve_ok(&schema, &v, false);
    assert_eq!(answers.hosts[0].duts[0].relay_reset_time_ms, "");
}

#[test]
fn empty_answers_change_no_section() {
    let mut config = parse_jsonc_text(UPDATE_GLOBAL_FIXTURE).unwrap();
    let before = render_jsonc(&config, false);
    let answers = TextMap::from_pairs(&[
        ("serial.baudrate", ""),
        ("relay.port", "0"),
        ("monitor.hang_timeout", ""),
        ("monitor.crash_keywords", " , "),
        ("flash.loader_bin", ""),
        ("lock_dir", ""),
    ]);
    merge_advanced(&mut config, &answers).unwrap();
    assert_eq!(render_jsonc(&config, false), before);
}

#[test]
fn numbers_are_written_as_json_numbers() {
    let threshold = |v: &str| advanced_literal("monitor.learner_stage_threshold", v);
    assert_eq!(threshold("0.85"), Ok(Some("0.85".to_string())));
    assert_eq!(threshold("1e-2"), Ok(Some("0.01".to_string())));
    for v in ["inf", "-inf", "NaN", "nan", "infinity", "1e400", "abc"] {
        assert!(threshold(v).is_err(), "{v}");
    }
    assert_eq!(parse_number_or_string("1.5e3").unwrap().to_value_string(), "1500");
    for v in ["inf", "NaN"] {
        assert_eq!(parse_number_or_string(v), Ok(NumberOrString::String(v.to_string())));
    }
}

#[test]
fn the_gate_changes_the_global_answers_alone() {
    let existing = parse_jsonc_text(LOCATE_FIXTURE).unwrap();
    let schema = build_form_schema(Some(&existing), &InitOptions::default());
    let v = two_boards(&[]);
    let closed = resolve_ok(&schema, &v, false);
    let open = resolve_ok(&schema, &v, true);
    assert_eq!(format!("{:?}", closed.hosts), format!("{:?}", open.hosts));
    assert_eq!(closed.announcements, open.announcements);
}

#[test]
fn what_keeps_a_server_from_starting() {
    let complaint = |t: &str| dry_run_complaint(&parse_jsonc_text(t).unwrap());
    assert_eq!(
        complaint(r#"{ "dev_hosts": [] }"#),
        Some("dev_host.ip not set. Edit .target.jsonc".to_string())
    );
    let host = |port: &str| {
        format!(
            r#"{{ "dev_hosts": [ {{ "ip": "10.0.0.1", "duts": [ {{ "dut_name": "b"{port} }} ] }} ] }}"#
        )
    };
    let missing = Some("serial.port not set. Edit .target.jsonc".to_string());
    assert_eq!(complaint(&host("")), missing);
    assert_eq!(complaint(&host(r#", "serial": { "port": 0 }"#)), missing);
    assert_eq!(complaint(&host(r#", "serial": { "port": 41000 }"#)), None);
    assert_eq!(complaint(LOCATE_FIXTURE), None);
}

// ── Keys and who owns them ───────────────────────────────────────────

fn board_with(key: &str, value: &str) -> Result<JsoncDut, String> {
    let mut dut = parse_jsonc_text(SMALL_FIXTURE).unwrap().dev_hosts.remove(0).duts.remove(0);
    let answers = TextMap::from_pairs(&[(key, value)]);
    merge_dut_advanced(&mut dut, &answers).map(|_| dut)
}

#[test]
fn boards_refuse_answers_to_keys_that_are_not_theirs() {
    for (key, value) in [
        ("relay.port", "0"),
        ("relay.port", "3"),
        ("monitor.hang_timeout", "0"),
        ("monitor.hang_timeout", "60"),
        ("lock_dir", "/tmp/x"),
        ("no.such_key", "0"),
    ] {
        let err = board_with(key, value).unwrap_err();
        assert!(err.contains(key), "{key}={value}: {err}");
    }
    let before = parse_jsonc_text(SMALL_FIXTURE).unwrap().dev_hosts.remove(0).duts.remove(0);
    for key in ["relay.port", "monitor.hang_timeout", "lock_dir", "no.such_key"] {
        assert_eq!(board_with(key, "  ").unwrap(), before, "{key}");
    }
    assert_eq!(board_with("monitor.max_archived_logs", "0").unwrap(), before);
    let board = board_with("monitor.max_archived_logs", "7").unwrap();
    assert_eq!(board.monitor.unwrap().max_archived_logs, Some(7));
}

#[test]
fn unknown_keys_are_refused_though_they_are_blank() {
    for value in ["", "  ", "0", "x"] {
        let mut config = parse_jsonc_text(SMALL_FIXTURE).unwrap();
        let answers = TextMap::from_pairs(&[("no.such_key", value)]);
        let err = merge_advanced(&mut config, &answers).unwrap_err();
        assert!(err.contains("no.such_key"), "{err}");
    }
    let before = parse_jsonc_text(SMALL_FIXTURE).unwrap();
    let mut config = parse_jsonc_text(SMALL_FIXTURE).unwrap();
    let answers = TextMap::from_pairs(&[("monitor.hang_timeout", ""), ("monitor.max_log_file_size", "0")]);
    merge_advanced(&mut config, &answers).unwrap();
    assert_eq!(config, before);
}

#[test]
fn zero_is_inherited_wherever_it_is_answered() {
    for key in [
        "monitor.hang_timeout",
        "monitor.hang_hysteresis",
        "monitor.max_archived_logs",
        "monitor.max_log_file_size",
    ] {
        assert_eq!(advanced_literal(key, "0").unwrap(), None, "{key}");
        assert_eq!(advanced_literal(key, " 0 ").unwrap(), None, "{key}");
        assert_eq!(advanced_literal(key, "9").unwrap().as_deref(), Some("9"), "{key}");
        let mut config = parse_jsonc_text(SMALL_FIXTURE).unwrap();
        merge_advanced(&mut config, &TextMap::from_pairs(&[(key, "0")])).unwrap();
        assert_eq!(config, parse_jsonc_text(SMALL_FIXTURE).unwrap(), "{key}");
    }
}

// ── Order of what is added ───────────────────────────────────────────

#[test]
fn added_sections_stand_in_one_order() {
    let text = "{\n  \"dev_hosts\": [\n    {\n      \"ip\": \"10.0.0.1\",\n      \"user\": \"u\",\n      \"pass\": \"\",\n      \"duts\": [\n        {\n          \"dut_name\": \"b1\"\n        }\n      ]\n    }\n  ]\n}\n";
    let existing = parse_jsonc_text(text).unwrap();
    let mut answers = one_dut_answers("10.0.0.1", "41000");
    answers.hosts[0].user = "u".into();
    let dut = &mut answers.hosts[0].duts[0];
    dut.dut_name = "b1".into();
    dut.login_user = "ubuntu".into();
    dut.relay_gate = true;
    dut.relay_type = "ch340".into();
    dut.relay_port = "2".into();
    dut.advanced = TextMap::from_pairs(&[
        ("uboot.pattern", "=>"),
        ("serial.baudrate", "9600"),
        ("monitor.max_archived_logs", "7"),
        ("target.login_prompt", "login:"),
        ("control.dev_ctrl", "ctl"),
    ]);
    let ops = compute_update_ops(text, &existing, &answers).unwrap();
    let edits: Vec<EditOp> = ops.into_iter().map(|o| o.op).collect();
    let result = apply_edits(text, &edits).unwrap();
    let mut at: Vec<usize> = Vec::new();
    for section in ["serial", "target", "relay", "control", "monitor", "uboot"] {
        let key = format!("\"{section}\": {{");
        assert_eq!(result.matches(&key).count(), 1, "{section}\n{result}");
        at.push(result.find(&key).unwrap());
    }
    assert!(at.windows(2).all(|w| w[0] < w[1]), "{result}");
    let board = parse_jsonc_text(&result).unwrap().dev_hosts.remove(0).duts.remove(0);
    assert_eq!(port_text(&board), "41000");
    assert_eq!(baud_text(&board).as_deref(), Some("9600"));
    let target = board.target.unwrap();
    assert_eq!(target.login_user.as_deref(), Some("ubuntu"));
    assert_eq!(target.login_prompt.as_deref(), Some("login:"));
}

// ── Runs without questions ───────────────────────────────────────────

#[test]
fn canned_conversation_keeps_what_was_put_to_the_user() {
    let inputs = with_empties(&["abc", "1", "10.0.0.1", "", "", "", "1", "", "41002", ""], 13);
    let mut io = CannedIO::new(&refs(&inputs), Vec::new(), Vec::new());
    let (pending, _) = run(&mut io, &quick_opts(), None).unwrap();
    let record = io.record();
    assert!(matches!(&record[0], Recorded::Input(_, Some(d)) if d == "1"));
    assert!(matches!(&record[1], Recorded::Note(NoteKind::Error, m) if m.contains("abc")));
    assert!(matches!(&record[2], Recorded::Input(_, Some(d)) if d == "1"));
    assert!(record.iter().any(|r| matches!(r, Recorded::Confirm(_, false))));
    assert!(matches!(
        record.last(),
        Some(Recorded::Review(path, changes)) if path == PATH && *changes == pending.changes
    ));
}

#[test]
fn created_file_is_left_alone_without_questions() {
    let inputs = quick_with_dut_advanced();
    let (made, created) = run_canned(&inputs, &quick_opts(), None).unwrap();
    assert!(created);
    let text = made.text.unwrap();
    let mut io = CannedIO::new(&[], Vec::new(), Vec::new());
    let (pending, created) = run(&mut io, &non_interactive_opts(), Some(&text)).unwrap();
    assert!(!created);
    assert_eq!(pending.text, None);
    assert_eq!(pending.changes, vec![format!("{PATH} unchanged")]);
    assert_eq!(io.record().len(), 1);
    assert!(matches!(
        &io.record()[0],
        Recorded::Review(path, changes) if path == PATH && *changes == pending.changes
    ));
}

#[test]
fn port_that_reads_as_zero_is_missing_without_questions() {
    let mut inputs = quick_with_dut_advanced();
    inputs[7] = "00".into();
    let (made, _) = run_canned(&inputs, &quick_opts(), None).unwrap();
    let text = made.text.unwrap();
    let err = run_canned(&[], &non_interactive_opts(), Some(&text)).err().unwrap();
    assert!(err.contains("dev_hosts[0].duts[0].serial.port"), "{err}");
    inputs[7] = "041".into();
    let (made, _) = run_canned(&inputs, &quick_opts(), None).unwrap();
    let text = made.text.unwrap();
    let (pending, _) = run_canned(&[], &non_interactive_opts(), Some(&text)).unwrap();
    assert_eq!(pending.text, None);
}

#[test]
fn held_endpoint_is_noted_without_questions() {
    let (made, _) = run_canned(&quick_with_dut_advanced(), &quick_opts(), None).unwrap();
    let opts = non_interactive_opts();
    let mut prepared = prepare_init(PATH.to_string(), made.text, &opts).unwrap();
    let mut io = CannedIO::new(&[], Vec::new(), Vec::new());
    let answers = gather_answers(&mut io, &opts, &mut prepared.schema).unwrap();
    let pending =
        finish_init(&mut io, &opts, &prepared, &answers, &held("10.0.0.1", "41002", false)).unwrap();
    assert_eq!(pending.text, None);
    let record = io.record();
    assert!(record.len() > 1);
    assert!(record[..record.len() - 1].iter().all(|r| matches!(r, Recorded::Note(_, _))));
    assert!(matches!(record.last(), Some(Recorded::Review(_, _))));
}

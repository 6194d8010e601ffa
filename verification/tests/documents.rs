//! What is written is read again, and an edit changes what it says and no more.
use sermcp::answers::{DutAnswers, HostAnswers, WizardAnswers};
use sermcp::config::{
    parse_jsonc_text, JsoncControl, JsoncDevHost, JsoncDut, JsoncFlash, JsoncMonitor, JsoncRelay,
    JsoncSerial, JsoncTarget, NumberOrString, TargetJsoncConfig,
};
use sermcp::edit::{apply_edit, apply_edits, EditOp};
use sermcp::finish::{finish_init, prepare_init};
use sermcp::jsonc::{parse_jsonc_value, Json};
use sermcp::locate::{locate_container_close, locate_container_open, locate_value, scan_jsonc, PathSeg};
use sermcp::number::{Real, RealSign};
use sermcp::occupancy::HeldEndpoint;
use sermcp::options::InitOptions;
use sermcp::outcome::gather_answers;
use sermcp::prompt::CannedIO;
use sermcp::render::{render_dut_block, render_host_block, render_jsonc};
use sermcp::text_map::TextMap;
use sermcp::update::{set_or_append_key, OpWithDesc, ScalarEdit};
use sermcp::update_config::compute_update_ops;

fn key(k: &str) -> PathSeg {
    PathSeg::Key(k.to_string())
}

fn text(t: &str) -> Option<String> {
    Some(t.to_string())
}

fn threshold(t: &str, sign: RealSign) -> Option<Real> {
    Some(Real { text: t.to_string(), sign })
}

/// A board with something in every section that is written.
fn full_board() -> JsoncDut {
    JsoncDut {
        dut_name: "board \"one\"".to_string(),
        serial: Some(JsoncSerial {
            port: Some(NumberOrString::String("/dev/ttyUSB0".to_string())),
            baudrate: Some(NumberOrString::Float("1.5".to_string())),
            rfc2217: Some(true),
            tx_repeat: Some(3),
            ..Default::default()
        }),
        target: Some(JsoncTarget { login_user: text("root"), ..Default::default() }),
        relay: Some(JsoncRelay {
            relay_type: text("ch340"),
            reset_ch: Some(0),
            power_ch: Some(2),
            power_off_time_ms: Some(3000),
            ..Default::default()
        }),
        monitor: Some(JsoncMonitor {
            hang_timeout: Some(30),
            learner_stage_threshold: threshold("0.5", RealSign::Positive),
            learner_crash_threshold: threshold("0", RealSign::NotPositive),
            crash_keywords: Some(vec!["Kernel panic".to_string(), "a\\b\"c".to_string()]),
            ..Default::default()
        }),
        flash: Some(JsoncFlash {
            tool: text("flasher"),
            full_image_cmd: text("flash {image}"),
            ..Default::default()
        }),
        control: Some(JsoncControl { dev_ctrl: text("") }),
        loader: text("uboot"),
        reference_log: text("ref.log"),
        dut_dir: text(".dut"),
        ..Default::default()
    }
}

/// What the text of the board keeps of it.
fn kept_board() -> JsoncDut {
    let mut d = full_board();
    d.serial.as_mut().unwrap().tx_repeat = None;
    d.target.as_mut().unwrap().login_pass = text("");
    d.relay.as_mut().unwrap().reset_ch = None;
    d.monitor.as_mut().unwrap().learner_crash_threshold = None;
    d.flash.as_mut().unwrap().tool = None;
    d
}

fn full_host() -> JsoncDevHost {
    JsoncDevHost {
        host_name: text(""),
        ip: text("10.0.0.1"),
        user: None,
        pass: text("p"),
        duts: vec![full_board()],
    }
}

fn kept_host() -> JsoncDevHost {
    JsoncDevHost {
        host_name: None,
        ip: text("10.0.0.1"),
        user: text(""),
        pass: text("p"),
        duts: vec![kept_board()],
    }
}

#[test]
fn written_configuration_reads_as_what_is_kept() {
    let config = TargetJsoncConfig {
        dev_hosts: vec![full_host()],
        serial: Some(JsoncSerial {
            baudrate: Some(NumberOrString::Int(921600)),
            ..Default::default()
        }),
        control: Some(JsoncControl { dev_ctrl: None }),
        loader: text("uefi"),
        lock_dir: text("/tmp/locks"),
        ..Default::default()
    };
    let read = parse_jsonc_text(&render_jsonc(&config, true)).unwrap();
    assert_eq!(read.dev_hosts, vec![kept_host()]);
    assert_eq!(read.serial, config.serial);
    assert_eq!(read.control, config.control);
    assert_eq!(read.loader, config.loader);
    assert_eq!(read.lock_dir, config.lock_dir);
    assert_eq!(read.target, None);
}

#[test]
fn written_configuration_reads_with_hints_too() {
    let config = TargetJsoncConfig { dev_hosts: vec![full_host()], ..Default::default() };
    let hinted = render_jsonc(&config, true);
    assert!(hinted.contains("// Global fallbacks (optional)"));
    let read = parse_jsonc_text(&hinted).unwrap();
    assert_eq!(read, parse_jsonc_text(&render_jsonc(&config, false)).unwrap());
    assert_eq!(read.dev_hosts, vec![kept_host()]);
}

#[test]
fn number_without_fraction_reads_as_whole_number() {
    let mut host = full_host();
    host.duts[0].serial.as_mut().unwrap().baudrate = Some(NumberOrString::Float("1e3".into()));
    host.duts[0].serial.as_mut().unwrap().port = Some(NumberOrString::Float("7".into()));
    let config = TargetJsoncConfig { dev_hosts: vec![host], ..Default::default() };
    let read = parse_jsonc_text(&render_jsonc(&config, false)).unwrap();
    let serial = read.dev_hosts[0].duts[0].serial.as_ref().unwrap();
    assert_eq!(serial.port, Some(NumberOrString::Int(7)));
    assert_eq!(serial.baudrate, Some(NumberOrString::Float("1000".into())));
}

#[test]
fn number_that_json_cannot_spell_is_not_read() {
    let mut host = full_host();
    host.duts[0].serial.as_mut().unwrap().baudrate = Some(NumberOrString::Float("inf".into()));
    let config = TargetJsoncConfig { dev_hosts: vec![host], ..Default::default() };
    assert!(parse_jsonc_text(&render_jsonc(&config, false)).is_err());
}

#[test]
fn top_level_paths_are_read_back() {
    let config = TargetJsoncConfig {
        reference_log: text("ref.log"),
        dut_dir: text("/duts"),
        lock_dir: text("/l"),
        ..Default::default()
    };
    for hints in [false, true] {
        let read = parse_jsonc_text(&render_jsonc(&config, hints)).unwrap();
        assert_eq!(read.reference_log, text("ref.log"));
        assert_eq!(read.dut_dir, text("/duts"));
        assert_eq!(read.lock_dir, text("/l"));
    }
    let alone = TargetJsoncConfig { reference_log: text("ref.log"), ..Default::default() };
    assert_eq!(
        parse_jsonc_text(&render_jsonc(&alone, false)).unwrap().reference_log,
        text("ref.log")
    );
}

#[test]
fn keys_are_filed_by_the_object_around_them() {
    let spans = scan_jsonc("{\"a\":{\"b\":1}}");
    let keys: Vec<(usize, String, (usize, usize))> =
        spans.keys.iter().map(|(p, k, at)| (p.len(), k.clone(), *at)).collect();
    assert_eq!(keys, vec![(0, "a".to_string(), (1, 4)), (1, "b".to_string(), (6, 9))]);
    assert_eq!(spans.keys[1].0, vec![key("a")]);
    assert_eq!(spans.values.len(), 1);
    assert_eq!(spans.values[0], (vec![key("a"), key("b")], (10, 11)));
    assert_eq!(spans.opens, vec![(vec![], 0), (vec![key("a")], 5)]);
    assert_eq!(spans.closes, vec![(vec![key("a")], 11), (vec![], 12)]);
}

#[test]
fn comma_is_due_whatever_a_comment_ends_with() {
    for before in ["{\"a\":1//{\n}", "{\"a\":1/*[*/\n}", "{\"a\":1,//x\n}", "{//,\n}"] {
        let op = EditOp::AppendBlock { path: vec![], block: "\"z\": 2".to_string() };
        let after = apply_edit(before, &op).unwrap();
        let read = parse_jsonc_value(&after).unwrap();
        assert_eq!(members(&read).last().unwrap().1, Json::Number("2".to_string()), "{after}");
    }
}

#[test]
fn scalar_is_set_back() {
    let before = "{ /* \"a\": 0 */ \"a\" : -1.5e3/* n */, \"b\": [ true,\"x\\\"y\" ] }";
    for (path, literal) in [
        (vec![key("a")], "\"long text\""),
        (vec![key("b"), PathSeg::Index(0)], "17"),
        (vec![key("b"), PathSeg::Index(1)], "null"),
    ] {
        let (a, b) = locate_value(before, &path).unwrap();
        let set = EditOp::SetScalar { path: path.clone(), literal: literal.to_string() };
        let after = apply_edit(before, &set).unwrap();
        assert_eq!(locate_value(&after, &path), Some((a, a + literal.len())));
        let back = EditOp::SetScalar { path, literal: before[a..b].to_string() };
        assert_eq!(apply_edit(&after, &back).unwrap(), before);
    }
}

const DOCUMENT: &str = "// head\n{\n  \"a\": 1, // one\n  \"b\": { \"c\": [true, \"x\"], /* d */ \"e\": null },\n  \"f\": []\n}\n";

#[test]
fn values_are_found_where_they_stand() {
    let at = |path: &[PathSeg]| {
        locate_value(DOCUMENT, path).map(|(a, b)| DOCUMENT[a..b].to_string())
    };
    assert_eq!(at(&[key("a")]), text("1"));
    assert_eq!(at(&[key("b"), key("c"), PathSeg::Index(1)]), text("\"x\""));
    assert_eq!(at(&[key("b"), key("e")]), text("null"));
    assert_eq!(at(&[key("b")]), None);
    assert_eq!(at(&[key("f"), PathSeg::Index(0)]), None);
    assert_eq!(at(&[key("d")]), None);
    let path = [key("b"), key("c")];
    let open = locate_container_open(DOCUMENT, &path).unwrap();
    let close = locate_container_close(DOCUMENT, &path).unwrap();
    assert_eq!(&DOCUMENT[open..=close], "[true, \"x\"]");
    assert_eq!(locate_container_open(DOCUMENT, &[]).unwrap(), 8);
}

fn members(j: &Json) -> &Vec<(String, Json)> {
    match j {
        Json::Object(m) => m,
        _ => panic!("no object"),
    }
}

#[test]
fn set_value_changes_that_value_only() {
    let op = EditOp::SetScalar {
        path: vec![key("b"), key("c"), PathSeg::Index(0)],
        literal: "-2.5e3".to_string(),
    };
    let t = apply_edit(DOCUMENT, &op).unwrap();
    assert_eq!(t, DOCUMENT.replace("[true,", "[-2.5e3,"));
    let j = parse_jsonc_value(&t).unwrap();
    let m = members(&j);
    assert_eq!(m[0], ("a".to_string(), Json::Number("1".to_string())));
    let b = members(&m[1].1);
    assert_eq!(
        b[0].1,
        Json::Array(vec![Json::Number("-2.5e3".to_string()), Json::Text("x".to_string())])
    );
    assert_eq!(b[1].1, Json::Null);
    assert_eq!(m[2].1, Json::Array(Vec::new()));
}

#[test]
fn replaced_container_changes_that_value_only() {
    let op = EditOp::ReplaceContainer {
        path: vec![key("b"), key("c")],
        literal: "{ \"n\": 2 }".to_string(),
    };
    let t = apply_edit(DOCUMENT, &op).unwrap();
    let j = parse_jsonc_value(&t).unwrap();
    let m = members(&j);
    let b = members(&m[1].1);
    assert_eq!(
        b[0].1,
        Json::Object(vec![("n".to_string(), Json::Number("2".to_string()))])
    );
    assert_eq!(b[1].1, Json::Null);
    assert_eq!(m[0].1, Json::Number("1".to_string()));
}

#[test]
fn appended_members_are_read_behind_the_others() {
    let op = EditOp::AppendBlock {
        path: vec![key("b")],
        block: "    \"g\": \"new\",".to_string(),
    };
    let t = apply_edit(DOCUMENT, &op).unwrap();
    let j = parse_jsonc_value(&t).unwrap();
    let m = members(&j);
    let b = members(&m[1].1);
    assert_eq!(b.len(), 3);
    assert_eq!(b[2], ("g".to_string(), Json::Text("new".to_string())));
    assert_eq!(b[1].1, Json::Null);
    assert_eq!(m.len(), 3);
}

const HOSTS: &str = "{\n  \"dev_hosts\": [\n    { \"ip\": \"10.0.0.9\", \"duts\": [] } // last\n  ]\n}\n";

#[test]
fn appended_host_and_board_are_read_as_what_is_kept() {
    let ops = vec![EditOp::AppendBlock {
        path: vec![key("dev_hosts")],
        block: render_host_block(&full_host(), 4),
    }];
    let t = apply_edits(HOSTS, &ops).unwrap();
    let read = parse_jsonc_text(&t).unwrap();
    assert_eq!(read.dev_hosts.len(), 2);
    assert_eq!(read.dev_hosts[0].ip, text("10.0.0.9"));
    assert_eq!(read.dev_hosts[1], kept_host());
    let more = vec![EditOp::AppendBlock {
        path: vec![key("dev_hosts"), PathSeg::Index(0), key("duts")],
        block: render_dut_block(&full_board(), 8),
    }];
    let u = apply_edits(&t, &more).unwrap();
    let again = parse_jsonc_text(&u).unwrap();
    assert_eq!(again.dev_hosts[0].duts, vec![kept_board()]);
    assert_eq!(again.dev_hosts[1], kept_host());
}

#[test]
fn settled_configuration_is_left_to_the_letter() {
    let before = "{\n  // mine\n  \"dev_hosts\": [\n    { \"ip\": \"10.0.0.1\", \"user\": \"u\", \"pass\": \"\", \"duts\": [\n      { \"dut_name\": \"b1\", \"serial\": { \"port\": 41000, \"baudrate\": 460800 } },\n      { \"dut_name\": \"b2\", \"serial\": { \"port\": 41001, \"baudrate\": 460800 } }\n    ] }\n  ]\n}\n";
    let opts = InitOptions { non_interactive: true, ..Default::default() };
    let mut prepared =
        prepare_init("/p/.target.jsonc".to_string(), Some(before.to_string()), &opts).unwrap();
    let mut io = CannedIO::new(&[], Vec::new(), Vec::new());
    let answers = gather_answers(&mut io, &opts, &mut prepared.schema).unwrap();
    let held: Vec<HeldEndpoint> = Vec::new();
    let pending = finish_init(&mut io, &opts, &prepared, &answers, &held).unwrap();
    assert_eq!(pending.text, None);
    assert_eq!(answers.hosts[0].duts[0].dut_name, "b1");
    assert_eq!(answers.hosts[0].duts[1].dut_name, "b2");
}

const LINES: &str = "{\n  \"a\": 1, // one\n  \"b\": {\n    \"c\": true, /* yes */\n    \"d\": [1, 2]\n  }, // b\n  \"e\": \"x\"\n}\n";

#[test]
fn inserted_members_are_read_above_the_anchor() {
    let op = EditOp::InsertBefore {
        path: Vec::new(),
        key: "b".to_string(),
        block: "  \"n\": 7, // new".to_string(),
    };
    let t = apply_edit(LINES, &op).unwrap();
    let j = parse_jsonc_value(&t).unwrap();
    let m = members(&j);
    let names: Vec<&str> = m.iter().map(|x| x.0.as_str()).collect();
    assert_eq!(names, vec!["a", "n", "b", "e"]);
    assert_eq!(m[1].1, Json::Number("7".to_string()));
    assert_eq!(members(&m[2].1).len(), 2);
    assert!(t.contains("\"a\": 1, // one\n  \"n\": 7, // new\n  \"b\": {"));
}

#[test]
fn member_above_one_that_shares_its_line_is_appended() {
    let op = EditOp::InsertBefore {
        path: Vec::new(),
        key: "b".to_string(),
        block: "  \"n\": 7,".to_string(),
    };
    let t = apply_edit("{ \"a\": 1, \"b\": 2 }", &op).unwrap();
    let j = parse_jsonc_value(&t).unwrap();
    let names: Vec<&str> = members(&j).iter().map(|x| x.0.as_str()).collect();
    assert_eq!(names, vec!["a", "b", "n"]);
}

#[test]
fn removed_members_are_gone_and_the_rest_stays() {
    let first = EditOp::RemoveKey { path: Vec::new(), key: "a".to_string() };
    let t = apply_edit(LINES, &first).unwrap();
    let j = parse_jsonc_value(&t).unwrap();
    let names: Vec<&str> = members(&j).iter().map(|x| x.0.as_str()).collect();
    assert_eq!(names, vec!["b", "e"]);
    let last = EditOp::RemoveKey { path: Vec::new(), key: "e".to_string() };
    let u = apply_edit(&t, &last).unwrap();
    let k = parse_jsonc_value(&u).unwrap();
    assert_eq!(members(&k).len(), 1);
    assert_eq!(members(&k)[0], members(&j)[0]);
}

#[test]
fn written_value_is_what_the_document_says() {
    let mut ops: Vec<OpWithDesc> = Vec::new();
    let b = vec![key("b")];
    for (name, literal) in [("c", "\"set\""), ("d", "{ \"n\": 1 }"), ("f", "[3]")] {
        let edit = ScalarEdit {
            key: name,
            literal,
            comment: Some("note"),
            desc: name.to_string(),
            before: None,
        };
        set_or_append_key(LINES, &mut ops, &b, edit).unwrap();
    }
    let anchored = ScalarEdit {
        key: "z",
        literal: "null",
        comment: None,
        desc: "z".to_string(),
        before: Some("e"),
    };
    set_or_append_key(LINES, &mut ops, &[], anchored).unwrap();
    assert!(matches!(ops[0].op, EditOp::SetScalar { .. }));
    assert!(matches!(ops[1].op, EditOp::ReplaceContainer { .. }));
    assert!(matches!(ops[2].op, EditOp::AppendBlock { .. }));
    assert!(matches!(ops[3].op, EditOp::InsertBefore { .. }));
    let mut t = LINES.to_string();
    for o in &ops {
        t = apply_edit(&t, &o.op).unwrap();
    }
    let j = parse_jsonc_value(&t).unwrap();
    let m = members(&j);
    let names: Vec<&str> = m.iter().map(|x| x.0.as_str()).collect();
    assert_eq!(names, vec!["a", "b", "z", "e"]);
    assert_eq!(m[2].1, Json::Null);
    let inside = members(&m[1].1);
    assert_eq!(inside[0].1, Json::Text("set".to_string()));
    assert_eq!(members(&inside[1].1)[0].1, Json::Number("1".to_string()));
    assert_eq!(
        inside[2],
        ("f".to_string(), Json::Array(vec![Json::Number("3".to_string())]))
    );
}

#[test]
fn name_that_occurs_twice_is_no_configuration() {
    assert!(parse_jsonc_text("{ \"loader\": \"uboot\", \"loader\": \"uefi\" }").is_err());
    assert!(parse_jsonc_text("{ \"serial\": { \"port\": 1, \"port\": 2 } }").is_err());
    // Downloader settings may be any value.
    assert!(parse_jsonc_text("{ \"download\": { \"a\": 1, \"a\": 2 } }").is_ok());
}

fn board_answers(name: &str, port: &str, user: &str) -> DutAnswers {
    DutAnswers {
        dut_name: name.to_string(),
        serial_port: port.to_string(),
        login_user: user.to_string(),
        relay_gate: false,
        relay_type: String::new(),
        relay_port: String::new(),
        relay_reset_ch: String::new(),
        relay_download_ch: String::new(),
        relay_power_ch: String::new(),
        relay_reset_time_ms: String::new(),
        relay_power_off_time_ms: String::new(),
        advanced: TextMap::new(),
    }
}

fn site_answers(ip: &str, user: &str, duts: Vec<DutAnswers>) -> HostAnswers {
    HostAnswers {
        ip: ip.to_string(),
        user: user.to_string(),
        pass: String::new(),
        host_name: String::new(),
        duts,
    }
}

const SITES: &str = "{\n  \"dev_hosts\": [\n    {\n      \"ip\": \"10.0.0.1\", // lab\n      \"user\": \"u\",\n      \"pass\": \"\",\n      \"duts\": [\n        { \"dut_name\": \"b1\", \"serial\": { \"port\": 41000 } },\n        {\n          \"dut_name\": \"b2\",\n          \"target\": { \"login_user\": \"pi\" }\n        }\n      ]\n    },\n    { \"ip\": \"10.0.0.2\", \"user\": \"v\", \"pass\": \"\", \"duts\": [] }\n  ],\n  \"lock_dir\": \"/tmp/locks\" // kept\n}\n";

#[test]
fn update_says_every_answer_that_differs() {
    let existing = parse_jsonc_text(SITES).unwrap();
    let answers = WizardAnswers {
        hosts: vec![
            site_answers(
                "10.0.0.9",
                "u",
                vec![
                    board_answers("b1", "/dev/ttyS1", "root"),
                    board_answers("second", "41001", "root"),
                    board_answers("third", "41002", "pi"),
                ],
            ),
            site_answers("10.0.0.2", "w", Vec::new()),
            site_answers("10.0.0.3", "x", vec![board_answers("far", "1.5", "root")]),
        ],
        advanced: TextMap::new(),
        announcements: Vec::new(),
    };
    let ops = compute_update_ops(SITES, &existing, &answers).unwrap();
    let edits: Vec<EditOp> = ops.into_iter().map(|o| o.op).collect();
    let t = apply_edits(SITES, &edits).unwrap();
    assert!(t.contains("\"ip\": \"10.0.0.9\", // lab"));
    assert!(t.contains("\"lock_dir\": \"/tmp/locks\" // kept"));
    let c = parse_jsonc_text(&t).unwrap();
    assert_eq!(c.dev_hosts.len(), 3);
    let first = &c.dev_hosts[0];
    assert_eq!(first.ip, text("10.0.0.9"));
    assert_eq!(first.user, text("u"));
    assert_eq!(first.duts.len(), 3);
    assert_eq!(
        first.duts[0].serial.as_ref().unwrap().port,
        Some(NumberOrString::String("/dev/ttyS1".to_string()))
    );
    assert_eq!(first.duts[0].target, None);
    assert_eq!(first.duts[1].dut_name, "second");
    assert_eq!(first.duts[1].serial.as_ref().unwrap().port, Some(NumberOrString::Int(41001)));
    assert_eq!(first.duts[1].target.as_ref().unwrap().login_user, text("root"));
    assert_eq!(first.duts[2].dut_name, "third");
    assert_eq!(c.dev_hosts[1].user, text("w"));
    assert_eq!(c.dev_hosts[2].ip, text("10.0.0.3"));
    assert_eq!(
        c.dev_hosts[2].duts[0].serial.as_ref().unwrap().port,
        Some(NumberOrString::Float("1.5".to_string()))
    );
    assert_eq!(c.lock_dir, text("/tmp/locks"));
}

#[test]
fn update_without_hosts_takes_all_hosts_out() {
    let existing = parse_jsonc_text(SITES).unwrap();
    let answers =
        WizardAnswers { hosts: Vec::new(), advanced: TextMap::new(), announcements: Vec::new() };
    let ops = compute_update_ops(SITES, &existing, &answers).unwrap();
    assert_eq!(ops.len(), 1);
    let t = apply_edit(SITES, &ops[0].op).unwrap();
    let c = parse_jsonc_text(&t).unwrap();
    assert!(c.dev_hosts.is_empty());
    assert_eq!(c.lock_dir, text("/tmp/locks"));
}

#[test]
fn update_says_relay_and_advanced_answers() {
    let before = "{\n  \"dev_hosts\": [\n    {\n      \"ip\": \"10.0.0.1\",\n      \"user\": \"u\",\n      \"pass\": \"\",\n      \"duts\": [\n        {\n          \"dut_name\": \"b1\",\n          \"serial\": { \"port\": 41000 },\n          \"relay\": { \"type\": \"ch340\", \"reset_ch\": 1 }\n        },\n        { \"dut_name\": \"b2\", \"serial\": { \"port\": 41001 } }\n      ]\n    }\n  ]\n}\n";
    let existing = parse_jsonc_text(before).unwrap();
    let mut first = board_answers("b1", "41000", "root");
    first.relay_gate = true;
    first.relay_type = "ch340".to_string();
    first.relay_reset_ch = "2".to_string();
    first.relay_power_off_time_ms = "10".to_string();
    first.advanced.insert("serial.baudrate", "115200".to_string());
    first.advanced.insert("target.login_pass", "pw".to_string());
    first.advanced.insert("loader", "uefi".to_string());
    let mut second = board_answers("b2", "41001", "root");
    second.relay_gate = true;
    second.relay_type = "none".to_string();
    second.advanced.insert("monitor.crash_keywords", "panic, oops".to_string());
    second.advanced.insert("flash.loader_bin", "x.bin".to_string());
    second.advanced.insert("flash.full_image_cmd", "flash {image}".to_string());
    let answers = WizardAnswers {
        hosts: vec![site_answers("10.0.0.1", "u", vec![first, second])],
        advanced: TextMap::new(),
        announcements: Vec::new(),
    };
    let ops = compute_update_ops(before, &existing, &answers).unwrap();
    let edits: Vec<EditOp> = ops.into_iter().map(|o| o.op).collect();
    let t = apply_edits(before, &edits).unwrap();
    let c = parse_jsonc_text(&t).unwrap();
    let d = &c.dev_hosts[0].duts[0];
    let relay = d.relay.as_ref().unwrap();
    assert_eq!(relay.relay_type, text("ch340"));
    assert_eq!(relay.reset_ch, Some(2));
    assert_eq!(relay.power_off_time_ms, Some(3000));
    let serial = d.serial.as_ref().unwrap();
    assert_eq!(serial.port, Some(NumberOrString::Int(41000)));
    assert_eq!(serial.baudrate, Some(NumberOrString::Int(115200)));
    assert_eq!(d.target.as_ref().unwrap().login_pass, text("pw"));
    assert_eq!(d.loader, text("uefi"));
    let e = &c.dev_hosts[0].duts[1];
    assert_eq!(e.relay.as_ref().unwrap().relay_type, text("none"));
    assert_eq!(
        e.monitor.as_ref().unwrap().crash_keywords,
        Some(vec!["panic".to_string(), "oops".to_string()])
    );
    assert_eq!(e.flash.as_ref().unwrap().loader_bin, text("x.bin"));
    assert_eq!(e.flash.as_ref().unwrap().full_image_cmd, text("flash {image}"));
}

#[test]
fn update_says_top_level_answers() {
    let before = "{\n  \"dev_hosts\": [],\n  \"serial\": { \"rfc2217\": true }, // shared\n  \"lock_dir\": \"/tmp/a\"\n}\n";
    let existing = parse_jsonc_text(before).unwrap();
    let mut advanced = TextMap::new();
    advanced.insert("serial.rfc2217", "no".to_string());
    advanced.insert("monitor.hang_timeout", "30".to_string());
    advanced.insert("lock_dir", "/tmp/b".to_string());
    advanced.insert("monitor.hang_hysteresis", "5".to_string());
    let answers = WizardAnswers {
        hosts: vec![site_answers("10.0.0.1", "u", vec![board_answers("b1", "41000", "root")])],
        advanced,
        announcements: Vec::new(),
    };
    let ops = compute_update_ops(before, &existing, &answers).unwrap();
    let edits: Vec<EditOp> = ops.into_iter().map(|o| o.op).collect();
    let t = apply_edits(before, &edits).unwrap();
    assert!(t.contains("// shared"));
    let c = parse_jsonc_text(&t).unwrap();
    assert_eq!(c.dev_hosts.len(), 1);
    assert_eq!(c.serial.unwrap().rfc2217, Some(false));
    let monitor = c.monitor.unwrap();
    assert_eq!(monitor.hang_timeout, Some(30));
    assert_eq!(monitor.hang_hysteresis, Some(5));
    assert_eq!(c.lock_dir, text("/tmp/b"));
}

#[test]
fn section_that_two_answers_add_is_added_once() {
    let before = "{\n  \"dev_hosts\": [\n    {\n      \"ip\": \"10.0.0.1\",\n      \"user\": \"u\",\n      \"pass\": \"\",\n      \"duts\": [\n        { \"dut_name\": \"b1\" }\n      ]\n    }\n  ]\n}\n";
    let existing = parse_jsonc_text(before).unwrap();
    let mut board = board_answers("b1", "41000", "root");
    board.advanced.insert("serial.baudrate", "115200".to_string());
    let answers = WizardAnswers {
        hosts: vec![site_answers("10.0.0.1", "u", vec![board])],
        advanced: TextMap::new(),
        announcements: Vec::new(),
    };
    let ops = compute_update_ops(before, &existing, &answers).unwrap();
    let edits: Vec<EditOp> = ops.into_iter().map(|o| o.op).collect();
    let t = apply_edits(before, &edits).unwrap();
    assert_eq!(t.matches("\"serial\"").count(), 1, "{t}");
    let c = parse_jsonc_text(&t).unwrap();
    let serial = c.dev_hosts[0].duts[0].serial.as_ref().unwrap();
    assert_eq!(serial.port, Some(NumberOrString::Int(41000)));
    assert_eq!(serial.baudrate, Some(NumberOrString::Int(115200)));
}

#[test]
fn update_takes_values_out_and_puts_texts_above_the_boards() {
    let before = "{\n  \"dev_hosts\": [\n    {\n      \"ip\": \"10.0.0.1\", // lab\n      \"user\": \"u\",\n      \"pass\": \"\",\n      \"duts\": [\n        {\n          \"dut_name\": \"b1\",\n          \"serial\": {\n            \"port\": 41000,\n            \"baudrate\": 9600\n          },\n          \"target\": { \"login_user\": \"root\" }\n        }\n      ]\n    }\n  ],\n  \"monitor\": {\n    \"hang_timeout\": 30,\n    \"hang_hysteresis\": 5\n  }\n}\n";
    let existing = parse_jsonc_text(before).unwrap();
    let mut board = board_answers("b1", "41001", "root");
    board.advanced.insert("serial.baudrate", "".to_string());
    let mut host = site_answers("10.0.0.1", "u", vec![board]);
    host.host_name = "lab".to_string();
    let mut advanced = TextMap::new();
    advanced.insert("monitor.hang_timeout", "".to_string());
    advanced.insert("monitor.hang_hysteresis", "6".to_string());
    let answers = WizardAnswers { hosts: vec![host], advanced, announcements: Vec::new() };
    let ops = compute_update_ops(before, &existing, &answers).unwrap();
    let edits: Vec<EditOp> = ops.into_iter().map(|o| o.op).collect();
    assert!(edits.iter().any(|e| matches!(e, EditOp::InsertBefore { .. })));
    assert_eq!(edits.iter().filter(|e| matches!(e, EditOp::RemoveKey { .. })).count(), 2);
    let t = apply_edits(before, &edits).unwrap();
    assert!(t.contains("// lab"));
    let c = parse_jsonc_text(&t).unwrap();
    assert_eq!(c.dev_hosts[0].host_name, text("lab"));
    assert_eq!(c.dev_hosts[0].ip, text("10.0.0.1"));
    let serial = c.dev_hosts[0].duts[0].serial.as_ref().unwrap();
    assert_eq!(serial.port, Some(NumberOrString::Int(41001)));
    assert_eq!(serial.baudrate, None);
    let monitor = c.monitor.unwrap();
    assert_eq!(monitor.hang_timeout, None);
    assert_eq!(monitor.hang_hysteresis, Some(6));
}

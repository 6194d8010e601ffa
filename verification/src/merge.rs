//! Putting answers to advanced keys into the sections of a configuration.
//!
//! A zero or an empty answer means that the value is inherited: it is not put
//! in.
use crate::advanced::{
    advanced_field, field_of, invalid_answer, invalid_text, is_text_key, keywords, literal_of,
    parse_number_or_string, parse_truth, scalar_of, section_of, split_keywords, truth_of,
    unknown_key, unknown_key_text,
};
use crate::config::{
    no_control, no_flash, no_monitor, no_relay, no_serial, no_target, no_uboot, ConfigView,
    ControlView, DutView, FlashView, JsoncControl, JsoncDut, JsoncFlash, JsoncMonitor, JsoncRelay,
    JsoncSerial, JsoncTarget, JsoncUboot, MonitorView, RelayView, SerialView, TargetJsoncConfig,
    TargetView, UbootView,
};
use crate::number::{parse_real, parse_unsigned, real_value, unsigned, RealSign};
use crate::text::{opt_text, owned, same, texts, trim, trimmed};
use crate::text_map::{Pairs, TextMap};
use vstd::prelude::*;

verus! {

// ── One answer, one section ──────────────────────────────────────────
/// The serial section with an answer put in, and why the answer was refused.
pub open spec fn merged_serial(
    s: SerialView,
    key: Seq<char>,
    field: Seq<char>,
    value: Seq<char>,
) -> (SerialView, Option<Seq<char>>) {
    if field == "baudrate"@ {
        (SerialView { baudrate: Some(scalar_of(value)), ..s }, None)
    } else if field == "rfc2217"@ {
        match truth_of(trimmed(value)) {
            Some(b) => (SerialView { rfc2217: Some(b), ..s }, None),
            None => (s, Some(invalid_answer(key, "bool"@, value))),
        }
    } else {
        (s, Some(unknown_key(key)))
    }
}

fn merge_serial(s: &mut JsoncSerial, key: &str, field: &str, value: &str) -> (r: Option<String>)
    ensures
        (final(s)@, opt_text(r)) == merged_serial(old(s)@, key@, field@, value@),
{
    if same(field, "baudrate") {
        match parse_number_or_string(value) {
            Ok(n) => {
                s.baudrate = Some(n);
                None
            },
            Err(e) => Some(e),
        }
    } else if same(field, "rfc2217") {
        match parse_truth(trim(value)) {
            Some(b) => {
                s.rfc2217 = Some(b);
                None
            },
            None => Some(invalid_text(key, "bool", value)),
        }
    } else {
        Some(unknown_key_text(key))
    }
}

/// The target section with an answer put in, and why the answer was refused.
pub open spec fn merged_target(
    t: TargetView,
    key: Seq<char>,
    field: Seq<char>,
    value: Seq<char>,
) -> (TargetView, Option<Seq<char>>) {
    if field == "login_pass"@ {
        (TargetView { login_pass: Some(trimmed(value)), ..t }, None)
    } else if field == "login_prompt"@ {
        (TargetView { login_prompt: Some(trimmed(value)), ..t }, None)
    } else {
        (t, Some(unknown_key(key)))
    }
}

fn merge_target(t: &mut JsoncTarget, key: &str, field: &str, value: &str) -> (r: Option<String>)
    ensures
        (final(t)@, opt_text(r)) == merged_target(old(t)@, key@, field@, value@),
{
    let v = Some(owned(trim(value)));
    if same(field, "login_pass") {
        t.login_pass = v;
        None
    } else if same(field, "login_prompt") {
        t.login_prompt = v;
        None
    } else {
        Some(unknown_key_text(key))
    }
}

/// The loader section with an answer put in, and why the answer was refused.
pub open spec fn merged_uboot(
    u: UbootView,
    key: Seq<char>,
    field: Seq<char>,
    value: Seq<char>,
) -> (UbootView, Option<Seq<char>>) {
    if field == "interrupt_char"@ {
        (UbootView { interrupt_char: Some(trimmed(value)), ..u }, None)
    } else if field == "interrupt_strategy"@ {
        (UbootView { interrupt_strategy: Some(trimmed(value)), ..u }, None)
    } else if field == "pattern"@ {
        (UbootView { pattern: Some(trimmed(value)), ..u }, None)
    } else {
        (u, Some(unknown_key(key)))
    }
}

fn merge_uboot(u: &mut JsoncUboot, key: &str, field: &str, value: &str) -> (r: Option<String>)
    ensures
        (final(u)@, opt_text(r)) == merged_uboot(old(u)@, key@, field@, value@),
{
    let v = Some(owned(trim(value)));
    if same(field, "interrupt_char") {
        u.interrupt_char = v;
        None
    } else if same(field, "interrupt_strategy") {
        u.interrupt_strategy = v;
        None
    } else if same(field, "pattern") {
        u.pattern = v;
        None
    } else {
        Some(unknown_key_text(key))
    }
}

/// The relay section with an answer put in, and why the answer was refused.
pub open spec fn merged_relay(
    r: RelayView,
    key: Seq<char>,
    field: Seq<char>,
    value: Seq<char>,
) -> (RelayView, Option<Seq<char>>) {
    let t = trimmed(value);
    if field == "port"@ {
        match unsigned(t, u16::MAX as nat) {
            Some(n) => if n > 0 {
                (RelayView { port: Some(n as u16), ..r }, None)
            } else {
                (r, None)
            },
            None => (r, Some(invalid_answer(key, "port"@, value))),
        }
    } else if field == "reset_ch"@ || field == "download_ch"@ || field == "power_ch"@ {
        match unsigned(t, u8::MAX as nat) {
            Some(n) => if n == 0 {
                (r, None)
            } else if field == "reset_ch"@ {
                (RelayView { reset_ch: Some(n as u8), ..r }, None)
            } else if field == "download_ch"@ {
                (RelayView { download_ch: Some(n as u8), ..r }, None)
            } else {
                (RelayView { power_ch: Some(n as u8), ..r }, None)
            },
            None => (r, Some(invalid_answer(key, "channel"@, value))),
        }
    } else if field == "reset_time_ms"@ {
        match unsigned(t, u64::MAX as nat) {
            Some(n) => if n > 0 {
                (RelayView { reset_time_ms: Some(n as u64), ..r }, None)
            } else {
                (r, None)
            },
            None => (r, Some(invalid_answer(key, "ms"@, value))),
        }
    } else if field == "power_off_time_ms"@ {
        match unsigned(t, u64::MAX as nat) {
            Some(n) => if n >= 3000 {
                (RelayView { power_off_time_ms: Some(n as u64), ..r }, None)
            } else if n > 0 {
                (RelayView { power_off_time_ms: Some(3000), ..r }, None)
            } else {
                (r, None)
            },
            None => (r, Some(invalid_answer(key, "ms"@, value))),
        }
    } else {
        (r, Some(unknown_key(key)))
    }
}

fn merge_relay(x: &mut JsoncRelay, key: &str, field: &str, value: &str) -> (r: Option<String>)
    ensures
        (final(x)@, opt_text(r)) == merged_relay(old(x)@, key@, field@, value@),
{
    let t = trim(value);
    if same(field, "port") {
        match parse_unsigned(t, 65535) {
            Some(n) => {
                if n > 0 {
                    x.port = Some(n as u16);
                }
                None
            },
            None => Some(invalid_text(key, "port", value)),
        }
    } else if same(field, "reset_ch") || same(field, "download_ch") || same(field, "power_ch") {
        match parse_unsigned(t, 255) {
            Some(n) => {
                if n == 0 {
                } else if same(field, "reset_ch") {
                    x.reset_ch = Some(n as u8);
                } else if same(field, "download_ch") {
                    x.download_ch = Some(n as u8);
                } else {
                    x.power_ch = Some(n as u8);
                }
                None
            },
            None => Some(invalid_text(key, "channel", value)),
        }
    } else if same(field, "reset_time_ms") {
        match parse_unsigned(t, u64::MAX) {
            Some(n) => {
                if n > 0 {
                    x.reset_time_ms = Some(n);
                }
                None
            },
            None => Some(invalid_text(key, "ms", value)),
        }
    } else if same(field, "power_off_time_ms") {
        match parse_unsigned(t, u64::MAX) {
            Some(n) => {
                if n >= 3000 {
                    x.power_off_time_ms = Some(n);
                } else if n > 0 {
                    x.power_off_time_ms = Some(3000);
                }
                None
            },
            None => Some(invalid_text(key, "ms", value)),
        }
    } else {
        Some(unknown_key_text(key))
    }
}

/// The monitor section with an answer put in, and why the answer was refused.
pub open spec fn merged_monitor(
    m: MonitorView,
    key: Seq<char>,
    field: Seq<char>,
    value: Seq<char>,
) -> (MonitorView, Option<Seq<char>>) {
    let t = trimmed(value);
    let n = unsigned(t, u64::MAX as nat);
    if field == "hang_timeout"@ {
        match n {
            Some(k) => (MonitorView { hang_timeout: Some(k as u64), ..m }, None),
            None => (m, Some(invalid_answer(key, "seconds"@, value))),
        }
    } else if field == "hang_hysteresis"@ {
        match n {
            Some(k) => (MonitorView { hang_hysteresis: Some(k as u64), ..m }, None),
            None => (m, Some(invalid_answer(key, "count"@, value))),
        }
    } else if field == "max_archived_logs"@ {
        match n {
            Some(k) => (MonitorView { max_archived_logs: Some(k as u64), ..m }, None),
            None => (m, Some(invalid_answer(key, "count"@, value))),
        }
    } else if field == "max_log_file_size"@ {
        match n {
            Some(k) => (MonitorView { max_log_file_size: Some(k as u64), ..m }, None),
            None => (m, Some(invalid_answer(key, "MB"@, value))),
        }
    } else if field == "reference_log"@ {
        (MonitorView { reference_log: Some(t), ..m }, None)
    } else if field == "learner_stage_threshold"@ {
        match real_value(t) {
            Some(x) => if x.sign == RealSign::Positive {
                (MonitorView { learner_stage_threshold: Some(x), ..m }, None)
            } else {
                (m, None)
            },
            None => (m, Some(invalid_answer(key, "threshold"@, value))),
        }
    } else if field == "learner_crash_threshold"@ {
        match real_value(t) {
            Some(x) => if x.sign == RealSign::Positive {
                (MonitorView { learner_crash_threshold: Some(x), ..m }, None)
            } else {
                (m, None)
            },
            None => (m, Some(invalid_answer(key, "threshold"@, value))),
        }
    } else if field == "crash_keywords"@ {
        if keywords(value).len() > 0 {
            (MonitorView { crash_keywords: Some(keywords(value)), ..m }, None)
        } else {
            (m, None)
        }
    } else {
        (m, Some(unknown_key(key)))
    }
}

fn merge_monitor(m: &mut JsoncMonitor, key: &str, field: &str, value: &str) -> (r: Option<String>)
    ensures
        (final(m)@, opt_text(r)) == merged_monitor(old(m)@, key@, field@, value@),
{
    let t = trim(value);
    let n = parse_unsigned(t, u64::MAX);
    if same(field, "hang_timeout") {
        match n {
            Some(k) => {
                m.hang_timeout = Some(k);
                None
            },
            None => Some(invalid_text(key, "seconds", value)),
        }
    } else if same(field, "hang_hysteresis") {
        match n {
            Some(k) => {
                m.hang_hysteresis = Some(k);
                None
            },
            None => Some(invalid_text(key, "count", value)),
        }
    } else if same(field, "max_archived_logs") {
        match n {
            Some(k) => {
                m.max_archived_logs = Some(k);
                None
            },
            None => Some(invalid_text(key, "count", value)),
        }
    } else if same(field, "max_log_file_size") {
        match n {
            Some(k) => {
                m.max_log_file_size = Some(k);
                None
            },
            None => Some(invalid_text(key, "MB", value)),
        }
    } else if same(field, "reference_log") {
        m.reference_log = Some(owned(t));
        None
    } else if same(field, "learner_stage_threshold") {
        match parse_real(t) {
            Some(x) => {
                if x.sign == RealSign::Positive {
                    m.learner_stage_threshold = Some(x);
                }
                None
            },
            None => Some(invalid_text(key, "threshold", value)),
        }
    } else if same(field, "learner_crash_threshold") {
        match parse_real(t) {
            Some(x) => {
                if x.sign == RealSign::Positive {
                    m.learner_crash_threshold = Some(x);
                }
                None
            },
            None => Some(invalid_text(key, "threshold", value)),
        }
    } else if same(field, "crash_keywords") {
        let words = split_keywords(value);
        assert(texts(words@).len() == words@.len());
        if words.len() > 0 {
            m.crash_keywords = Some(words);
        }
        None
    } else {
        Some(unknown_key_text(key))
    }
}

/// The flash section with an answer put in, and why the answer was refused.
pub open spec fn merged_flash(
    f: FlashView,
    key: Seq<char>,
    field: Seq<char>,
    value: Seq<char>,
) -> (FlashView, Option<Seq<char>>) {
    let v = Some(trimmed(value));
    if field == "full_image_cmd"@ {
        (FlashView { full_image_cmd: v, ..f }, None)
    } else if field == "kernel_image_cmd"@ {
        (FlashView { kernel_image_cmd: v, ..f }, None)
    } else if field == "loader_bin"@ {
        (FlashView { loader_bin: v, ..f }, None)
    } else if field == "loader_cmd"@ {
        (FlashView { loader_cmd: v, ..f }, None)
    } else if field == "list_devices_cmd"@ {
        (FlashView { list_devices_cmd: v, ..f }, None)
    } else {
        (f, Some(unknown_key(key)))
    }
}

fn merge_flash(f: &mut JsoncFlash, key: &str, field: &str, value: &str) -> (r: Option<String>)
    ensures
        (final(f)@, opt_text(r)) == merged_flash(old(f)@, key@, field@, value@),
{
    let v = Some(owned(trim(value)));
    if same(field, "full_image_cmd") {
        f.full_image_cmd = v;
        None
    } else if same(field, "kernel_image_cmd") {
        f.kernel_image_cmd = v;
        None
    } else if same(field, "loader_bin") {
        f.loader_bin = v;
        None
    } else if same(field, "loader_cmd") {
        f.loader_cmd = v;
        None
    } else if same(field, "list_devices_cmd") {
        f.list_devices_cmd = v;
        None
    } else {
        Some(unknown_key_text(key))
    }
}

/// The control section with an answer put in, and why the answer was refused.
pub open spec fn merged_control(
    c: ControlView,
    key: Seq<char>,
    field: Seq<char>,
    value: Seq<char>,
) -> (ControlView, Option<Seq<char>>) {
    if field == "dev_ctrl"@ {
        (ControlView { dev_ctrl: Some(trimmed(value)), ..c }, None)
    } else {
        (c, Some(unknown_key(key)))
    }
}

fn merge_control(c: &mut JsoncControl, key: &str, field: &str, value: &str) -> (r: Option<String>)
    ensures
        (final(c)@, opt_text(r)) == merged_control(old(c)@, key@, field@, value@),
{
    if same(field, "dev_ctrl") {
        c.dev_ctrl = Some(owned(trim(value)));
        None
    } else {
        Some(unknown_key_text(key))
    }
}

/// A section, or an empty one where there is none.
pub open spec fn or_new<A>(o: Option<A>, empty: A) -> A {
    match o {
        Some(x) => x,
        None => empty,
    }
}

/// The keys of whole numbers of which zero means that they are inherited.
pub open spec fn is_zero_guarded(key: Seq<char>) -> bool {
    key == "relay.port"@ || key == "relay.reset_ch"@ || key == "relay.download_ch"@ || key
        == "relay.power_ch"@ || key == "relay.reset_time_ms"@ || key == "relay.power_off_time_ms"@
        || key == "monitor.hang_timeout"@ || key == "monitor.hang_hysteresis"@ || key
        == "monitor.max_archived_logs"@ || key == "monitor.max_log_file_size"@
}

/// Whether an answer means that the value is inherited: it is empty, it is
/// zero, or it holds no keyword.
pub open spec fn inherits(key: Seq<char>, value: Seq<char>) -> bool {
    let t = trimmed(value);
    ||| t.len() == 0
    ||| is_zero_guarded(key) && unsigned(t, u64::MAX as nat) == Some(0nat)
    ||| (key == "monitor.learner_stage_threshold"@ || key == "monitor.learner_crash_threshold"@) && (
    real_value(t) matches Some(x) && x.sign == RealSign::NotPositive)
    ||| key == "monitor.crash_keywords"@ && keywords(t).len() == 0
}

fn means_inherit(key: &str, value: &str) -> (r: bool)
    ensures
        r == inherits(key@, value@),
{
    let t = trim(value);
    if t.is_empty() {
        return true;
    }
    if same(key, "relay.port") || same(key, "relay.reset_ch") || same(key, "relay.download_ch")
        || same(key, "relay.power_ch") || same(key, "relay.reset_time_ms") || same(
        key,
        "relay.power_off_time_ms",
    ) || same(key, "monitor.hang_timeout") || same(key, "monitor.hang_hysteresis") || same(
        key,
        "monitor.max_archived_logs",
    ) || same(key, "monitor.max_log_file_size") {
        if let Some(n) = parse_unsigned(t, u64::MAX) {
            if n == 0 {
                return true;
            }
        }
    }
    if same(key, "monitor.learner_stage_threshold") || same(
        key,
        "monitor.learner_crash_threshold",
    ) {
        if let Some(x) = parse_real(t) {
            if x.sign == RealSign::NotPositive {
                return true;
            }
        }
    }
    if same(key, "monitor.crash_keywords") {
        let words = split_keywords(t);
        assert(texts(words@).len() == words@.len());
        return words.len() == 0;
    }
    false
}

proof fn lemma_guarded_keys(key: Seq<char>)
    requires
        is_zero_guarded(key) || key == "monitor.learner_stage_threshold"@ || key
            == "monitor.learner_crash_threshold"@ || key == "monitor.crash_keywords"@,
    ensures
        key != "serial.baudrate"@,
        key != "serial.rfc2217"@,
        !is_text_key(key),
        key != "uboot.interrupt_strategy"@,
        key != "uboot.pattern"@,
        key != "uboot.interrupt_char"@,
        key == "monitor.learner_stage_threshold"@ || key == "monitor.learner_crash_threshold"@ || key
            == "monitor.crash_keywords"@ ==> !is_zero_guarded(key),
        key == "monitor.crash_keywords"@ ==> key != "monitor.learner_stage_threshold"@ && key
            != "monitor.learner_crash_threshold"@,
{
    reveal_strlit("serial.baudrate");
    reveal_strlit("serial.rfc2217");
    reveal_strlit("target.login_pass");
    reveal_strlit("target.login_prompt");
    reveal_strlit("monitor.reference_log");
    reveal_strlit("flash.full_image_cmd");
    reveal_strlit("flash.kernel_image_cmd");
    reveal_strlit("flash.loader_bin");
    reveal_strlit("control.dev_ctrl");
    reveal_strlit("loader");
    reveal_strlit("lock_dir");
    reveal_strlit("uboot.interrupt_strategy");
    reveal_strlit("uboot.pattern");
    reveal_strlit("uboot.interrupt_char");
    reveal_strlit("relay.port");
    reveal_strlit("relay.reset_ch");
    reveal_strlit("relay.download_ch");
    reveal_strlit("relay.power_ch");
    reveal_strlit("relay.reset_time_ms");
    reveal_strlit("relay.power_off_time_ms");
    reveal_strlit("monitor.hang_timeout");
    reveal_strlit("monitor.hang_hysteresis");
    reveal_strlit("monitor.max_archived_logs");
    reveal_strlit("monitor.max_log_file_size");
    reveal_strlit("monitor.learner_stage_threshold");
    reveal_strlit("monitor.learner_crash_threshold");
    reveal_strlit("monitor.crash_keywords");
    assert(key[0] == 'r' || key[0] == 'm');
    assert("monitor.reference_log"@[8] == 'r');
    assert(key[0] == 'm' ==> key[8] != 'r');
    assert("monitor.learner_stage_threshold"@[8] == 'l');
    assert("monitor.learner_crash_threshold"@[8] == 'l');
    assert("monitor.crash_keywords"@[8] == 'c');
    assert(is_zero_guarded(key) && key[0] == 'm' ==> key[8] == 'h' || key[8] == 'm');
}

/// A configuration that is created and one that is updated go by one rule: an
/// answer that is passed over is one for which nothing is written.
pub proof fn lemma_one_rule_for_inherited(key: Seq<char>, value: Seq<char>)
    ensures
        inherits(key, value) <==> literal_of(key, value) == Ok::<Option<Seq<char>>, Seq<char>>(None),
{
    if is_zero_guarded(key) || key == "monitor.learner_stage_threshold"@ || key
        == "monitor.learner_crash_threshold"@ || key == "monitor.crash_keywords"@ {
        lemma_guarded_keys(key);
    }
}

// ── The sections at the top ──────────────────────────────────────────
/// Whether a key is one of a top-level section, or stands outside them.
pub open spec fn is_known(key: Seq<char>) -> bool {
    let section = section_of(key);
    let field = field_of(key);
    if section == "serial"@ {
        field == "baudrate"@ || field == "rfc2217"@
    } else if section == "target"@ {
        field == "login_pass"@ || field == "login_prompt"@
    } else if section == "uboot"@ {
        field == "interrupt_char"@ || field == "interrupt_strategy"@ || field == "pattern"@
    } else if section == "relay"@ {
        field == "port"@ || field == "reset_ch"@ || field == "download_ch"@ || field == "power_ch"@
            || field == "reset_time_ms"@ || field == "power_off_time_ms"@
    } else if section == "monitor"@ {
        field == "hang_timeout"@ || field == "hang_hysteresis"@ || field == "max_archived_logs"@
            || field == "max_log_file_size"@ || field == "reference_log"@ || field
            == "learner_stage_threshold"@ || field == "learner_crash_threshold"@ || field
            == "crash_keywords"@
    } else if section == "flash"@ {
        field == "full_image_cmd"@ || field == "kernel_image_cmd"@ || field == "loader_bin"@
            || field == "loader_cmd"@ || field == "list_devices_cmd"@
    } else if section == "control"@ {
        field == "dev_ctrl"@
    } else {
        section.len() == 0 && (field == "lock_dir"@ || field == "loader"@)
    }
}

fn knows(section: &str, f: &str) -> (r: bool)
    ensures
        forall|key: Seq<char>|
            section_of(key) == section@ && field_of(key) == f@ ==> r == #[trigger] is_known(key),
{
    if same(section, "serial") {
        same(f, "baudrate") || same(f, "rfc2217")
    } else if same(section, "target") {
        same(f, "login_pass") || same(f, "login_prompt")
    } else if same(section, "uboot") {
        same(f, "interrupt_char") || same(f, "interrupt_strategy") || same(f, "pattern")
    } else if same(section, "relay") {
        same(f, "port") || same(f, "reset_ch") || same(f, "download_ch") || same(f, "power_ch")
            || same(f, "reset_time_ms") || same(f, "power_off_time_ms")
    } else if same(section, "monitor") {
        same(f, "hang_timeout") || same(f, "hang_hysteresis") || same(f, "max_archived_logs")
            || same(f, "max_log_file_size") || same(f, "reference_log") || same(
            f,
            "learner_stage_threshold",
        ) || same(f, "learner_crash_threshold") || same(f, "crash_keywords")
    } else if same(section, "flash") {
        same(f, "full_image_cmd") || same(f, "kernel_image_cmd") || same(f, "loader_bin") || same(
            f,
            "loader_cmd",
        ) || same(f, "list_devices_cmd")
    } else if same(section, "control") {
        same(f, "dev_ctrl")
    } else {
        section.is_empty() && (same(f, "lock_dir") || same(f, "loader"))
    }
}

/// The configuration with one answer put into its top-level sections, and why
/// the answer was refused. An answer to a known key that means that the value
/// is inherited is passed over.
pub open spec fn merged_key(c: ConfigView, key: Seq<char>, value: Seq<char>) -> (
    ConfigView,
    Option<Seq<char>>,
) {
    let section = section_of(key);
    let field = field_of(key);
    if is_known(key) && inherits(key, value) {
        (c, None)
    } else if section == "serial"@ {
        let (s, e) = merged_serial(or_new(c.serial, no_serial()), key, field, value);
        (ConfigView { serial: Some(s), ..c }, e)
    } else if section == "target"@ {
        let (s, e) = merged_target(or_new(c.target, no_target()), key, field, value);
        (ConfigView { target: Some(s), ..c }, e)
    } else if section == "uboot"@ {
        let (s, e) = merged_uboot(or_new(c.uboot, no_uboot()), key, field, value);
        (ConfigView { uboot: Some(s), ..c }, e)
    } else if section == "relay"@ {
        let (s, e) = merged_relay(or_new(c.relay, no_relay()), key, field, value);
        (ConfigView { relay: Some(s), ..c }, e)
    } else if section == "monitor"@ {
        let (s, e) = merged_monitor(or_new(c.monitor, no_monitor()), key, field, value);
        (ConfigView { monitor: Some(s), ..c }, e)
    } else if section == "flash"@ {
        let (s, e) = merged_flash(or_new(c.flash, no_flash()), key, field, value);
        (ConfigView { flash: Some(s), ..c }, e)
    } else if section == "control"@ {
        let (s, e) = merged_control(or_new(c.control, no_control()), key, field, value);
        (ConfigView { control: Some(s), ..c }, e)
    } else if section.len() == 0 && field == "lock_dir"@ {
        (ConfigView { lock_dir: Some(trimmed(value)), ..c }, None)
    } else if section.len() == 0 && field == "loader"@ {
        (ConfigView { loader: Some(trimmed(value)), ..c }, None)
    } else {
        (c, Some(unknown_key(key)))
    }
}

fn merge_key(config: &mut TargetJsoncConfig, key: &str, value: &str) -> (r: Option<String>)
    ensures
        (final(config)@, opt_text(r)) == merged_key(old(config)@, key@, value@),
{
    let (section, field) = advanced_field(key);
    let sec = section.as_str();
    let f = field.as_str();
    let ghost before = config@;
    let ghost want = merged_key(before, key@, value@);
    if knows(sec, f) && means_inherit(key, value) {
        return None;
    }
    if same(sec, "serial") {
        let mut s = match config.serial.take() {
            Some(s) => s,
            None => JsoncSerial::default(),
        };
        let e = merge_serial(&mut s, key, f, value);
        config.serial = Some(s);
        assert(config@ =~= want.0);
        e
    } else if same(sec, "target") {
        let mut s = match config.target.take() {
            Some(s) => s,
            None => JsoncTarget::default(),
        };
        let e = merge_target(&mut s, key, f, value);
        config.target = Some(s);
        assert(config@ =~= want.0);
        e
    } else if same(sec, "uboot") {
        let mut s = match config.uboot.take() {
            Some(s) => s,
            None => JsoncUboot::default(),
        };
        let e = merge_uboot(&mut s, key, f, value);
        config.uboot = Some(s);
        assert(config@ =~= want.0);
        e
    } else if same(sec, "relay") {
        let mut s = match config.relay.take() {
            Some(s) => s,
            None => JsoncRelay::default(),
        };
        let e = merge_relay(&mut s, key, f, value);
        config.relay = Some(s);
        assert(config@ =~= want.0);
        e
    } else if same(sec, "monitor") {
        let mut s = match config.monitor.take() {
            Some(s) => s,
            None => JsoncMonitor::default(),
        };
        let e = merge_monitor(&mut s, key, f, value);
        config.monitor = Some(s);
        assert(config@ =~= want.0);
        e
    } else if same(sec, "flash") {
        let mut s = match config.flash.take() {
            Some(s) => s,
            None => JsoncFlash::default(),
        };
        let e = merge_flash(&mut s, key, f, value);
        config.flash = Some(s);
        assert(config@ =~= want.0);
        e
    } else if same(sec, "control") {
        let mut s = match config.control.take() {
            Some(s) => s,
            None => JsoncControl::default(),
        };
        let e = merge_control(&mut s, key, f, value);
        config.control = Some(s);
        assert(config@ =~= want.0);
        e
    } else if sec.is_empty() && same(f, "lock_dir") {
        config.lock_dir = Some(owned(trim(value)));
        assert(config@ =~= want.0);
        None
    } else if sec.is_empty() && same(f, "loader") {
        config.loader = Some(owned(trim(value)));
        assert(config@ =~= want.0);
        None
    } else {
        Some(unknown_key_text(key))
    }
}

/// The configuration with the answers from number `i` on put in, up to the
/// first that is refused.
pub open spec fn merged_from(c: ConfigView, answers: Pairs, i: int) -> (
    ConfigView,
    Option<Seq<char>>,
)
    decreases answers.len() - i,
{
    if i < 0 || i >= answers.len() {
        (c, None)
    } else {
        let (d, e) = merged_key(c, answers[i].0, answers[i].1);
        if e is Some {
            (d, e)
        } else {
            merged_from(d, answers, i + 1)
        }
    }
}

/// Puts answers into the top-level sections of a configuration.
pub fn merge_advanced(config: &mut TargetJsoncConfig, answers: &TextMap) -> (r: Result<(), String>)
    ensures
        ({
            let (c, e) = merged_from(old(config)@, answers@, 0);
            &&& final(config)@ == c
            &&& r is Ok <==> e is None
            &&& r is Err ==> e == Some(r->Err_0@)
        }),
{
    let mut i: usize = 0;
    let ghost want = merged_from(config@, answers@, 0);
    while i < answers.len()
        invariant
            i <= answers@.len(),
            want == merged_from(config@, answers@, i as int),
            want == merged_from(old(config)@, answers@, 0),
        decreases answers@.len() - i,
    {
        match merge_key(config, answers.key_at(i), answers.value_at(i)) {
            Some(e) => {
                return Err(e);
            },
            None => {},
        }
        i += 1;
    }
    Ok(())
}

// ── The sections of a board ──────────────────────────────────────────
/// Whether a key is one of those that a board has of its own.
pub open spec fn is_own(key: Seq<char>) -> bool {
    let section = section_of(key);
    let field = field_of(key);
    &&& is_known(key)
    &&& section != "relay"@
    &&& section == "serial"@ ==> field == "baudrate"@
    &&& section == "monitor"@ ==> field == "max_archived_logs"@ || field == "reference_log"@
        || field == "crash_keywords"@
    &&& section.len() == 0 ==> field == "loader"@
}

/// The board with one answer put into its own sections, and why the answer was
/// refused. A blank answer is passed over, whatever its key, and so is one to a
/// key of the board's own that means that the value is inherited.
pub open spec fn merged_dut_key(d: DutView, key: Seq<char>, value: Seq<char>) -> (
    DutView,
    Option<Seq<char>>,
) {
    let section = section_of(key);
    let field = field_of(key);
    let t = trimmed(value);
    if t.len() == 0 || (is_own(key) && inherits(key, value)) {
        (d, None)
    } else if section == "serial"@ {
        let old_s = or_new(d.serial, no_serial());
        let (s, e) = if field == "baudrate"@ {
            merged_serial(old_s, key, field, t)
        } else {
            (old_s, Some(unknown_key(key)))
        };
        (DutView { serial: Some(s), ..d }, e)
    } else if section == "target"@ {
        let (s, e) = merged_target(or_new(d.target, no_target()), key, field, t);
        (DutView { target: Some(s), ..d }, e)
    } else if section == "uboot"@ {
        let (s, e) = merged_uboot(or_new(d.uboot, no_uboot()), key, field, t);
        (DutView { uboot: Some(s), ..d }, e)
    } else if section == "monitor"@ {
        let old_m = or_new(d.monitor, no_monitor());
        let (s, e) = if field == "max_archived_logs"@ || field == "reference_log"@ || field
            == "crash_keywords"@ {
            merged_monitor(old_m, key, field, t)
        } else {
            (old_m, Some(unknown_key(key)))
        };
        (DutView { monitor: Some(s), ..d }, e)
    } else if section == "flash"@ {
        let (s, e) = merged_flash(or_new(d.flash, no_flash()), key, field, t);
        (DutView { flash: Some(s), ..d }, e)
    } else if section == "control"@ {
        let (s, e) = merged_control(or_new(d.control, no_control()), key, field, t);
        (DutView { control: Some(s), ..d }, e)
    } else if section.len() == 0 && field == "loader"@ {
        (DutView { loader: Some(t), ..d }, None)
    } else {
        (d, Some(unknown_key(key)))
    }
}

fn owns(section: &str, f: &str) -> (r: bool)
    ensures
        forall|key: Seq<char>|
            section_of(key) == section@ && field_of(key) == f@ ==> r == #[trigger] is_own(key),
{
    knows(section, f) && !same(section, "relay") && (!same(section, "serial") || same(f, "baudrate"))
        && (!same(section, "monitor") || same(f, "max_archived_logs") || same(f, "reference_log")
        || same(f, "crash_keywords")) && (!section.is_empty() || same(f, "loader"))
}

fn merge_dut_key(dut: &mut JsoncDut, key: &str, value: &str) -> (r: Option<String>)
    ensures
        (final(dut)@, opt_text(r)) == merged_dut_key(old(dut)@, key@, value@),
{
    let (section, field) = advanced_field(key);
    let sec = section.as_str();
    let f = field.as_str();
    let t = trim(value);
    let ghost want = merged_dut_key(dut@, key@, value@);
    if t.is_empty() || (owns(sec, f) && means_inherit(key, value)) {
        return None;
    }
    if same(sec, "serial") {
        let mut s = match dut.serial.take() {
            Some(s) => s,
            None => JsoncSerial::default(),
        };
        let e = if same(f, "baudrate") {
            merge_serial(&mut s, key, f, t)
        } else {
            Some(unknown_key_text(key))
        };
        dut.serial = Some(s);
        assert(dut@ =~= want.0);
        e
    } else if same(sec, "target") {
        let mut s = match dut.target.take() {
            Some(s) => s,
            None => JsoncTarget::default(),
        };
        let e = merge_target(&mut s, key, f, t);
        dut.target = Some(s);
        assert(dut@ =~= want.0);
        e
    } else if same(sec, "uboot") {
        let mut s = match dut.uboot.take() {
            Some(s) => s,
            None => JsoncUboot::default(),
        };
        let e = merge_uboot(&mut s, key, f, t);
        dut.uboot = Some(s);
        assert(dut@ =~= want.0);
        e
    } else if same(sec, "monitor") {
        let mut s = match dut.monitor.take() {
            Some(s) => s,
            None => JsoncMonitor::default(),
        };
        let e = if same(f, "max_archived_logs") || same(f, "reference_log") || same(
            f,
            "crash_keywords",
        ) {
            merge_monitor(&mut s, key, f, t)
        } else {
            Some(unknown_key_text(key))
        };
        dut.monitor = Some(s);
        assert(dut@ =~= want.0);
        e
    } else if same(sec, "flash") {
        let mut s = match dut.flash.take() {
            Some(s) => s,
            None => JsoncFlash::default(),
        };
        let e = merge_flash(&mut s, key, f, t);
        dut.flash = Some(s);
        assert(dut@ =~= want.0);
        e
    } else if same(sec, "control") {
        let mut s = match dut.control.take() {
            Some(s) => s,
            None => JsoncControl::default(),
        };
        let e = merge_control(&mut s, key, f, t);
        dut.control = Some(s);
        assert(dut@ =~= want.0);
        e
    } else if sec.is_empty() && same(f, "loader") {
        dut.loader = Some(owned(t));
        assert(dut@ =~= want.0);
        None
    } else {
        Some(unknown_key_text(key))
    }
}

/// The board with the answers from number `i` on put in, up to the first that
/// is refused.
pub open spec fn merged_dut_from(d: DutView, answers: Pairs, i: int) -> (
    DutView,
    Option<Seq<char>>,
)
    decreases answers.len() - i,
{
    if i < 0 || i >= answers.len() {
        (d, None)
    } else {
        let (x, e) = merged_dut_key(d, answers[i].0, answers[i].1);
        if e is Some {
            (x, e)
        } else {
            merged_dut_from(x, answers, i + 1)
        }
    }
}

/// Puts answers into the sections of a board.
pub fn merge_dut_advanced(dut: &mut JsoncDut, answers: &TextMap) -> (r: Result<(), String>)
    ensures
        ({
            let (d, e) = merged_dut_from(old(dut)@, answers@, 0);
            &&& final(dut)@ == d
            &&& r is Ok <==> e is None
            &&& r is Err ==> e == Some(r->Err_0@)
        }),
{
    let mut i: usize = 0;
    let ghost want = merged_dut_from(dut@, answers@, 0);
    while i < answers.len()
        invariant
            i <= answers@.len(),
            want == merged_dut_from(dut@, answers@, i as int),
            want == merged_dut_from(old(dut)@, answers@, 0),
        decreases answers@.len() - i,
    {
        match merge_dut_key(dut, answers.key_at(i), answers.value_at(i)) {
            Some(e) => {
                return Err(e);
            },
            None => {},
        }
        i += 1;
    }
    Ok(())
}

/// A value that is not blank is refused under a key that is not the board's own.
pub proof fn lemma_foreign_key_is_refused(d: DutView, key: Seq<char>, value: Seq<char>)
    requires
        !is_own(key),
        trimmed(value).len() > 0,
    ensures
        merged_dut_key(d, key, value).1 == Some(unknown_key(key)),
{
    reveal_strlit("serial");
    reveal_strlit("target");
    reveal_strlit("uboot");
    reveal_strlit("relay");
    reveal_strlit("monitor");
    reveal_strlit("flash");
    reveal_strlit("control");
    assert("relay"@[0] == 'r' && "serial"@[0] == 's' && "target"@[0] == 't' && "uboot"@[0] == 'u');
    assert("monitor"@[0] == 'm' && "flash"@[0] == 'f' && "control"@[0] == 'c');
}

/// One answer to a key that is not the board's own has them all refused: the
/// answers before it being in order, the error names that key.
pub proof fn lemma_foreign_answer_is_refused(d: DutView, answers: Pairs, i: int, k: int)
    requires
        0 <= i <= k < answers.len(),
        !is_own(answers[k].0),
        trimmed(answers[k].1).len() > 0,
    ensures
        ({
            let e = merged_dut_from(d, answers, i).1;
            &&& e is Some
            &&& i == k ==> e == Some(unknown_key(answers[k].0))
        }),
    decreases k - i,
{
    let (x, e) = merged_dut_key(d, answers[i].0, answers[i].1);
    if i == k {
        lemma_foreign_key_is_refused(d, answers[k].0, answers[k].1);
    } else if e is None {
        lemma_foreign_answer_is_refused(x, answers, i + 1, k);
    }
}

/// Blank answers leave a board as it is.
pub proof fn lemma_blank_answers_change_no_board(d: DutView, answers: Pairs, i: int)
    requires
        0 <= i <= answers.len(),
        forall|k: int| 0 <= k < answers.len() ==> trimmed((#[trigger] answers[k]).1).len() == 0,
    ensures
        merged_dut_from(d, answers, i) == (d, None::<Seq<char>>),
    decreases answers.len() - i,
{
    if i < answers.len() {
        assert(trimmed(answers[i].1).len() == 0);
        lemma_blank_answers_change_no_board(d, answers, i + 1);
    }
}

/// An answer to a key that no top-level section has is refused, whatever it
/// says.
pub proof fn lemma_unknown_key_is_refused(c: ConfigView, key: Seq<char>, value: Seq<char>)
    requires
        !is_known(key),
    ensures
        merged_key(c, key, value).1 == Some(unknown_key(key)),
{
}

/// Empty answers and zeros to known keys leave a configuration as it is.
pub proof fn lemma_inherited_answers_change_nothing(c: ConfigView, answers: Pairs, i: int)
    requires
        0 <= i <= answers.len(),
        forall|k: int|
            0 <= k < answers.len() ==> is_known((#[trigger] answers[k]).0) && inherits(
                answers[k].0,
                answers[k].1,
            ),
    ensures
        merged_from(c, answers, i) == (c, None::<Seq<char>>),
    decreases answers.len() - i,
{
    if i < answers.len() {
        assert(is_known(answers[i].0));
        lemma_inherited_answers_change_nothing(c, answers, i + 1);
    }
}

/// A board's answers change nothing of who the board is: its name, its relay,
/// and what else no advanced key is about.
pub proof fn lemma_dut_answers_keep_identity(d: DutView, answers: Pairs, i: int)
    requires
        0 <= i <= answers.len(),
    ensures
        ({
            let r = merged_dut_from(d, answers, i).0;
            &&& r.dut_name == d.dut_name
            &&& r.relay == d.relay
            &&& r.download == d.download
            &&& r.reference_log == d.reference_log
            &&& r.dut_dir == d.dut_dir
        }),
    decreases answers.len() - i,
{
    if i < answers.len() {
        let (x, e) = merged_dut_key(d, answers[i].0, answers[i].1);
        if e is None {
            lemma_dut_answers_keep_identity(x, answers, i + 1);
        }
    }
}

/// Answers to top-level keys never touch the hosts and their boards, nor what
/// no advanced key is about.
pub proof fn lemma_answers_keep_hosts(c: ConfigView, answers: Pairs, i: int)
    requires
        0 <= i <= answers.len(),
    ensures
        ({
            let r = merged_from(c, answers, i).0;
            &&& r.dev_hosts == c.dev_hosts
            &&& r.reference_log == c.reference_log
            &&& r.dut_dir == c.dut_dir
            &&& r.download == c.download
        }),
    decreases answers.len() - i,
{
    if i < answers.len() {
        let (d, e) = merged_key(c, answers[i].0, answers[i].1);
        if e is None {
            lemma_answers_keep_hosts(d, answers, i + 1);
        }
    }
}

} // verus!

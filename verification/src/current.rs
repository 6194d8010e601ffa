//! What a configuration holds now, by advanced key.
use crate::config::{
    opt_number, value_text, ConfigView, ControlView, DutView, FlashView, JsoncControl, JsoncDut,
    JsoncFlash, JsoncMonitor, JsoncSerial, JsoncTarget, JsoncUboot, MonitorView, NumberOrString,
    NumberView, SerialView, TargetJsoncConfig, TargetView, UbootView,
};
use crate::number::{decimal, decimal_text, Real, RealView};
use crate::text::{copy_opt, join, joined, opt_text, owned};
use crate::text_map::{put, Pairs, TextMap};
use vstd::prelude::*;

verus! {

/// The entries with the value of a key put in, if there is one.
pub open spec fn put_opt(p: Pairs, key: Seq<char>, value: Option<Seq<char>>) -> Pairs {
    match value {
        Some(v) => put(p, key, v),
        None => p,
    }
}

fn put_some(m: &mut TextMap, key: &str, value: Option<String>)
    ensures
        final(m)@ == put_opt(old(m)@, key@, opt_text(value)),
{
    match value {
        Some(v) => m.insert(key, v),
        None => {},
    }
}

/// The text of a scalar that is set.
pub open spec fn scalar_now(o: Option<NumberView>) -> Option<Seq<char>> {
    match o {
        Some(v) => Some(value_text(v)),
        None => None,
    }
}

fn scalar_text(o: &Option<NumberOrString>) -> (r: Option<String>)
    ensures
        opt_text(r) == scalar_now(opt_number(*o)),
{
    match o {
        Some(v) => Some(v.to_value_string()),
        None => None,
    }
}

/// The text of a number that is set.
pub open spec fn number_now(o: Option<u64>) -> Option<Seq<char>> {
    match o {
        Some(n) => Some(decimal(n as nat)),
        None => None,
    }
}

fn number_text(o: Option<u64>) -> (r: Option<String>)
    ensures
        opt_text(r) == number_now(o),
{
    match o {
        Some(n) => Some(decimal_text(n)),
        None => None,
    }
}

/// The text of a real number that is set.
pub open spec fn real_now(o: Option<RealView>) -> Option<Seq<char>> {
    match o {
        Some(x) => Some(x.text),
        None => None,
    }
}

fn real_text(o: &Option<Real>) -> (r: Option<String>)
    ensures
        opt_text(r) == real_now(crate::config::opt_real(*o)),
{
    match o {
        Some(x) => Some(owned(x.text.as_str())),
        None => None,
    }
}

/// The keywords that are set, on one line.
pub open spec fn keywords_now(o: Option<Seq<Seq<char>>>) -> Option<Seq<char>> {
    match o {
        Some(v) => Some(joined(v, ", "@)),
        None => None,
    }
}

fn keywords_text(o: &Option<Vec<String>>) -> (r: Option<String>)
    ensures
        opt_text(r) == keywords_now(crate::config::opt_texts(*o)),
{
    match o {
        Some(v) => Some(join(v, ", ")),
        None => None,
    }
}

// ── Sections ─────────────────────────────────────────────────────────
/// With what a serial section holds.
pub open spec fn put_serial(p: Pairs, o: Option<SerialView>) -> Pairs {
    match o {
        Some(s) => put_opt(p, "serial.baudrate"@, scalar_now(s.baudrate)),
        None => p,
    }
}

fn add_serial(m: &mut TextMap, o: &Option<JsoncSerial>)
    ensures
        final(m)@ == put_serial(
            old(m)@,
            match *o {
                Some(x) => Some(x@),
                None => None,
            },
        ),
{
    match o {
        Some(s) => put_some(m, "serial.baudrate", scalar_text(&s.baudrate)),
        None => {},
    }
}

/// With what a target section holds.
pub open spec fn put_target(p: Pairs, o: Option<TargetView>) -> Pairs {
    match o {
        Some(t) => {
            let p1 = put_opt(p, "target.login_pass"@, t.login_pass);
            put_opt(p1, "target.login_prompt"@, t.login_prompt)
        },
        None => p,
    }
}

fn add_target(m: &mut TextMap, o: &Option<JsoncTarget>)
    ensures
        final(m)@ == put_target(
            old(m)@,
            match *o {
                Some(x) => Some(x@),
                None => None,
            },
        ),
{
    match o {
        Some(t) => {
            put_some(m, "target.login_pass", copy_opt(&t.login_pass));
            put_some(m, "target.login_prompt", copy_opt(&t.login_prompt));
        },
        None => {},
    }
}

/// With what a loader section holds.
pub open spec fn put_uboot(p: Pairs, o: Option<UbootView>) -> Pairs {
    match o {
        Some(u) => {
            let p1 = put_opt(p, "uboot.interrupt_char"@, u.interrupt_char);
            let p2 = put_opt(p1, "uboot.interrupt_strategy"@, u.interrupt_strategy);
            put_opt(p2, "uboot.pattern"@, u.pattern)
        },
        None => p,
    }
}

fn add_uboot(m: &mut TextMap, o: &Option<JsoncUboot>)
    ensures
        final(m)@ == put_uboot(
            old(m)@,
            match *o {
                Some(x) => Some(x@),
                None => None,
            },
        ),
{
    match o {
        Some(u) => {
            put_some(m, "uboot.interrupt_char", copy_opt(&u.interrupt_char));
            put_some(m, "uboot.interrupt_strategy", copy_opt(&u.interrupt_strategy));
            put_some(m, "uboot.pattern", copy_opt(&u.pattern));
        },
        None => {},
    }
}

/// With what a monitor section at the top level holds.
pub open spec fn put_monitor(p: Pairs, o: Option<MonitorView>) -> Pairs {
    match o {
        Some(x) => {
            let p1 = put_opt(p, "monitor.hang_timeout"@, number_now(x.hang_timeout));
            let p2 = put_opt(p1, "monitor.max_archived_logs"@, number_now(x.max_archived_logs));
            let p3 = put_opt(p2, "monitor.max_log_file_size"@, number_now(x.max_log_file_size));
            let p4 = put_opt(p3, "monitor.reference_log"@, x.reference_log);
            let p5 = put_opt(
                p4,
                "monitor.learner_stage_threshold"@,
                real_now(x.learner_stage_threshold),
            );
            let p6 = put_opt(
                p5,
                "monitor.learner_crash_threshold"@,
                real_now(x.learner_crash_threshold),
            );
            put_opt(p6, "monitor.crash_keywords"@, keywords_now(x.crash_keywords))
        },
        None => p,
    }
}

fn add_monitor(m: &mut TextMap, o: &Option<JsoncMonitor>)
    ensures
        final(m)@ == put_monitor(
            old(m)@,
            match *o {
                Some(x) => Some(x@),
                None => None,
            },
        ),
{
    match o {
        Some(x) => {
            put_some(m, "monitor.hang_timeout", number_text(x.hang_timeout));
            put_some(m, "monitor.max_archived_logs", number_text(x.max_archived_logs));
            put_some(m, "monitor.max_log_file_size", number_text(x.max_log_file_size));
            put_some(m, "monitor.reference_log", copy_opt(&x.reference_log));
            put_some(m, "monitor.learner_stage_threshold", real_text(&x.learner_stage_threshold));
            put_some(m, "monitor.learner_crash_threshold", real_text(&x.learner_crash_threshold));
            put_some(m, "monitor.crash_keywords", keywords_text(&x.crash_keywords));
        },
        None => {},
    }
}

/// With what the monitor section of a board holds of the board's own keys.
pub open spec fn put_dut_monitor(p: Pairs, o: Option<MonitorView>) -> Pairs {
    match o {
        Some(x) => {
            let p1 = put_opt(p, "monitor.max_archived_logs"@, number_now(x.max_archived_logs));
            let p2 = put_opt(p1, "monitor.reference_log"@, x.reference_log);
            put_opt(p2, "monitor.crash_keywords"@, keywords_now(x.crash_keywords))
        },
        None => p,
    }
}

fn add_dut_monitor(m: &mut TextMap, o: &Option<JsoncMonitor>)
    ensures
        final(m)@ == put_dut_monitor(
            old(m)@,
            match *o {
                Some(x) => Some(x@),
                None => None,
            },
        ),
{
    match o {
        Some(x) => {
            put_some(m, "monitor.max_archived_logs", number_text(x.max_archived_logs));
            put_some(m, "monitor.reference_log", copy_opt(&x.reference_log));
            put_some(m, "monitor.crash_keywords", keywords_text(&x.crash_keywords));
        },
        None => {},
    }
}

/// With what a flash section holds.
pub open spec fn put_flash(p: Pairs, o: Option<FlashView>) -> Pairs {
    match o {
        Some(f) => {
            let p1 = put_opt(p, "flash.full_image_cmd"@, f.full_image_cmd);
            let p2 = put_opt(p1, "flash.kernel_image_cmd"@, f.kernel_image_cmd);
            put_opt(p2, "flash.loader_bin"@, f.loader_bin)
        },
        None => p,
    }
}

fn add_flash(m: &mut TextMap, o: &Option<JsoncFlash>)
    ensures
        final(m)@ == put_flash(
            old(m)@,
            match *o {
                Some(x) => Some(x@),
                None => None,
            },
        ),
{
    match o {
        Some(f) => {
            put_some(m, "flash.full_image_cmd", copy_opt(&f.full_image_cmd));
            put_some(m, "flash.kernel_image_cmd", copy_opt(&f.kernel_image_cmd));
            put_some(m, "flash.loader_bin", copy_opt(&f.loader_bin));
        },
        None => {},
    }
}

/// With what a control section holds.
pub open spec fn put_control(p: Pairs, o: Option<ControlView>) -> Pairs {
    match o {
        Some(c) => put_opt(p, "control.dev_ctrl"@, c.dev_ctrl),
        None => p,
    }
}

fn add_control(m: &mut TextMap, o: &Option<JsoncControl>)
    ensures
        final(m)@ == put_control(
            old(m)@,
            match *o {
                Some(x) => Some(x@),
                None => None,
            },
        ),
{
    match o {
        Some(c) => put_some(m, "control.dev_ctrl", copy_opt(&c.dev_ctrl)),
        None => {},
    }
}

/// What the top-level sections hold, by advanced key.
pub open spec fn current_of(c: ConfigView) -> Pairs {
    let p1 = put_serial(Pairs::empty(), c.serial);
    let p2 = put_target(p1, c.target);
    let p3 = put_uboot(p2, c.uboot);
    let p4 = put_monitor(p3, c.monitor);
    let p5 = put_flash(p4, c.flash);
    let p6 = put_control(p5, c.control);
    put_opt(p6, "loader"@, c.loader)
}

/// What the top-level sections hold, by advanced key.
pub fn advanced_current(config: &TargetJsoncConfig) -> (r: TextMap)
    ensures
        r@ == current_of(config@),
{
    let mut m = TextMap::new();
    add_serial(&mut m, &config.serial);
    add_target(&mut m, &config.target);
    add_uboot(&mut m, &config.uboot);
    add_monitor(&mut m, &config.monitor);
    add_flash(&mut m, &config.flash);
    add_control(&mut m, &config.control);
    put_some(&mut m, "loader", copy_opt(&config.loader));
    m
}

/// What the sections of a board hold of the board's own advanced keys.
pub open spec fn dut_current_of(d: DutView) -> Pairs {
    let p1 = put_serial(Pairs::empty(), d.serial);
    let p2 = put_target(p1, d.target);
    let p3 = put_uboot(p2, d.uboot);
    let p4 = put_dut_monitor(p3, d.monitor);
    let p5 = put_flash(p4, d.flash);
    let p6 = put_control(p5, d.control);
    put_opt(p6, "loader"@, d.loader)
}

/// What the sections of a board hold of the board's own advanced keys; never
/// what it inherits.
pub fn dut_advanced_current(dut: &JsoncDut) -> (r: TextMap)
    ensures
        r@ == dut_current_of(dut@),
{
    let mut m = TextMap::new();
    add_serial(&mut m, &dut.serial);
    add_target(&mut m, &dut.target);
    add_uboot(&mut m, &dut.uboot);
    add_dut_monitor(&mut m, &dut.monitor);
    add_flash(&mut m, &dut.flash);
    add_control(&mut m, &dut.control);
    put_some(&mut m, "loader", copy_opt(&dut.loader));
    m
}

} // verus!

//! A configuration is a tidy document: its objects have known names, each of
//! them once.
use crate::config::{
    config_keys, config_of, config_text, control_keys, control_of, dut_keys, dut_of, duts_from,
    flash_keys, flash_of, host_keys, host_of, hosts_from, member, member_from, monitor_keys,
    monitor_of, only, relay_keys, relay_of, serial_keys, serial_of, target_keys, target_of,
    texts_from, uboot_keys, uboot_of, ConfigView, DutView, HostView,
};
use crate::jsonc::{document, JsonView};
use crate::locate::SegView;
use crate::pieces::Members;
use crate::place::{is_name, is_scalar, json_at, lemma_member_back, named, tidy, well_named};
use vstd::prelude::*;

verus! {

// ── Tidy values ──────────────────────────────────────────────────────
pub proof fn lemma_scalar_is_tidy(j: JsonView)
    requires
        is_scalar(j),
    ensures
        tidy(j),
{
}

proof fn lemma_member_is_one(m: Members, name: Seq<char>, i: int)
    requires
        0 <= i,
        member_from(m, name, i) is Some,
    ensures
        exists|k: int| i <= k < m.len() && member_from(m, name, i) == Some((#[trigger] m[k]).1),
    decreases m.len() - i,
{
    if m[i].0 == name {
        assert(member_from(m, name, i) == Some(m[i].1));
    } else {
        lemma_member_is_one(m, name, i + 1);
    }
}

/// An object is tidy where it is well named and its values are tidy.
pub proof fn lemma_object_is_tidy(m: Members)
    requires
        named(m),
        forall|k: int| 0 <= k < m.len() ==> tidy((#[trigger] m[k]).1),
    ensures
        tidy(JsonView::Object(m)),
{
    let j = JsonView::Object(m);
    assert forall|r: Seq<SegView>| well_named(#[trigger] json_at(j, r)) by {
        if r.len() > 0 {
            if let SegView::Key(name) = r[0] {
                if member(m, name) is Some {
                    lemma_member_is_one(m, name, 0);
                    let k = choose|k: int|
                        0 <= k < m.len() && member_from(m, name, 0) == Some((#[trigger] m[k]).1);
                    assert(well_named(json_at(m[k].1, r.drop_first())));
                }
            }
        }
    }
}

/// A list is tidy where its values are.
pub proof fn lemma_array_is_tidy(v: Seq<JsonView>)
    requires
        forall|k: int| 0 <= k < v.len() ==> tidy(#[trigger] v[k]),
    ensures
        tidy(JsonView::Array(v)),
{
    let j = JsonView::Array(v);
    assert forall|r: Seq<SegView>| well_named(#[trigger] json_at(j, r)) by {
        if r.len() > 0 {
            if let SegView::Index(n) = r[0] {
                if n < v.len() {
                    assert(well_named(json_at(v[n as int], r.drop_first())));
                }
            }
        }
    }
}

proof fn lemma_texts(v: Seq<JsonView>, i: int, before: Seq<Seq<char>>)
    requires
        0 <= i,
        texts_from(v, i, before) is Some,
    ensures
        forall|k: int| i <= k < v.len() ==> (#[trigger] v[k]) is Text,
    decreases v.len() - i,
{
    if i < v.len() {
        lemma_texts(v, i + 1, before.push(v[i]->Text_0));
    }
}

// ── Names ────────────────────────────────────────────────────────────
/// Whether the first `n` characters are printable ASCII characters.
spec fn ascii_before(x: Seq<char>, n: int) -> bool
    decreases n,
{
    n <= 0 || (ascii_before(x, n - 1) && 32 <= x[n - 1] as nat <= 126)
}

proof fn lemma_ascii_at(x: Seq<char>, n: int, k: int)
    requires
        ascii_before(x, n),
        0 <= k < n,
    ensures
        32 <= x[k] as nat <= 126,
    decreases n,
{
    if k < n - 1 {
        lemma_ascii_at(x, n - 1, k);
    }
}

proof fn lemma_ascii(x: Seq<char>)
    requires
        ascii_before(x, x.len() as int),
    ensures
        is_name(x),
{
    assert forall|k: int| 0 <= k < x.len() implies 32 <= (#[trigger] x[k]) as nat <= 126 by {
        lemma_ascii_at(x, x.len() as int, k);
    }
}

spec fn all_names(keys: Seq<Seq<char>>) -> bool {
    forall|i: int| 0 <= i < keys.len() ==> is_name(#[trigger] keys[i])
}

/// Which of the known names a member has.
proof fn lemma_known(m: Members, keys: Seq<Seq<char>>, k: int) -> (i: int)
    requires
        only(m, keys),
        all_names(keys),
        0 <= k < m.len(),
    ensures
        0 <= i < keys.len(),
        m[k].0 == keys[i],
        member(m, m[k].0) == Some(m[k].1),
{
    lemma_named(m, keys);
    lemma_member_back(m, k, 0);
    let x = m[k].0;
    assert(keys.contains(x));
    choose|i: int| 0 <= i < keys.len() && keys[i] == x
}

proof fn lemma_named(m: Members, keys: Seq<Seq<char>>)
    requires
        only(m, keys),
        all_names(keys),
    ensures
        named(m),
{
    assert forall|k: int| 0 <= k < m.len() implies is_name((#[trigger] m[k]).0) by {
        assert(keys.contains(m[k].0));
    }
}

proof fn lemma_serial_names()
    ensures
        all_names(serial_keys()),
{
    assert(is_name("port"@)) by {
        reveal_strlit("port");
        reveal_with_fuel(ascii_before, 5);
        lemma_ascii("port"@);
    }
    assert(is_name("baudrate"@)) by {
        reveal_strlit("baudrate");
        reveal_with_fuel(ascii_before, 9);
        lemma_ascii("baudrate"@);
    }
    assert(is_name("rfc2217"@)) by {
        reveal_strlit("rfc2217");
        reveal_with_fuel(ascii_before, 8);
        lemma_ascii("rfc2217"@);
    }
    assert(is_name("tx_repeat"@)) by {
        reveal_strlit("tx_repeat");
        reveal_with_fuel(ascii_before, 10);
        lemma_ascii("tx_repeat"@);
    }
    assert(is_name("tx_gap_ms"@)) by {
        reveal_strlit("tx_gap_ms");
        reveal_with_fuel(ascii_before, 10);
        lemma_ascii("tx_gap_ms"@);
    }
    assert(is_name("backspace"@)) by {
        reveal_strlit("backspace");
        reveal_with_fuel(ascii_before, 10);
        lemma_ascii("backspace"@);
    }
    assert(is_name("enter"@)) by {
        reveal_strlit("enter");
        reveal_with_fuel(ascii_before, 6);
        lemma_ascii("enter"@);
    }
    assert(is_name("rx_newline"@)) by {
        reveal_strlit("rx_newline");
        reveal_with_fuel(ascii_before, 11);
        lemma_ascii("rx_newline"@);
    }
    assert(is_name("highlight"@)) by {
        reveal_strlit("highlight");
        reveal_with_fuel(ascii_before, 10);
        lemma_ascii("highlight"@);
    }
    assert(is_name("mouse"@)) by {
        reveal_strlit("mouse");
        reveal_with_fuel(ascii_before, 6);
        lemma_ascii("mouse"@);
    }
}

proof fn lemma_target_names()
    ensures
        all_names(target_keys()),
{
    assert(is_name("login_user"@)) by {
        reveal_strlit("login_user");
        reveal_with_fuel(ascii_before, 11);
        lemma_ascii("login_user"@);
    }
    assert(is_name("login_pass"@)) by {
        reveal_strlit("login_pass");
        reveal_with_fuel(ascii_before, 11);
        lemma_ascii("login_pass"@);
    }
    assert(is_name("login_prompt"@)) by {
        reveal_strlit("login_prompt");
        reveal_with_fuel(ascii_before, 13);
        lemma_ascii("login_prompt"@);
    }
}

proof fn lemma_uboot_names()
    ensures
        all_names(uboot_keys()),
{
    assert(is_name("interrupt_char"@)) by {
        reveal_strlit("interrupt_char");
        reveal_with_fuel(ascii_before, 15);
        lemma_ascii("interrupt_char"@);
    }
    assert(is_name("interrupt_strategy"@)) by {
        reveal_strlit("interrupt_strategy");
        reveal_with_fuel(ascii_before, 19);
        lemma_ascii("interrupt_strategy"@);
    }
    assert(is_name("pattern"@)) by {
        reveal_strlit("pattern");
        reveal_with_fuel(ascii_before, 8);
        lemma_ascii("pattern"@);
    }
}

proof fn lemma_relay_names()
    ensures
        all_names(relay_keys()),
{
    assert(is_name("type"@)) by {
        reveal_strlit("type");
        reveal_with_fuel(ascii_before, 5);
        lemma_ascii("type"@);
    }
    assert(is_name("port"@)) by {
        reveal_strlit("port");
        reveal_with_fuel(ascii_before, 5);
        lemma_ascii("port"@);
    }
    assert(is_name("ip"@)) by {
        reveal_strlit("ip");
        reveal_with_fuel(ascii_before, 3);
        lemma_ascii("ip"@);
    }
    assert(is_name("reset_ch"@)) by {
        reveal_strlit("reset_ch");
        reveal_with_fuel(ascii_before, 9);
        lemma_ascii("reset_ch"@);
    }
    assert(is_name("reset_channel"@)) by {
        reveal_strlit("reset_channel");
        reveal_with_fuel(ascii_before, 14);
        lemma_ascii("reset_channel"@);
    }
    assert(is_name("download_ch"@)) by {
        reveal_strlit("download_ch");
        reveal_with_fuel(ascii_before, 12);
        lemma_ascii("download_ch"@);
    }
    assert(is_name("download_channel"@)) by {
        reveal_strlit("download_channel");
        reveal_with_fuel(ascii_before, 17);
        lemma_ascii("download_channel"@);
    }
    assert(is_name("power_ch"@)) by {
        reveal_strlit("power_ch");
        reveal_with_fuel(ascii_before, 9);
        lemma_ascii("power_ch"@);
    }
    assert(is_name("power_channel"@)) by {
        reveal_strlit("power_channel");
        reveal_with_fuel(ascii_before, 14);
        lemma_ascii("power_channel"@);
    }
    assert(is_name("reset_time_ms"@)) by {
        reveal_strlit("reset_time_ms");
        reveal_with_fuel(ascii_before, 14);
        lemma_ascii("reset_time_ms"@);
    }
    assert(is_name("power_off_time_ms"@)) by {
        reveal_strlit("power_off_time_ms");
        reveal_with_fuel(ascii_before, 18);
        lemma_ascii("power_off_time_ms"@);
    }
}

proof fn lemma_monitor_names()
    ensures
        all_names(monitor_keys()),
{
    assert(is_name("hang_timeout"@)) by {
        reveal_strlit("hang_timeout");
        reveal_with_fuel(ascii_before, 13);
        lemma_ascii("hang_timeout"@);
    }
    assert(is_name("hang_hysteresis"@)) by {
        reveal_strlit("hang_hysteresis");
        reveal_with_fuel(ascii_before, 16);
        lemma_ascii("hang_hysteresis"@);
    }
    assert(is_name("max_archived_logs"@)) by {
        reveal_strlit("max_archived_logs");
        reveal_with_fuel(ascii_before, 18);
        lemma_ascii("max_archived_logs"@);
    }
    assert(is_name("max_log_file_size"@)) by {
        reveal_strlit("max_log_file_size");
        reveal_with_fuel(ascii_before, 18);
        lemma_ascii("max_log_file_size"@);
    }
    assert(is_name("reference_log"@)) by {
        reveal_strlit("reference_log");
        reveal_with_fuel(ascii_before, 14);
        lemma_ascii("reference_log"@);
    }
    assert(is_name("learner_stage_threshold"@)) by {
        reveal_strlit("learner_stage_threshold");
        reveal_with_fuel(ascii_before, 24);
        lemma_ascii("learner_stage_threshold"@);
    }
    assert(is_name("learner_crash_threshold"@)) by {
        reveal_strlit("learner_crash_threshold");
        reveal_with_fuel(ascii_before, 24);
        lemma_ascii("learner_crash_threshold"@);
    }
    assert(is_name("crash_keywords"@)) by {
        reveal_strlit("crash_keywords");
        reveal_with_fuel(ascii_before, 15);
        lemma_ascii("crash_keywords"@);
    }
}

proof fn lemma_flash_names()
    ensures
        all_names(flash_keys()),
{
    assert(is_name("tool"@)) by {
        reveal_strlit("tool");
        reveal_with_fuel(ascii_before, 5);
        lemma_ascii("tool"@);
    }
    assert(is_name("full_image_cmd"@)) by {
        reveal_strlit("full_image_cmd");
        reveal_with_fuel(ascii_before, 15);
        lemma_ascii("full_image_cmd"@);
    }
    assert(is_name("kernel_image_cmd"@)) by {
        reveal_strlit("kernel_image_cmd");
        reveal_with_fuel(ascii_before, 17);
        lemma_ascii("kernel_image_cmd"@);
    }
    assert(is_name("loader_bin"@)) by {
        reveal_strlit("loader_bin");
        reveal_with_fuel(ascii_before, 11);
        lemma_ascii("loader_bin"@);
    }
    assert(is_name("loader_cmd"@)) by {
        reveal_strlit("loader_cmd");
        reveal_with_fuel(ascii_before, 11);
        lemma_ascii("loader_cmd"@);
    }
    assert(is_name("list_devices_cmd"@)) by {
        reveal_strlit("list_devices_cmd");
        reveal_with_fuel(ascii_before, 17);
        lemma_ascii("list_devices_cmd"@);
    }
    assert(is_name("upload_dir"@)) by {
        reveal_strlit("upload_dir");
        reveal_with_fuel(ascii_before, 11);
        lemma_ascii("upload_dir"@);
    }
}

proof fn lemma_control_names()
    ensures
        all_names(control_keys()),
{
    assert(is_name("dev_ctrl"@)) by {
        reveal_strlit("dev_ctrl");
        reveal_with_fuel(ascii_before, 9);
        lemma_ascii("dev_ctrl"@);
    }
}

proof fn lemma_dut_names()
    ensures
        all_names(dut_keys()),
{
    assert(is_name("dut_name"@)) by {
        reveal_strlit("dut_name");
        reveal_with_fuel(ascii_before, 9);
        lemma_ascii("dut_name"@);
    }
    assert(is_name("serial"@)) by {
        reveal_strlit("serial");
        reveal_with_fuel(ascii_before, 7);
        lemma_ascii("serial"@);
    }
    assert(is_name("target"@)) by {
        reveal_strlit("target");
        reveal_with_fuel(ascii_before, 7);
        lemma_ascii("target"@);
    }
    assert(is_name("uboot"@)) by {
        reveal_strlit("uboot");
        reveal_with_fuel(ascii_before, 6);
        lemma_ascii("uboot"@);
    }
    assert(is_name("relay"@)) by {
        reveal_strlit("relay");
        reveal_with_fuel(ascii_before, 6);
        lemma_ascii("relay"@);
    }
    assert(is_name("monitor"@)) by {
        reveal_strlit("monitor");
        reveal_with_fuel(ascii_before, 8);
        lemma_ascii("monitor"@);
    }
    assert(is_name("flash"@)) by {
        reveal_strlit("flash");
        reveal_with_fuel(ascii_before, 6);
        lemma_ascii("flash"@);
    }
    assert(is_name("download"@)) by {
        reveal_strlit("download");
        reveal_with_fuel(ascii_before, 9);
        lemma_ascii("download"@);
    }
    assert(is_name("control"@)) by {
        reveal_strlit("control");
        reveal_with_fuel(ascii_before, 8);
        lemma_ascii("control"@);
    }
    assert(is_name("loader"@)) by {
        reveal_strlit("loader");
        reveal_with_fuel(ascii_before, 7);
        lemma_ascii("loader"@);
    }
    assert(is_name("reference_log"@)) by {
        reveal_strlit("reference_log");
        reveal_with_fuel(ascii_before, 14);
        lemma_ascii("reference_log"@);
    }
    assert(is_name("dut_dir"@)) by {
        reveal_strlit("dut_dir");
        reveal_with_fuel(ascii_before, 8);
        lemma_ascii("dut_dir"@);
    }
}

proof fn lemma_host_names()
    ensures
        all_names(host_keys()),
{
    assert(is_name("host_name"@)) by {
        reveal_strlit("host_name");
        reveal_with_fuel(ascii_before, 10);
        lemma_ascii("host_name"@);
    }
    assert(is_name("ip"@)) by {
        reveal_strlit("ip");
        reveal_with_fuel(ascii_before, 3);
        lemma_ascii("ip"@);
    }
    assert(is_name("user"@)) by {
        reveal_strlit("user");
        reveal_with_fuel(ascii_before, 5);
        lemma_ascii("user"@);
    }
    assert(is_name("pass"@)) by {
        reveal_strlit("pass");
        reveal_with_fuel(ascii_before, 5);
        lemma_ascii("pass"@);
    }
    assert(is_name("duts"@)) by {
        reveal_strlit("duts");
        reveal_with_fuel(ascii_before, 5);
        lemma_ascii("duts"@);
    }
}

proof fn lemma_config_names()
    ensures
        all_names(config_keys()),
{
    assert(is_name("dev_hosts"@)) by {
        reveal_strlit("dev_hosts");
        reveal_with_fuel(ascii_before, 10);
        lemma_ascii("dev_hosts"@);
    }
    assert(is_name("serial"@)) by {
        reveal_strlit("serial");
        reveal_with_fuel(ascii_before, 7);
        lemma_ascii("serial"@);
    }
    assert(is_name("target"@)) by {
        reveal_strlit("target");
        reveal_with_fuel(ascii_before, 7);
        lemma_ascii("target"@);
    }
    assert(is_name("uboot"@)) by {
        reveal_strlit("uboot");
        reveal_with_fuel(ascii_before, 6);
        lemma_ascii("uboot"@);
    }
    assert(is_name("relay"@)) by {
        reveal_strlit("relay");
        reveal_with_fuel(ascii_before, 6);
        lemma_ascii("relay"@);
    }
    assert(is_name("monitor"@)) by {
        reveal_strlit("monitor");
        reveal_with_fuel(ascii_before, 8);
        lemma_ascii("monitor"@);
    }
    assert(is_name("flash"@)) by {
        reveal_strlit("flash");
        reveal_with_fuel(ascii_before, 6);
        lemma_ascii("flash"@);
    }
    assert(is_name("download"@)) by {
        reveal_strlit("download");
        reveal_with_fuel(ascii_before, 9);
        lemma_ascii("download"@);
    }
    assert(is_name("control"@)) by {
        reveal_strlit("control");
        reveal_with_fuel(ascii_before, 8);
        lemma_ascii("control"@);
    }
    assert(is_name("loader"@)) by {
        reveal_strlit("loader");
        reveal_with_fuel(ascii_before, 7);
        lemma_ascii("loader"@);
    }
    assert(is_name("reference_log"@)) by {
        reveal_strlit("reference_log");
        reveal_with_fuel(ascii_before, 14);
        lemma_ascii("reference_log"@);
    }
    assert(is_name("dut_dir"@)) by {
        reveal_strlit("dut_dir");
        reveal_with_fuel(ascii_before, 8);
        lemma_ascii("dut_dir"@);
    }
    assert(is_name("lock_dir"@)) by {
        reveal_strlit("lock_dir");
        reveal_with_fuel(ascii_before, 9);
        lemma_ascii("lock_dir"@);
    }
}

// ── Sections ─────────────────────────────────────────────────────────
proof fn lemma_serial_is_tidy(j: JsonView)
    requires
        serial_of(j) is Some,
    ensures
        tidy(j),
{
    if let JsonView::Object(m) = j {
        lemma_serial_names();
        lemma_named(m, serial_keys());
        assert forall|k: int| 0 <= k < m.len() implies tidy((#[trigger] m[k]).1) by {
            let i = lemma_known(m, serial_keys(), k);
            assert(is_scalar(m[k].1));
            lemma_scalar_is_tidy(m[k].1);
        }
        lemma_object_is_tidy(m);
    }
}

proof fn lemma_target_is_tidy(j: JsonView)
    requires
        target_of(j) is Some,
    ensures
        tidy(j),
{
    if let JsonView::Object(m) = j {
        lemma_target_names();
        lemma_named(m, target_keys());
        assert forall|k: int| 0 <= k < m.len() implies tidy((#[trigger] m[k]).1) by {
            let i = lemma_known(m, target_keys(), k);
            assert(is_scalar(m[k].1));
            lemma_scalar_is_tidy(m[k].1);
        }
        lemma_object_is_tidy(m);
    }
}

proof fn lemma_uboot_is_tidy(j: JsonView)
    requires
        uboot_of(j) is Some,
    ensures
        tidy(j),
{
    if let JsonView::Object(m) = j {
        lemma_uboot_names();
        lemma_named(m, uboot_keys());
        assert forall|k: int| 0 <= k < m.len() implies tidy((#[trigger] m[k]).1) by {
            let i = lemma_known(m, uboot_keys(), k);
            assert(is_scalar(m[k].1));
            lemma_scalar_is_tidy(m[k].1);
        }
        lemma_object_is_tidy(m);
    }
}

proof fn lemma_relay_is_tidy(j: JsonView)
    requires
        relay_of(j) is Some,
    ensures
        tidy(j),
{
    if let JsonView::Object(m) = j {
        lemma_relay_names();
        lemma_named(m, relay_keys());
        assert forall|k: int| 0 <= k < m.len() implies tidy((#[trigger] m[k]).1) by {
            let i = lemma_known(m, relay_keys(), k);
            assert(is_scalar(m[k].1));
            lemma_scalar_is_tidy(m[k].1);
        }
        lemma_object_is_tidy(m);
    }
}

proof fn lemma_monitor_is_tidy(j: JsonView)
    requires
        monitor_of(j) is Some,
    ensures
        tidy(j),
{
    if let JsonView::Object(m) = j {
        lemma_monitor_names();
        lemma_named(m, monitor_keys());
        assert forall|k: int| 0 <= k < m.len() implies tidy((#[trigger] m[k]).1) by {
            let i = lemma_known(m, monitor_keys(), k);
            if let JsonView::Array(v) = m[k].1 {
                lemma_texts(v, 0, Seq::empty());
                lemma_array_is_tidy(v);
            } else {
                assert(is_scalar(m[k].1));
                lemma_scalar_is_tidy(m[k].1);
            }
        }
        lemma_object_is_tidy(m);
    }
}

proof fn lemma_flash_is_tidy(j: JsonView)
    requires
        flash_of(j) is Some,
    ensures
        tidy(j),
{
    if let JsonView::Object(m) = j {
        lemma_flash_names();
        lemma_named(m, flash_keys());
        assert forall|k: int| 0 <= k < m.len() implies tidy((#[trigger] m[k]).1) by {
            let i = lemma_known(m, flash_keys(), k);
            assert(is_scalar(m[k].1));
            lemma_scalar_is_tidy(m[k].1);
        }
        lemma_object_is_tidy(m);
    }
}

proof fn lemma_control_is_tidy(j: JsonView)
    requires
        control_of(j) is Some,
    ensures
        tidy(j),
{
    if let JsonView::Object(m) = j {
        lemma_control_names();
        lemma_named(m, control_keys());
        assert forall|k: int| 0 <= k < m.len() implies tidy((#[trigger] m[k]).1) by {
            let i = lemma_known(m, control_keys(), k);
            assert(is_scalar(m[k].1));
            lemma_scalar_is_tidy(m[k].1);
        }
        lemma_object_is_tidy(m);
    }
}

/// The names of the relay values are printable ASCII characters.
pub proof fn lemma_relay_names_are_ascii()
    ensures
        forall|i: int| 0 <= i < relay_keys().len() ==> is_name(#[trigger] relay_keys()[i]),
        relay_keys().len() == 11,
        relay_keys()[0] == "type"@,
        relay_keys()[1] == "port"@,
        relay_keys()[3] == "reset_ch"@,
        relay_keys()[5] == "download_ch"@,
        relay_keys()[7] == "power_ch"@,
        relay_keys()[9] == "reset_time_ms"@,
        relay_keys()[10] == "power_off_time_ms"@,
{
    lemma_relay_names();
}

/// Whether the settings of a downloader, which may be any value, are tidy.
pub open spec fn download_tidy(o: Option<JsonView>) -> bool {
    o matches Some(j) ==> tidy(j)
}

pub proof fn lemma_dut_is_tidy(j: JsonView)
    requires
        dut_of(j) matches Some(d) && download_tidy(d.download),
    ensures
        tidy(j),
{
    if let JsonView::Object(m) = j {
        lemma_dut_names();
        lemma_named(m, dut_keys());
        assert forall|k: int| 0 <= k < m.len() implies tidy((#[trigger] m[k]).1) by {
            let i = lemma_known(m, dut_keys(), k);
            let x = m[k].1;
            if is_scalar(x) {
                lemma_scalar_is_tidy(x);
            } else if i == 1 {
                assert(m[k].0 == "serial"@);
                lemma_serial_is_tidy(x);
            } else if i == 2 {
                assert(m[k].0 == "target"@);
                lemma_target_is_tidy(x);
            } else if i == 3 {
                assert(m[k].0 == "uboot"@);
                lemma_uboot_is_tidy(x);
            } else if i == 4 {
                assert(m[k].0 == "relay"@);
                lemma_relay_is_tidy(x);
            } else if i == 5 {
                assert(m[k].0 == "monitor"@);
                lemma_monitor_is_tidy(x);
            } else if i == 6 {
                assert(m[k].0 == "flash"@);
                lemma_flash_is_tidy(x);
            } else if i == 7 {
                assert(m[k].0 == "download"@);
            } else if i == 8 {
                assert(m[k].0 == "control"@);
                lemma_control_is_tidy(x);
            }
        }
        lemma_object_is_tidy(m);
    }
}

proof fn lemma_duts_are_tidy(v: Seq<JsonView>, i: int, before: Seq<DutView>)
    requires
        0 <= i,
        duts_from(v, i, before) matches Some(all) && duts_tidy(all),
    ensures
        forall|k: int| i <= k < v.len() ==> tidy(#[trigger] v[k]),
    decreases v.len() - i,
{
    if i < v.len() {
        let d = dut_of(v[i])->0;
        lemma_duts_prefix(v, i + 1, before.push(d));
        lemma_duts_are_tidy(v, i + 1, before.push(d));
        let all = duts_from(v, i, before)->0;
        assert(all[before.len() as int] == d);
        lemma_dut_is_tidy(v[i]);
    }
}

proof fn lemma_duts_prefix(v: Seq<JsonView>, i: int, before: Seq<DutView>)
    requires
        0 <= i,
        duts_from(v, i, before) is Some,
    ensures
        ({
            let all = duts_from(v, i, before)->0;
            before.len() <= all.len() && forall|k: int|
                0 <= k < before.len() ==> #[trigger] all[k] == before[k]
        }),
    decreases v.len() - i,
{
    if i < v.len() {
        let more = before.push(dut_of(v[i])->0);
        lemma_duts_prefix(v, i + 1, more);
        let all = duts_from(v, i, before)->0;
        assert forall|k: int| 0 <= k < before.len() implies #[trigger] all[k] == before[k] by {
            assert(all[k] == more[k]);
        }
    }
}

/// Whether the downloader settings of the boards are tidy.
pub open spec fn duts_tidy(v: Seq<DutView>) -> bool {
    forall|k: int| 0 <= k < v.len() ==> download_tidy((#[trigger] v[k]).download)
}

pub proof fn lemma_host_is_tidy(j: JsonView)
    requires
        host_of(j) matches Some(h) && duts_tidy(h.duts),
    ensures
        tidy(j),
{
    if let JsonView::Object(m) = j {
        lemma_host_names();
        lemma_named(m, host_keys());
        assert forall|k: int| 0 <= k < m.len() implies tidy((#[trigger] m[k]).1) by {
            let i = lemma_known(m, host_keys(), k);
            let x = m[k].1;
            if is_scalar(x) {
                lemma_scalar_is_tidy(x);
            } else if i == 4 {
                assert(m[k].0 == "duts"@);
                lemma_duts_are_tidy(x->Array_0, 0, Seq::empty());
                lemma_array_is_tidy(x->Array_0);
            }
        }
        lemma_object_is_tidy(m);
    }
}

proof fn lemma_hosts_prefix(v: Seq<JsonView>, i: int, before: Seq<HostView>)
    requires
        0 <= i,
        hosts_from(v, i, before) is Some,
    ensures
        ({
            let all = hosts_from(v, i, before)->0;
            before.len() <= all.len() && forall|k: int|
                0 <= k < before.len() ==> #[trigger] all[k] == before[k]
        }),
    decreases v.len() - i,
{
    if i < v.len() {
        let more = before.push(host_of(v[i])->0);
        lemma_hosts_prefix(v, i + 1, more);
        let all = hosts_from(v, i, before)->0;
        assert forall|k: int| 0 <= k < before.len() implies #[trigger] all[k] == before[k] by {
            assert(all[k] == more[k]);
        }
    }
}

proof fn lemma_hosts_are_tidy(v: Seq<JsonView>, i: int, before: Seq<HostView>)
    requires
        0 <= i,
        hosts_from(v, i, before) matches Some(all) && hosts_tidy(all),
    ensures
        forall|k: int| i <= k < v.len() ==> tidy(#[trigger] v[k]),
    decreases v.len() - i,
{
    if i < v.len() {
        let h = host_of(v[i])->0;
        lemma_hosts_prefix(v, i + 1, before.push(h));
        lemma_hosts_are_tidy(v, i + 1, before.push(h));
        let all = hosts_from(v, i, before)->0;
        assert(all[before.len() as int] == h);
        lemma_host_is_tidy(v[i]);
    }
}

/// Whether the downloader settings of all boards of the hosts are tidy.
pub open spec fn hosts_tidy(v: Seq<HostView>) -> bool {
    forall|k: int| 0 <= k < v.len() ==> duts_tidy((#[trigger] v[k]).duts)
}

/// Whether the downloader settings of a configuration are tidy.
pub open spec fn downloads_tidy(c: ConfigView) -> bool {
    download_tidy(c.download) && hosts_tidy(c.dev_hosts)
}

proof fn lemma_config_is_tidy(j: JsonView)
    requires
        config_of(j) matches Some(c) && downloads_tidy(c),
    ensures
        tidy(j),
{
    if let JsonView::Object(m) = j {
        lemma_config_names();
        lemma_named(m, config_keys());
        assert forall|k: int| 0 <= k < m.len() implies tidy((#[trigger] m[k]).1) by {
            let i = lemma_known(m, config_keys(), k);
            let x = m[k].1;
            if is_scalar(x) {
                lemma_scalar_is_tidy(x);
            } else if i == 0 {
                assert(m[k].0 == "dev_hosts"@);
                lemma_hosts_are_tidy(x->Array_0, 0, Seq::empty());
                lemma_array_is_tidy(x->Array_0);
            } else if i == 1 {
                assert(m[k].0 == "serial"@);
                lemma_serial_is_tidy(x);
            } else if i == 2 {
                assert(m[k].0 == "target"@);
                lemma_target_is_tidy(x);
            } else if i == 3 {
                assert(m[k].0 == "uboot"@);
                lemma_uboot_is_tidy(x);
            } else if i == 4 {
                assert(m[k].0 == "relay"@);
                lemma_relay_is_tidy(x);
            } else if i == 5 {
                assert(m[k].0 == "monitor"@);
                lemma_monitor_is_tidy(x);
            } else if i == 6 {
                assert(m[k].0 == "flash"@);
                lemma_flash_is_tidy(x);
            } else if i == 7 {
                assert(m[k].0 == "download"@);
            } else if i == 8 {
                assert(m[k].0 == "control"@);
                lemma_control_is_tidy(x);
            }
        }
        lemma_object_is_tidy(m);
    }
}

/// A text that holds a configuration is a tidy document, but for what stands
/// in its downloader settings, which may be any value.
pub proof fn lemma_configuration_is_tidy(s: Seq<char>)
    requires
        config_text(s) matches Some(c) && downloads_tidy(c),
    ensures
        document(s) matches Some(j) && tidy(j) && j is Object,
{
    lemma_config_is_tidy(document(s)->0);
}

} // verus!

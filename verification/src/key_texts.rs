//! What a configuration says of a board's own keys, as text, by the members of
//! the document.
use crate::advanced::{dut_keys, dut_owned, field_of, point_from, section_of};
use crate::config::{
    config_of, control_value, dut_of, flash_value, member, monitor_value, serial_value,
    target_value, text_value, texts_from, uboot_value, ConfigView, ControlView, DutView, FlashView,
    MonitorView, SerialView, TargetView, UbootView,
};
use crate::current::{
    current_of, dut_current_of, keywords_now, number_now, put_control, put_dut_monitor, put_flash,
    put_monitor, put_opt, put_serial, put_target, put_uboot, scalar_now,
};
use crate::jsonc::JsonView;
use crate::locate::SegView;
use crate::number::{decimal, real_value, unsigned};
use crate::place::json_at;
use crate::text::joined;
use crate::text_map::{lemma_lookup_put, lookup, Pairs};
use crate::update_dut::dut_container;
use vstd::prelude::*;

verus! {

// ── The keys ─────────────────────────────────────────────────────────
proof fn lemma_serial_baudrate()
    ensures
        section_of("serial.baudrate"@) == "serial"@,
        field_of("serial.baudrate"@) == "baudrate"@,
        section_of("serial.baudrate"@).len() > 0,
{
    reveal_strlit("serial.baudrate");
    reveal_strlit("serial");
    reveal_strlit("baudrate");
    assert(point_from("serial.baudrate"@, 0) == Some(6int)) by {
        reveal_with_fuel(point_from, 7);
    }
    assert("serial.baudrate"@.take(6) =~= "serial"@);
    assert("serial.baudrate"@.skip(7) =~= "baudrate"@);
}

proof fn lemma_target_login_pass()
    ensures
        section_of("target.login_pass"@) == "target"@,
        field_of("target.login_pass"@) == "login_pass"@,
        section_of("target.login_pass"@).len() > 0,
{
    reveal_strlit("target.login_pass");
    reveal_strlit("target");
    reveal_strlit("login_pass");
    assert(point_from("target.login_pass"@, 0) == Some(6int)) by {
        reveal_with_fuel(point_from, 7);
    }
    assert("target.login_pass"@.take(6) =~= "target"@);
    assert("target.login_pass"@.skip(7) =~= "login_pass"@);
}

proof fn lemma_target_login_prompt()
    ensures
        section_of("target.login_prompt"@) == "target"@,
        field_of("target.login_prompt"@) == "login_prompt"@,
        section_of("target.login_prompt"@).len() > 0,
{
    reveal_strlit("target.login_prompt");
    reveal_strlit("target");
    reveal_strlit("login_prompt");
    assert(point_from("target.login_prompt"@, 0) == Some(6int)) by {
        reveal_with_fuel(point_from, 7);
    }
    assert("target.login_prompt"@.take(6) =~= "target"@);
    assert("target.login_prompt"@.skip(7) =~= "login_prompt"@);
}

proof fn lemma_uboot_interrupt_char()
    ensures
        section_of("uboot.interrupt_char"@) == "uboot"@,
        field_of("uboot.interrupt_char"@) == "interrupt_char"@,
        section_of("uboot.interrupt_char"@).len() > 0,
{
    reveal_strlit("uboot.interrupt_char");
    reveal_strlit("uboot");
    reveal_strlit("interrupt_char");
    assert(point_from("uboot.interrupt_char"@, 0) == Some(5int)) by {
        reveal_with_fuel(point_from, 6);
    }
    assert("uboot.interrupt_char"@.take(5) =~= "uboot"@);
    assert("uboot.interrupt_char"@.skip(6) =~= "interrupt_char"@);
}

proof fn lemma_uboot_interrupt_strategy()
    ensures
        section_of("uboot.interrupt_strategy"@) == "uboot"@,
        field_of("uboot.interrupt_strategy"@) == "interrupt_strategy"@,
        section_of("uboot.interrupt_strategy"@).len() > 0,
{
    reveal_strlit("uboot.interrupt_strategy");
    reveal_strlit("uboot");
    reveal_strlit("interrupt_strategy");
    assert(point_from("uboot.interrupt_strategy"@, 0) == Some(5int)) by {
        reveal_with_fuel(point_from, 6);
    }
    assert("uboot.interrupt_strategy"@.take(5) =~= "uboot"@);
    assert("uboot.interrupt_strategy"@.skip(6) =~= "interrupt_strategy"@);
}

proof fn lemma_uboot_pattern()
    ensures
        section_of("uboot.pattern"@) == "uboot"@,
        field_of("uboot.pattern"@) == "pattern"@,
        section_of("uboot.pattern"@).len() > 0,
{
    reveal_strlit("uboot.pattern");
    reveal_strlit("uboot");
    reveal_strlit("pattern");
    assert(point_from("uboot.pattern"@, 0) == Some(5int)) by {
        reveal_with_fuel(point_from, 6);
    }
    assert("uboot.pattern"@.take(5) =~= "uboot"@);
    assert("uboot.pattern"@.skip(6) =~= "pattern"@);
}

proof fn lemma_monitor_max_archived_logs()
    ensures
        section_of("monitor.max_archived_logs"@) == "monitor"@,
        field_of("monitor.max_archived_logs"@) == "max_archived_logs"@,
        section_of("monitor.max_archived_logs"@).len() > 0,
{
    reveal_strlit("monitor.max_archived_logs");
    reveal_strlit("monitor");
    reveal_strlit("max_archived_logs");
    assert(point_from("monitor.max_archived_logs"@, 0) == Some(7int)) by {
        reveal_with_fuel(point_from, 8);
    }
    assert("monitor.max_archived_logs"@.take(7) =~= "monitor"@);
    assert("monitor.max_archived_logs"@.skip(8) =~= "max_archived_logs"@);
}

proof fn lemma_monitor_reference_log()
    ensures
        section_of("monitor.reference_log"@) == "monitor"@,
        field_of("monitor.reference_log"@) == "reference_log"@,
        section_of("monitor.reference_log"@).len() > 0,
{
    reveal_strlit("monitor.reference_log");
    reveal_strlit("monitor");
    reveal_strlit("reference_log");
    assert(point_from("monitor.reference_log"@, 0) == Some(7int)) by {
        reveal_with_fuel(point_from, 8);
    }
    assert("monitor.reference_log"@.take(7) =~= "monitor"@);
    assert("monitor.reference_log"@.skip(8) =~= "reference_log"@);
}

proof fn lemma_monitor_crash_keywords()
    ensures
        section_of("monitor.crash_keywords"@) == "monitor"@,
        field_of("monitor.crash_keywords"@) == "crash_keywords"@,
        section_of("monitor.crash_keywords"@).len() > 0,
{
    reveal_strlit("monitor.crash_keywords");
    reveal_strlit("monitor");
    reveal_strlit("crash_keywords");
    assert(point_from("monitor.crash_keywords"@, 0) == Some(7int)) by {
        reveal_with_fuel(point_from, 8);
    }
    assert("monitor.crash_keywords"@.take(7) =~= "monitor"@);
    assert("monitor.crash_keywords"@.skip(8) =~= "crash_keywords"@);
}

proof fn lemma_flash_full_image_cmd()
    ensures
        section_of("flash.full_image_cmd"@) == "flash"@,
        field_of("flash.full_image_cmd"@) == "full_image_cmd"@,
        section_of("flash.full_image_cmd"@).len() > 0,
{
    reveal_strlit("flash.full_image_cmd");
    reveal_strlit("flash");
    reveal_strlit("full_image_cmd");
    assert(point_from("flash.full_image_cmd"@, 0) == Some(5int)) by {
        reveal_with_fuel(point_from, 6);
    }
    assert("flash.full_image_cmd"@.take(5) =~= "flash"@);
    assert("flash.full_image_cmd"@.skip(6) =~= "full_image_cmd"@);
}

proof fn lemma_flash_kernel_image_cmd()
    ensures
        section_of("flash.kernel_image_cmd"@) == "flash"@,
        field_of("flash.kernel_image_cmd"@) == "kernel_image_cmd"@,
        section_of("flash.kernel_image_cmd"@).len() > 0,
{
    reveal_strlit("flash.kernel_image_cmd");
    reveal_strlit("flash");
    reveal_strlit("kernel_image_cmd");
    assert(point_from("flash.kernel_image_cmd"@, 0) == Some(5int)) by {
        reveal_with_fuel(point_from, 6);
    }
    assert("flash.kernel_image_cmd"@.take(5) =~= "flash"@);
    assert("flash.kernel_image_cmd"@.skip(6) =~= "kernel_image_cmd"@);
}

proof fn lemma_flash_loader_bin()
    ensures
        section_of("flash.loader_bin"@) == "flash"@,
        field_of("flash.loader_bin"@) == "loader_bin"@,
        section_of("flash.loader_bin"@).len() > 0,
{
    reveal_strlit("flash.loader_bin");
    reveal_strlit("flash");
    reveal_strlit("loader_bin");
    assert(point_from("flash.loader_bin"@, 0) == Some(5int)) by {
        reveal_with_fuel(point_from, 6);
    }
    assert("flash.loader_bin"@.take(5) =~= "flash"@);
    assert("flash.loader_bin"@.skip(6) =~= "loader_bin"@);
}

proof fn lemma_control_dev_ctrl()
    ensures
        section_of("control.dev_ctrl"@) == "control"@,
        field_of("control.dev_ctrl"@) == "dev_ctrl"@,
        section_of("control.dev_ctrl"@).len() > 0,
{
    reveal_strlit("control.dev_ctrl");
    reveal_strlit("control");
    reveal_strlit("dev_ctrl");
    assert(point_from("control.dev_ctrl"@, 0) == Some(7int)) by {
        reveal_with_fuel(point_from, 8);
    }
    assert("control.dev_ctrl"@.take(7) =~= "control"@);
    assert("control.dev_ctrl"@.skip(8) =~= "dev_ctrl"@);
}

proof fn lemma_loader()
    ensures
        section_of("loader"@).len() == 0,
        field_of("loader"@) == "loader"@,
{
    reveal_strlit("loader");
    assert(point_from("loader"@, 0) is None) by {
        reveal_with_fuel(point_from, 7);
    }
}

/// The names of the keys differ, by their lengths or by a letter.
pub proof fn lemma_names_differ()
    ensures
        "serial.baudrate"@ != "target.login_pass"@,
        "serial.baudrate"@ != "target.login_prompt"@,
        "serial.baudrate"@ != "uboot.interrupt_char"@,
        "serial.baudrate"@ != "uboot.interrupt_strategy"@,
        "serial.baudrate"@ != "uboot.pattern"@,
        "serial.baudrate"@ != "monitor.max_archived_logs"@,
        "serial.baudrate"@ != "monitor.reference_log"@,
        "serial.baudrate"@ != "monitor.crash_keywords"@,
        "serial.baudrate"@ != "flash.full_image_cmd"@,
        "serial.baudrate"@ != "flash.kernel_image_cmd"@,
        "serial.baudrate"@ != "flash.loader_bin"@,
        "serial.baudrate"@ != "control.dev_ctrl"@,
        "serial.baudrate"@ != "loader"@,
        "serial.baudrate"@ != "monitor.hang_timeout"@,
        "serial.baudrate"@ != "monitor.max_log_file_size"@,
        "serial.baudrate"@ != "monitor.learner_stage_threshold"@,
        "serial.baudrate"@ != "monitor.learner_crash_threshold"@,
        "target.login_pass"@ != "target.login_prompt"@,
        "target.login_pass"@ != "uboot.interrupt_char"@,
        "target.login_pass"@ != "uboot.interrupt_strategy"@,
        "target.login_pass"@ != "uboot.pattern"@,
        "target.login_pass"@ != "monitor.max_archived_logs"@,
        "target.login_pass"@ != "monitor.reference_log"@,
        "target.login_pass"@ != "monitor.crash_keywords"@,
        "target.login_pass"@ != "flash.full_image_cmd"@,
        "target.login_pass"@ != "flash.kernel_image_cmd"@,
        "target.login_pass"@ != "flash.loader_bin"@,
        "target.login_pass"@ != "control.dev_ctrl"@,
        "target.login_pass"@ != "loader"@,
        "target.login_pass"@ != "monitor.hang_timeout"@,
        "target.login_pass"@ != "monitor.max_log_file_size"@,
        "target.login_pass"@ != "monitor.learner_stage_threshold"@,
        "target.login_pass"@ != "monitor.learner_crash_threshold"@,
        "target.login_prompt"@ != "uboot.interrupt_char"@,
        "target.login_prompt"@ != "uboot.interrupt_strategy"@,
        "target.login_prompt"@ != "uboot.pattern"@,
        "target.login_prompt"@ != "monitor.max_archived_logs"@,
        "target.login_prompt"@ != "monitor.reference_log"@,
        "target.login_prompt"@ != "monitor.crash_keywords"@,
        "target.login_prompt"@ != "flash.full_image_cmd"@,
        "target.login_prompt"@ != "flash.kernel_image_cmd"@,
        "target.login_prompt"@ != "flash.loader_bin"@,
        "target.login_prompt"@ != "control.dev_ctrl"@,
        "target.login_prompt"@ != "loader"@,
        "target.login_prompt"@ != "monitor.hang_timeout"@,
        "target.login_prompt"@ != "monitor.max_log_file_size"@,
        "target.login_prompt"@ != "monitor.learner_stage_threshold"@,
        "target.login_prompt"@ != "monitor.learner_crash_threshold"@,
        "uboot.interrupt_char"@ != "uboot.interrupt_strategy"@,
        "uboot.interrupt_char"@ != "uboot.pattern"@,
        "uboot.interrupt_char"@ != "monitor.max_archived_logs"@,
        "uboot.interrupt_char"@ != "monitor.reference_log"@,
        "uboot.interrupt_char"@ != "monitor.crash_keywords"@,
        "uboot.interrupt_char"@ != "flash.full_image_cmd"@,
        "uboot.interrupt_char"@ != "flash.kernel_image_cmd"@,
        "uboot.interrupt_char"@ != "flash.loader_bin"@,
        "uboot.interrupt_char"@ != "control.dev_ctrl"@,
        "uboot.interrupt_char"@ != "loader"@,
        "uboot.interrupt_char"@ != "monitor.hang_timeout"@,
        "uboot.interrupt_char"@ != "monitor.max_log_file_size"@,
        "uboot.interrupt_char"@ != "monitor.learner_stage_threshold"@,
        "uboot.interrupt_char"@ != "monitor.learner_crash_threshold"@,
        "uboot.interrupt_strategy"@ != "uboot.pattern"@,
        "uboot.interrupt_strategy"@ != "monitor.max_archived_logs"@,
        "uboot.interrupt_strategy"@ != "monitor.reference_log"@,
        "uboot.interrupt_strategy"@ != "monitor.crash_keywords"@,
        "uboot.interrupt_strategy"@ != "flash.full_image_cmd"@,
        "uboot.interrupt_strategy"@ != "flash.kernel_image_cmd"@,
        "uboot.interrupt_strategy"@ != "flash.loader_bin"@,
        "uboot.interrupt_strategy"@ != "control.dev_ctrl"@,
        "uboot.interrupt_strategy"@ != "loader"@,
        "uboot.interrupt_strategy"@ != "monitor.hang_timeout"@,
        "uboot.interrupt_strategy"@ != "monitor.max_log_file_size"@,
        "uboot.interrupt_strategy"@ != "monitor.learner_stage_threshold"@,
        "uboot.interrupt_strategy"@ != "monitor.learner_crash_threshold"@,
        "uboot.pattern"@ != "monitor.max_archived_logs"@,
        "uboot.pattern"@ != "monitor.reference_log"@,
        "uboot.pattern"@ != "monitor.crash_keywords"@,
        "uboot.pattern"@ != "flash.full_image_cmd"@,
        "uboot.pattern"@ != "flash.kernel_image_cmd"@,
        "uboot.pattern"@ != "flash.loader_bin"@,
        "uboot.pattern"@ != "control.dev_ctrl"@,
        "uboot.pattern"@ != "loader"@,
        "uboot.pattern"@ != "monitor.hang_timeout"@,
        "uboot.pattern"@ != "monitor.max_log_file_size"@,
        "uboot.pattern"@ != "monitor.learner_stage_threshold"@,
        "uboot.pattern"@ != "monitor.learner_crash_threshold"@,
        "monitor.max_archived_logs"@ != "monitor.reference_log"@,
        "monitor.max_archived_logs"@ != "monitor.crash_keywords"@,
        "monitor.max_archived_logs"@ != "flash.full_image_cmd"@,
        "monitor.max_archived_logs"@ != "flash.kernel_image_cmd"@,
        "monitor.max_archived_logs"@ != "flash.loader_bin"@,
        "monitor.max_archived_logs"@ != "control.dev_ctrl"@,
        "monitor.max_archived_logs"@ != "loader"@,
        "monitor.max_archived_logs"@ != "monitor.hang_timeout"@,
        "monitor.max_archived_logs"@ != "monitor.max_log_file_size"@,
        "monitor.max_archived_logs"@ != "monitor.learner_stage_threshold"@,
        "monitor.max_archived_logs"@ != "monitor.learner_crash_threshold"@,
        "monitor.reference_log"@ != "monitor.crash_keywords"@,
        "monitor.reference_log"@ != "flash.full_image_cmd"@,
        "monitor.reference_log"@ != "flash.kernel_image_cmd"@,
        "monitor.reference_log"@ != "flash.loader_bin"@,
        "monitor.reference_log"@ != "control.dev_ctrl"@,
        "monitor.reference_log"@ != "loader"@,
        "monitor.reference_log"@ != "monitor.hang_timeout"@,
        "monitor.reference_log"@ != "monitor.max_log_file_size"@,
        "monitor.reference_log"@ != "monitor.learner_stage_threshold"@,
        "monitor.reference_log"@ != "monitor.learner_crash_threshold"@,
        "monitor.crash_keywords"@ != "flash.full_image_cmd"@,
        "monitor.crash_keywords"@ != "flash.kernel_image_cmd"@,
        "monitor.crash_keywords"@ != "flash.loader_bin"@,
        "monitor.crash_keywords"@ != "control.dev_ctrl"@,
        "monitor.crash_keywords"@ != "loader"@,
        "monitor.crash_keywords"@ != "monitor.hang_timeout"@,
        "monitor.crash_keywords"@ != "monitor.max_log_file_size"@,
        "monitor.crash_keywords"@ != "monitor.learner_stage_threshold"@,
        "monitor.crash_keywords"@ != "monitor.learner_crash_threshold"@,
        "flash.full_image_cmd"@ != "flash.kernel_image_cmd"@,
        "flash.full_image_cmd"@ != "flash.loader_bin"@,
        "flash.full_image_cmd"@ != "control.dev_ctrl"@,
        "flash.full_image_cmd"@ != "loader"@,
        "flash.full_image_cmd"@ != "monitor.hang_timeout"@,
        "flash.full_image_cmd"@ != "monitor.max_log_file_size"@,
        "flash.full_image_cmd"@ != "monitor.learner_stage_threshold"@,
        "flash.full_image_cmd"@ != "monitor.learner_crash_threshold"@,
        "flash.kernel_image_cmd"@ != "flash.loader_bin"@,
        "flash.kernel_image_cmd"@ != "control.dev_ctrl"@,
        "flash.kernel_image_cmd"@ != "loader"@,
        "flash.kernel_image_cmd"@ != "monitor.hang_timeout"@,
        "flash.kernel_image_cmd"@ != "monitor.max_log_file_size"@,
        "flash.kernel_image_cmd"@ != "monitor.learner_stage_threshold"@,
        "flash.kernel_image_cmd"@ != "monitor.learner_crash_threshold"@,
        "flash.loader_bin"@ != "control.dev_ctrl"@,
        "flash.loader_bin"@ != "loader"@,
        "flash.loader_bin"@ != "monitor.hang_timeout"@,
        "flash.loader_bin"@ != "monitor.max_log_file_size"@,
        "flash.loader_bin"@ != "monitor.learner_stage_threshold"@,
        "flash.loader_bin"@ != "monitor.learner_crash_threshold"@,
        "control.dev_ctrl"@ != "loader"@,
        "control.dev_ctrl"@ != "monitor.hang_timeout"@,
        "control.dev_ctrl"@ != "monitor.max_log_file_size"@,
        "control.dev_ctrl"@ != "monitor.learner_stage_threshold"@,
        "control.dev_ctrl"@ != "monitor.learner_crash_threshold"@,
        "loader"@ != "monitor.hang_timeout"@,
        "loader"@ != "monitor.max_log_file_size"@,
        "loader"@ != "monitor.learner_stage_threshold"@,
        "loader"@ != "monitor.learner_crash_threshold"@,
{
    reveal_strlit("serial.baudrate");
    reveal_strlit("target.login_pass");
    reveal_strlit("target.login_prompt");
    reveal_strlit("uboot.interrupt_char");
    reveal_strlit("uboot.interrupt_strategy");
    reveal_strlit("uboot.pattern");
    reveal_strlit("monitor.max_archived_logs");
    reveal_strlit("monitor.reference_log");
    reveal_strlit("monitor.crash_keywords");
    reveal_strlit("flash.full_image_cmd");
    reveal_strlit("flash.kernel_image_cmd");
    reveal_strlit("flash.loader_bin");
    reveal_strlit("control.dev_ctrl");
    reveal_strlit("loader");
    reveal_strlit("monitor.hang_timeout");
    reveal_strlit("monitor.max_log_file_size");
    reveal_strlit("monitor.learner_stage_threshold");
    reveal_strlit("monitor.learner_crash_threshold");
    assert("serial.baudrate"@.len() == 15);
    assert("target.login_pass"@.len() == 17);
    assert("target.login_prompt"@.len() == 19);
    assert("uboot.interrupt_char"@.len() == 20);
    assert("uboot.interrupt_strategy"@.len() == 24);
    assert("uboot.pattern"@.len() == 13);
    assert("monitor.max_archived_logs"@.len() == 25);
    assert("monitor.reference_log"@.len() == 21);
    assert("monitor.crash_keywords"@.len() == 22);
    assert("flash.full_image_cmd"@.len() == 20);
    assert("flash.kernel_image_cmd"@.len() == 22);
    assert("flash.loader_bin"@.len() == 16);
    assert("control.dev_ctrl"@.len() == 16);
    assert("loader"@.len() == 6);
    assert("monitor.hang_timeout"@.len() == 20);
    assert("monitor.max_log_file_size"@.len() == 25);
    assert("monitor.learner_stage_threshold"@.len() == 31);
    assert("monitor.learner_crash_threshold"@.len() == 31);
    assert("uboot.interrupt_char"@[0] == 'u' && "flash.full_image_cmd"@[0] == 'f');
    assert("uboot.interrupt_char"@[0] == 'u' && "monitor.hang_timeout"@[0] == 'm');
    assert("monitor.max_archived_logs"@[12] == 'a' && "monitor.max_log_file_size"@[12] == 'l');
    assert("monitor.crash_keywords"@[0] == 'm' && "flash.kernel_image_cmd"@[0] == 'f');
    assert("flash.full_image_cmd"@[0] == 'f' && "monitor.hang_timeout"@[0] == 'm');
    assert("flash.loader_bin"@[0] == 'f' && "control.dev_ctrl"@[0] == 'c');
}

/// They differ from the keys that boards do not have.
pub proof fn lemma_other_names_differ()
    ensures
        "serial.baudrate"@ != "serial.rfc2217"@,
        "serial.baudrate"@ != "lock_dir"@,
        "serial.baudrate"@ != "relay.port"@,
        "serial.baudrate"@ != "relay.reset_ch"@,
        "serial.baudrate"@ != "relay.download_ch"@,
        "serial.baudrate"@ != "relay.power_ch"@,
        "serial.baudrate"@ != "relay.reset_time_ms"@,
        "serial.baudrate"@ != "relay.power_off_time_ms"@,
        "serial.baudrate"@ != "monitor.hang_hysteresis"@,
        "target.login_pass"@ != "serial.rfc2217"@,
        "target.login_pass"@ != "lock_dir"@,
        "target.login_pass"@ != "relay.port"@,
        "target.login_pass"@ != "relay.reset_ch"@,
        "target.login_pass"@ != "relay.download_ch"@,
        "target.login_pass"@ != "relay.power_ch"@,
        "target.login_pass"@ != "relay.reset_time_ms"@,
        "target.login_pass"@ != "relay.power_off_time_ms"@,
        "target.login_pass"@ != "monitor.hang_hysteresis"@,
        "target.login_prompt"@ != "serial.rfc2217"@,
        "target.login_prompt"@ != "lock_dir"@,
        "target.login_prompt"@ != "relay.port"@,
        "target.login_prompt"@ != "relay.reset_ch"@,
        "target.login_prompt"@ != "relay.download_ch"@,
        "target.login_prompt"@ != "relay.power_ch"@,
        "target.login_prompt"@ != "relay.reset_time_ms"@,
        "target.login_prompt"@ != "relay.power_off_time_ms"@,
        "target.login_prompt"@ != "monitor.hang_hysteresis"@,
        "uboot.interrupt_char"@ != "serial.rfc2217"@,
        "uboot.interrupt_char"@ != "lock_dir"@,
        "uboot.interrupt_char"@ != "relay.port"@,
        "uboot.interrupt_char"@ != "relay.reset_ch"@,
        "uboot.interrupt_char"@ != "relay.download_ch"@,
        "uboot.interrupt_char"@ != "relay.power_ch"@,
        "uboot.interrupt_char"@ != "relay.reset_time_ms"@,
        "uboot.interrupt_char"@ != "relay.power_off_time_ms"@,
        "uboot.interrupt_char"@ != "monitor.hang_hysteresis"@,
        "uboot.interrupt_strategy"@ != "serial.rfc2217"@,
        "uboot.interrupt_strategy"@ != "lock_dir"@,
        "uboot.interrupt_strategy"@ != "relay.port"@,
        "uboot.interrupt_strategy"@ != "relay.reset_ch"@,
        "uboot.interrupt_strategy"@ != "relay.download_ch"@,
        "uboot.interrupt_strategy"@ != "relay.power_ch"@,
        "uboot.interrupt_strategy"@ != "relay.reset_time_ms"@,
        "uboot.interrupt_strategy"@ != "relay.power_off_time_ms"@,
        "uboot.interrupt_strategy"@ != "monitor.hang_hysteresis"@,
        "uboot.pattern"@ != "serial.rfc2217"@,
        "uboot.pattern"@ != "lock_dir"@,
        "uboot.pattern"@ != "relay.port"@,
        "uboot.pattern"@ != "relay.reset_ch"@,
        "uboot.pattern"@ != "relay.download_ch"@,
        "uboot.pattern"@ != "relay.power_ch"@,
        "uboot.pattern"@ != "relay.reset_time_ms"@,
        "uboot.pattern"@ != "relay.power_off_time_ms"@,
        "uboot.pattern"@ != "monitor.hang_hysteresis"@,
        "monitor.max_archived_logs"@ != "serial.rfc2217"@,
        "monitor.max_archived_logs"@ != "lock_dir"@,
        "monitor.max_archived_logs"@ != "relay.port"@,
        "monitor.max_archived_logs"@ != "relay.reset_ch"@,
        "monitor.max_archived_logs"@ != "relay.download_ch"@,
        "monitor.max_archived_logs"@ != "relay.power_ch"@,
        "monitor.max_archived_logs"@ != "relay.reset_time_ms"@,
        "monitor.max_archived_logs"@ != "relay.power_off_time_ms"@,
        "monitor.max_archived_logs"@ != "monitor.hang_hysteresis"@,
        "monitor.reference_log"@ != "serial.rfc2217"@,
        "monitor.reference_log"@ != "lock_dir"@,
        "monitor.reference_log"@ != "relay.port"@,
        "monitor.reference_log"@ != "relay.reset_ch"@,
        "monitor.reference_log"@ != "relay.download_ch"@,
        "monitor.reference_log"@ != "relay.power_ch"@,
        "monitor.reference_log"@ != "relay.reset_time_ms"@,
        "monitor.reference_log"@ != "relay.power_off_time_ms"@,
        "monitor.reference_log"@ != "monitor.hang_hysteresis"@,
        "monitor.crash_keywords"@ != "serial.rfc2217"@,
        "monitor.crash_keywords"@ != "lock_dir"@,
        "monitor.crash_keywords"@ != "relay.port"@,
        "monitor.crash_keywords"@ != "relay.reset_ch"@,
        "monitor.crash_keywords"@ != "relay.download_ch"@,
        "monitor.crash_keywords"@ != "relay.power_ch"@,
        "monitor.crash_keywords"@ != "relay.reset_time_ms"@,
        "monitor.crash_keywords"@ != "relay.power_off_time_ms"@,
        "monitor.crash_keywords"@ != "monitor.hang_hysteresis"@,
        "flash.full_image_cmd"@ != "serial.rfc2217"@,
        "flash.full_image_cmd"@ != "lock_dir"@,
        "flash.full_image_cmd"@ != "relay.port"@,
        "flash.full_image_cmd"@ != "relay.reset_ch"@,
        "flash.full_image_cmd"@ != "relay.download_ch"@,
        "flash.full_image_cmd"@ != "relay.power_ch"@,
        "flash.full_image_cmd"@ != "relay.reset_time_ms"@,
        "flash.full_image_cmd"@ != "relay.power_off_time_ms"@,
        "flash.full_image_cmd"@ != "monitor.hang_hysteresis"@,
        "flash.kernel_image_cmd"@ != "serial.rfc2217"@,
        "flash.kernel_image_cmd"@ != "lock_dir"@,
        "flash.kernel_image_cmd"@ != "relay.port"@,
        "flash.kernel_image_cmd"@ != "relay.reset_ch"@,
        "flash.kernel_image_cmd"@ != "relay.download_ch"@,
        "flash.kernel_image_cmd"@ != "relay.power_ch"@,
        "flash.kernel_image_cmd"@ != "relay.reset_time_ms"@,
        "flash.kernel_image_cmd"@ != "relay.power_off_time_ms"@,
        "flash.kernel_image_cmd"@ != "monitor.hang_hysteresis"@,
        "flash.loader_bin"@ != "serial.rfc2217"@,
        "flash.loader_bin"@ != "lock_dir"@,
        "flash.loader_bin"@ != "relay.port"@,
        "flash.loader_bin"@ != "relay.reset_ch"@,
        "flash.loader_bin"@ != "relay.download_ch"@,
        "flash.loader_bin"@ != "relay.power_ch"@,
        "flash.loader_bin"@ != "relay.reset_time_ms"@,
        "flash.loader_bin"@ != "relay.power_off_time_ms"@,
        "flash.loader_bin"@ != "monitor.hang_hysteresis"@,
        "control.dev_ctrl"@ != "serial.rfc2217"@,
        "control.dev_ctrl"@ != "lock_dir"@,
        "control.dev_ctrl"@ != "relay.port"@,
        "control.dev_ctrl"@ != "relay.reset_ch"@,
        "control.dev_ctrl"@ != "relay.download_ch"@,
        "control.dev_ctrl"@ != "relay.power_ch"@,
        "control.dev_ctrl"@ != "relay.reset_time_ms"@,
        "control.dev_ctrl"@ != "relay.power_off_time_ms"@,
        "control.dev_ctrl"@ != "monitor.hang_hysteresis"@,
        "loader"@ != "serial.rfc2217"@,
        "loader"@ != "lock_dir"@,
        "loader"@ != "relay.port"@,
        "loader"@ != "relay.reset_ch"@,
        "loader"@ != "relay.download_ch"@,
        "loader"@ != "relay.power_ch"@,
        "loader"@ != "relay.reset_time_ms"@,
        "loader"@ != "relay.power_off_time_ms"@,
        "loader"@ != "monitor.hang_hysteresis"@,
{
    reveal_strlit("serial.baudrate");
    reveal_strlit("target.login_pass");
    reveal_strlit("target.login_prompt");
    reveal_strlit("uboot.interrupt_char");
    reveal_strlit("uboot.interrupt_strategy");
    reveal_strlit("uboot.pattern");
    reveal_strlit("monitor.max_archived_logs");
    reveal_strlit("monitor.reference_log");
    reveal_strlit("monitor.crash_keywords");
    reveal_strlit("flash.full_image_cmd");
    reveal_strlit("flash.kernel_image_cmd");
    reveal_strlit("flash.loader_bin");
    reveal_strlit("control.dev_ctrl");
    reveal_strlit("loader");
    reveal_strlit("serial.rfc2217");
    reveal_strlit("lock_dir");
    reveal_strlit("relay.port");
    reveal_strlit("relay.reset_ch");
    reveal_strlit("relay.download_ch");
    reveal_strlit("relay.power_ch");
    reveal_strlit("relay.reset_time_ms");
    reveal_strlit("relay.power_off_time_ms");
    reveal_strlit("monitor.hang_hysteresis");
    assert("serial.baudrate"@.len() == 15);
    assert("target.login_pass"@.len() == 17);
    assert("target.login_prompt"@.len() == 19);
    assert("uboot.interrupt_char"@.len() == 20);
    assert("uboot.interrupt_strategy"@.len() == 24);
    assert("uboot.pattern"@.len() == 13);
    assert("monitor.max_archived_logs"@.len() == 25);
    assert("monitor.reference_log"@.len() == 21);
    assert("monitor.crash_keywords"@.len() == 22);
    assert("flash.full_image_cmd"@.len() == 20);
    assert("flash.kernel_image_cmd"@.len() == 22);
    assert("flash.loader_bin"@.len() == 16);
    assert("control.dev_ctrl"@.len() == 16);
    assert("loader"@.len() == 6);
    assert("serial.rfc2217"@.len() == 14);
    assert("lock_dir"@.len() == 8);
    assert("relay.port"@.len() == 10);
    assert("relay.reset_ch"@.len() == 14);
    assert("relay.download_ch"@.len() == 17);
    assert("relay.power_ch"@.len() == 14);
    assert("relay.reset_time_ms"@.len() == 19);
    assert("relay.power_off_time_ms"@.len() == 23);
    assert("monitor.hang_hysteresis"@.len() == 23);
    assert("target.login_pass"@[0] == 't' && "relay.download_ch"@[0] == 'r');
    assert("target.login_prompt"@[0] == 't' && "relay.reset_time_ms"@[0] == 'r');
}

// ── Texts ────────────────────────────────────────────────────────────
/// How a value of a document is shown.
pub open spec fn shown(w: Option<JsonView>) -> Option<Seq<char>> {
    match w {
        Some(JsonView::Text(t)) => Some(t),
        Some(JsonView::Number(t)) => match unsigned(t, u64::MAX as nat) {
            Some(n) => Some(decimal(n)),
            None => match real_value(t) {
                Some(x) => Some(x.text),
                None => None,
            },
        },
        Some(JsonView::Array(v)) => match texts_from(v, 0, Seq::empty()) {
            Some(l) => Some(joined(l, ", "@)),
            None => None,
        },
        _ => None,
    }
}

/// Where a key stands below the value at a path.
pub open spec fn key_spot_at(base: Seq<SegView>, key: Seq<char>) -> Seq<SegView> {
    dut_container(base, key).push(SegView::Key(field_of(key)))
}

/// What a value says under a key.
pub open spec fn under_key(j: JsonView, key: Seq<char>) -> Option<JsonView> {
    json_at(j, key_spot_at(Seq::empty(), key))
}

/// The text of a board's own key in some sections.
pub open spec fn sections_text(
    serial: Option<SerialView>,
    target: Option<TargetView>,
    uboot: Option<UbootView>,
    monitor: Option<MonitorView>,
    flash: Option<FlashView>,
    control: Option<ControlView>,
    loader: Option<Seq<char>>,
    key: Seq<char>,
) -> Option<Seq<char>> {
    if key == "serial.baudrate"@ {
        match serial {
            Some(x) => scalar_now(x.baudrate),
            None => None,
        }
    } else if key == "target.login_pass"@ {
        match target {
            Some(x) => x.login_pass,
            None => None,
        }
    } else if key == "target.login_prompt"@ {
        match target {
            Some(x) => x.login_prompt,
            None => None,
        }
    } else if key == "uboot.interrupt_char"@ {
        match uboot {
            Some(x) => x.interrupt_char,
            None => None,
        }
    } else if key == "uboot.interrupt_strategy"@ {
        match uboot {
            Some(x) => x.interrupt_strategy,
            None => None,
        }
    } else if key == "uboot.pattern"@ {
        match uboot {
            Some(x) => x.pattern,
            None => None,
        }
    } else if key == "monitor.max_archived_logs"@ {
        match monitor {
            Some(x) => number_now(x.max_archived_logs),
            None => None,
        }
    } else if key == "monitor.reference_log"@ {
        match monitor {
            Some(x) => x.reference_log,
            None => None,
        }
    } else if key == "monitor.crash_keywords"@ {
        match monitor {
            Some(x) => keywords_now(x.crash_keywords),
            None => None,
        }
    } else if key == "flash.full_image_cmd"@ {
        match flash {
            Some(x) => x.full_image_cmd,
            None => None,
        }
    } else if key == "flash.kernel_image_cmd"@ {
        match flash {
            Some(x) => x.kernel_image_cmd,
            None => None,
        }
    } else if key == "flash.loader_bin"@ {
        match flash {
            Some(x) => x.loader_bin,
            None => None,
        }
    } else if key == "control.dev_ctrl"@ {
        match control {
            Some(x) => x.dev_ctrl,
            None => None,
        }
    } else {
        loader
    }
}

broadcast proof fn lemma_lookup_opt(
    p: Pairs,
    key: Seq<char>,
    value: Option<Seq<char>>,
    other: Seq<char>,
)
    ensures
        (#[trigger] lookup(put_opt(p, key, value), other)) == (if value is Some && key == other {
            value
        } else {
            lookup(p, other)
        }),
{
    if let Some(v) = value {
        lemma_lookup_put(p, key, v, other);
    }
}

pub proof fn lemma_which(key: Seq<char>)
    requires
        dut_owned(key),
    ensures
        key == "serial.baudrate"@
            || key == "target.login_pass"@
            || key == "target.login_prompt"@
            || key == "uboot.interrupt_char"@
            || key == "uboot.interrupt_strategy"@
            || key == "uboot.pattern"@
            || key == "monitor.max_archived_logs"@
            || key == "monitor.reference_log"@
            || key == "monitor.crash_keywords"@
            || key == "flash.full_image_cmd"@
            || key == "flash.kernel_image_cmd"@
            || key == "flash.loader_bin"@
            || key == "control.dev_ctrl"@
            || key == "loader"@,
{
    let i = choose|i: int| 0 <= i < dut_keys().len() && dut_keys()[i] == key;
    assert(dut_keys()[i] == key);
}

/// The sections and fields of the boards' own keys.
pub proof fn lemma_key_parts()
    ensures
        section_of("serial.baudrate"@) == "serial"@,
        field_of("serial.baudrate"@) == "baudrate"@,
        section_of("serial.baudrate"@).len() > 0,
        section_of("target.login_pass"@) == "target"@,
        field_of("target.login_pass"@) == "login_pass"@,
        section_of("target.login_pass"@).len() > 0,
        section_of("target.login_prompt"@) == "target"@,
        field_of("target.login_prompt"@) == "login_prompt"@,
        section_of("target.login_prompt"@).len() > 0,
        section_of("uboot.interrupt_char"@) == "uboot"@,
        field_of("uboot.interrupt_char"@) == "interrupt_char"@,
        section_of("uboot.interrupt_char"@).len() > 0,
        section_of("uboot.interrupt_strategy"@) == "uboot"@,
        field_of("uboot.interrupt_strategy"@) == "interrupt_strategy"@,
        section_of("uboot.interrupt_strategy"@).len() > 0,
        section_of("uboot.pattern"@) == "uboot"@,
        field_of("uboot.pattern"@) == "pattern"@,
        section_of("uboot.pattern"@).len() > 0,
        section_of("monitor.max_archived_logs"@) == "monitor"@,
        field_of("monitor.max_archived_logs"@) == "max_archived_logs"@,
        section_of("monitor.max_archived_logs"@).len() > 0,
        section_of("monitor.reference_log"@) == "monitor"@,
        field_of("monitor.reference_log"@) == "reference_log"@,
        section_of("monitor.reference_log"@).len() > 0,
        section_of("monitor.crash_keywords"@) == "monitor"@,
        field_of("monitor.crash_keywords"@) == "crash_keywords"@,
        section_of("monitor.crash_keywords"@).len() > 0,
        section_of("flash.full_image_cmd"@) == "flash"@,
        field_of("flash.full_image_cmd"@) == "full_image_cmd"@,
        section_of("flash.full_image_cmd"@).len() > 0,
        section_of("flash.kernel_image_cmd"@) == "flash"@,
        field_of("flash.kernel_image_cmd"@) == "kernel_image_cmd"@,
        section_of("flash.kernel_image_cmd"@).len() > 0,
        section_of("flash.loader_bin"@) == "flash"@,
        field_of("flash.loader_bin"@) == "loader_bin"@,
        section_of("flash.loader_bin"@).len() > 0,
        section_of("control.dev_ctrl"@) == "control"@,
        field_of("control.dev_ctrl"@) == "dev_ctrl"@,
        section_of("control.dev_ctrl"@).len() > 0,
        section_of("loader"@).len() == 0,
        field_of("loader"@) == "loader"@,
{
    lemma_serial_baudrate();
    lemma_target_login_pass();
    lemma_target_login_prompt();
    lemma_uboot_interrupt_char();
    lemma_uboot_interrupt_strategy();
    lemma_uboot_pattern();
    lemma_monitor_max_archived_logs();
    lemma_monitor_reference_log();
    lemma_monitor_crash_keywords();
    lemma_flash_full_image_cmd();
    lemma_flash_kernel_image_cmd();
    lemma_flash_loader_bin();
    lemma_control_dev_ctrl();
    reveal_strlit("loader");
    assert(point_from("loader"@, 0) is None) by {
        reveal_with_fuel(point_from, 8);
    }
}

/// What is held for a board under one of its own keys.
pub proof fn lemma_own_text(d: DutView, key: Seq<char>)
    requires
        dut_owned(key),
    ensures
        lookup(dut_current_of(d), key) == sections_text(
            d.serial,
            d.target,
            d.uboot,
            d.monitor,
            d.flash,
            d.control,
            d.loader,
            key,
        ),
{
    broadcast use lemma_lookup_opt;

    lemma_names_differ();
    lemma_which(key);
    assert(lookup(Pairs::empty(), key) is None);
}

/// A monitor section at the top level holds a board's keys as that of a board
/// does.
proof fn lemma_monitor_alike(p: Pairs, o: Option<MonitorView>, key: Seq<char>)
    requires
        dut_owned(key),
    ensures
        lookup(put_monitor(p, o), key) == lookup(put_dut_monitor(p, o), key),
{
    broadcast use lemma_lookup_opt;

    lemma_names_differ();
    lemma_which(key);
}

proof fn lemma_rest_alike(
    p: Pairs,
    q: Pairs,
    flash: Option<FlashView>,
    control: Option<ControlView>,
    loader: Option<Seq<char>>,
    key: Seq<char>,
)
    requires
        lookup(p, key) == lookup(q, key),
    ensures
        lookup(put_opt(put_control(put_flash(p, flash), control), "loader"@, loader), key)
            == lookup(put_opt(put_control(put_flash(q, flash), control), "loader"@, loader), key),
{
    broadcast use lemma_lookup_opt;

}

/// What is held at the top level under a key that boards have of their own.
pub proof fn lemma_top_text(c: ConfigView, key: Seq<char>)
    requires
        dut_owned(key),
    ensures
        lookup(current_of(c), key) == sections_text(
            c.serial,
            c.target,
            c.uboot,
            c.monitor,
            c.flash,
            c.control,
            c.loader,
            key,
        ),
{
    let d = DutView {
        dut_name: Seq::empty(),
        serial: c.serial,
        target: c.target,
        uboot: c.uboot,
        relay: None,
        monitor: c.monitor,
        flash: c.flash,
        download: None,
        control: c.control,
        loader: c.loader,
        reference_log: None,
        dut_dir: None,
    };
    lemma_own_text(d, key);
    let p = put_uboot(put_target(put_serial(Pairs::empty(), c.serial), c.target), c.uboot);
    lemma_monitor_alike(p, c.monitor, key);
    lemma_rest_alike(
        put_monitor(p, c.monitor),
        put_dut_monitor(p, c.monitor),
        c.flash,
        c.control,
        c.loader,
        key,
    );
}

// ── Members ──────────────────────────────────────────────────────────
proof fn lemma_two_steps(j: JsonView, section: Seq<char>, field: Seq<char>)
    ensures
        json_at(j, Seq::empty().push(SegView::Key(section)).push(SegView::Key(field))) == (match j {
            JsonView::Object(m) => match member(m, section) {
                Some(JsonView::Object(x)) => member(x, field),
                _ => None,
            },
            _ => None,
        }),
        json_at(j, Seq::empty().push(SegView::Key(field))) == (match j {
            JsonView::Object(m) => member(m, field),
            _ => None,
        }),
{
    let one = Seq::empty().push(SegView::Key(field));
    let two = Seq::empty().push(SegView::Key(section)).push(SegView::Key(field));
    assert(two.drop_first() =~= one);
    assert(one.drop_first() =~= Seq::<SegView>::empty());
    reveal_with_fuel(json_at, 3);
}

/// Whether some sections are those that the members of an object say.
pub open spec fn says_sections(
    j: JsonView,
    serial: Option<SerialView>,
    target: Option<TargetView>,
    uboot: Option<UbootView>,
    monitor: Option<MonitorView>,
    flash: Option<FlashView>,
    control: Option<ControlView>,
    loader: Option<Seq<char>>,
) -> bool {
    j matches JsonView::Object(m) && {
        &&& serial_value(member(m, "serial"@)) == Some(serial)
        &&& target_value(member(m, "target"@)) == Some(target)
        &&& uboot_value(member(m, "uboot"@)) == Some(uboot)
        &&& monitor_value(member(m, "monitor"@)) == Some(monitor)
        &&& flash_value(member(m, "flash"@)) == Some(flash)
        &&& control_value(member(m, "control"@)) == Some(control)
        &&& text_value(member(m, "loader"@)) == Some(loader)
    }
}

proof fn lemma_sections_shown(
    j: JsonView,
    serial: Option<SerialView>,
    target: Option<TargetView>,
    uboot: Option<UbootView>,
    monitor: Option<MonitorView>,
    flash: Option<FlashView>,
    control: Option<ControlView>,
    loader: Option<Seq<char>>,
    key: Seq<char>,
)
    requires
        dut_owned(key),
        says_sections(j, serial, target, uboot, monitor, flash, control, loader),
    ensures
        sections_text(serial, target, uboot, monitor, flash, control, loader, key) == shown(
            under_key(j, key),
        ),
{
    lemma_names_differ();
    lemma_which(key);
    lemma_two_steps(j, section_of(key), field_of(key));
    let base = Seq::<SegView>::empty();
    if key == "serial.baudrate"@ {
        lemma_serial_baudrate();
    } else if key == "target.login_pass"@ {
        lemma_target_login_pass();
    } else if key == "target.login_prompt"@ {
        lemma_target_login_prompt();
    } else if key == "uboot.interrupt_char"@ {
        lemma_uboot_interrupt_char();
    } else if key == "uboot.interrupt_strategy"@ {
        lemma_uboot_interrupt_strategy();
    } else if key == "uboot.pattern"@ {
        lemma_uboot_pattern();
    } else if key == "monitor.max_archived_logs"@ {
        lemma_monitor_max_archived_logs();
    } else if key == "monitor.reference_log"@ {
        lemma_monitor_reference_log();
    } else if key == "monitor.crash_keywords"@ {
        lemma_monitor_crash_keywords();
    } else if key == "flash.full_image_cmd"@ {
        lemma_flash_full_image_cmd();
    } else if key == "flash.kernel_image_cmd"@ {
        lemma_flash_kernel_image_cmd();
    } else if key == "flash.loader_bin"@ {
        lemma_flash_loader_bin();
    } else if key == "control.dev_ctrl"@ {
        lemma_control_dev_ctrl();
    } else if key == "loader"@ {
        lemma_loader();
    }
}

/// What is held for a board under one of its own keys is what the document
/// says there.
pub proof fn lemma_board_says_key(j: JsonView, d: DutView, key: Seq<char>)
    requires
        dut_of(j) == Some(d),
        dut_owned(key),
    ensures
        lookup(dut_current_of(d), key) == shown(under_key(j, key)),
{
    lemma_own_text(d, key);
    lemma_sections_shown(
        j,
        d.serial,
        d.target,
        d.uboot,
        d.monitor,
        d.flash,
        d.control,
        d.loader,
        key,
    );
}

/// What is held at the top level under such a key is what the document says
/// there.
pub proof fn lemma_top_says_key(j: JsonView, c: ConfigView, key: Seq<char>)
    requires
        config_of(j) == Some(c),
        dut_owned(key),
    ensures
        lookup(current_of(c), key) == shown(under_key(j, key)),
{
    lemma_top_text(c, key);
    lemma_sections_shown(
        j,
        c.serial,
        c.target,
        c.uboot,
        c.monitor,
        c.flash,
        c.control,
        c.loader,
        key,
    );
}

} // verus!

//! The keys that an answer can be written for: the section and the field of
//! each.
use crate::advanced::{field_of, literal_of, point_from, section_of};
use crate::board_keys::{clean_before, lemma_clean};
use crate::pieces::plain;
use crate::place::is_name;
use vstd::prelude::*;

verus! {

/// The keys that an answer can be written for.
pub open spec fn top_keys() -> Seq<Seq<char>> {
    seq![
        "serial.baudrate"@,
        "serial.rfc2217"@,
        "target.login_pass"@,
        "target.login_prompt"@,
        "monitor.reference_log"@,
        "flash.full_image_cmd"@,
        "flash.kernel_image_cmd"@,
        "flash.loader_bin"@,
        "control.dev_ctrl"@,
        "loader"@,
        "lock_dir"@,
        "uboot.interrupt_strategy"@,
        "uboot.pattern"@,
        "uboot.interrupt_char"@,
        "relay.port"@,
        "relay.reset_ch"@,
        "relay.download_ch"@,
        "relay.power_ch"@,
        "relay.reset_time_ms"@,
        "relay.power_off_time_ms"@,
        "monitor.hang_timeout"@,
        "monitor.hang_hysteresis"@,
        "monitor.max_archived_logs"@,
        "monitor.max_log_file_size"@,
        "monitor.learner_stage_threshold"@,
        "monitor.learner_crash_threshold"@,
        "monitor.crash_keywords"@,
    ]
}

/// The sections of those keys.
pub open spec fn top_sections() -> Seq<Seq<char>> {
    seq!["serial"@, "target"@, "uboot"@, "relay"@, "monitor"@, "flash"@, "control"@]
}

/// A section name is a plain name, and not that of another member.
pub proof fn lemma_top_section(section: Seq<char>)
    requires
        top_sections().contains(section),
    ensures
        section.len() > 0,
        plain(section),
        is_name(section),
        section != "dev_hosts"@,
        section != "lock_dir"@,
        section != "loader"@,
        "dev_hosts"@ != "lock_dir"@,
        "dev_hosts"@ != "loader"@,
{
    lemma_other_names();
    reveal_strlit("loader");
    reveal_strlit("lock_dir");
    reveal_strlit("dev_hosts");
    assert("loader"@.len() == 6 && "loader"@[0] == 'l');
    assert("lock_dir"@.len() == 8);
    assert("dev_hosts"@.len() == 9);
    let i = choose|i: int| 0 <= i < top_sections().len() && top_sections()[i] == section;
    if i == 0 {
        reveal_strlit("serial");
        reveal_with_fuel(clean_before, 7);
        assert("serial"@[0] == 's');
        lemma_clean("serial"@);
    } else if i == 1 {
        reveal_strlit("target");
        reveal_with_fuel(clean_before, 7);
        assert("target"@[0] == 't');
        lemma_clean("target"@);
    } else if i == 2 {
        reveal_strlit("uboot");
        reveal_with_fuel(clean_before, 6);
        assert("uboot"@[0] == 'u');
        lemma_clean("uboot"@);
    } else if i == 3 {
        reveal_strlit("relay");
        reveal_with_fuel(clean_before, 6);
        assert("relay"@[0] == 'r');
        lemma_clean("relay"@);
    } else if i == 4 {
        reveal_strlit("monitor");
        reveal_with_fuel(clean_before, 8);
        assert("monitor"@[0] == 'm');
        lemma_clean("monitor"@);
    } else if i == 5 {
        reveal_strlit("flash");
        reveal_with_fuel(clean_before, 6);
        assert("flash"@[0] == 'f');
        lemma_clean("flash"@);
    } else if i == 6 {
        reveal_strlit("control");
        reveal_with_fuel(clean_before, 8);
        assert("control"@[0] == 'c');
        lemma_clean("control"@);
    }
}

/// The members that are no sections have different names.
pub proof fn lemma_other_names()
    ensures
        "dev_hosts"@ != "lock_dir"@,
        "dev_hosts"@ != "loader"@,
        "dev_hosts"@.len() > 0,
{
    reveal_strlit("loader");
    reveal_strlit("lock_dir");
    reveal_strlit("dev_hosts");
    assert("loader"@.len() == 6);
    assert("lock_dir"@.len() == 8);
    assert("dev_hosts"@.len() == 9);
}

/// What is known of the parts of a key.
pub open spec fn top_parts(key: Seq<char>) -> bool {
    let section = section_of(key);
    let field = field_of(key);
    &&& plain(field)
    &&& is_name(field)
    &&& section.len() > 0 ==> top_sections().contains(section) && key == section + seq!['.'] + field
    &&& section.len() == 0 ==> key == field && (field == "loader"@ || field == "lock_dir"@)
}

proof fn lemma_top_serial_baudrate()
    ensures
        top_parts("serial.baudrate"@),
{
    reveal_strlit("serial.baudrate");
    reveal_strlit("serial");
    reveal_strlit("baudrate");
    assert(point_from("serial.baudrate"@, 0) == Some(6int)) by {
        reveal_with_fuel(point_from, 7);
    }
    assert("serial.baudrate"@.take(6) =~= "serial"@);
    assert("serial.baudrate"@.skip(7) =~= "baudrate"@);
    assert("serial.baudrate"@ =~= "serial"@ + seq!['.'] + "baudrate"@);
    assert(top_sections()[0] == "serial"@);
    assert(clean_before("baudrate"@, 8)) by {
        reveal_with_fuel(clean_before, 9);
    }
    lemma_clean("baudrate"@);
}

proof fn lemma_top_serial_rfc2217()
    ensures
        top_parts("serial.rfc2217"@),
{
    reveal_strlit("serial.rfc2217");
    reveal_strlit("serial");
    reveal_strlit("rfc2217");
    assert(point_from("serial.rfc2217"@, 0) == Some(6int)) by {
        reveal_with_fuel(point_from, 7);
    }
    assert("serial.rfc2217"@.take(6) =~= "serial"@);
    assert("serial.rfc2217"@.skip(7) =~= "rfc2217"@);
    assert("serial.rfc2217"@ =~= "serial"@ + seq!['.'] + "rfc2217"@);
    assert(top_sections()[0] == "serial"@);
    assert(clean_before("rfc2217"@, 7)) by {
        reveal_with_fuel(clean_before, 8);
    }
    lemma_clean("rfc2217"@);
}

proof fn lemma_top_target_login_pass()
    ensures
        top_parts("target.login_pass"@),
{
    reveal_strlit("target.login_pass");
    reveal_strlit("target");
    reveal_strlit("login_pass");
    assert(point_from("target.login_pass"@, 0) == Some(6int)) by {
        reveal_with_fuel(point_from, 7);
    }
    assert("target.login_pass"@.take(6) =~= "target"@);
    assert("target.login_pass"@.skip(7) =~= "login_pass"@);
    assert("target.login_pass"@ =~= "target"@ + seq!['.'] + "login_pass"@);
    assert(top_sections()[1] == "target"@);
    assert(clean_before("login_pass"@, 10)) by {
        reveal_with_fuel(clean_before, 11);
    }
    lemma_clean("login_pass"@);
}

proof fn lemma_top_target_login_prompt()
    ensures
        top_parts("target.login_prompt"@),
{
    reveal_strlit("target.login_prompt");
    reveal_strlit("target");
    reveal_strlit("login_prompt");
    assert(point_from("target.login_prompt"@, 0) == Some(6int)) by {
        reveal_with_fuel(point_from, 7);
    }
    assert("target.login_prompt"@.take(6) =~= "target"@);
    assert("target.login_prompt"@.skip(7) =~= "login_prompt"@);
    assert("target.login_prompt"@ =~= "target"@ + seq!['.'] + "login_prompt"@);
    assert(top_sections()[1] == "target"@);
    assert(clean_before("login_prompt"@, 12)) by {
        reveal_with_fuel(clean_before, 13);
    }
    lemma_clean("login_prompt"@);
}

proof fn lemma_top_monitor_reference_log()
    ensures
        top_parts("monitor.reference_log"@),
{
    reveal_strlit("monitor.reference_log");
    reveal_strlit("monitor");
    reveal_strlit("reference_log");
    assert(point_from("monitor.reference_log"@, 0) == Some(7int)) by {
        reveal_with_fuel(point_from, 8);
    }
    assert("monitor.reference_log"@.take(7) =~= "monitor"@);
    assert("monitor.reference_log"@.skip(8) =~= "reference_log"@);
    assert("monitor.reference_log"@ =~= "monitor"@ + seq!['.'] + "reference_log"@);
    assert(top_sections()[4] == "monitor"@);
    assert(clean_before("reference_log"@, 13)) by {
        reveal_with_fuel(clean_before, 14);
    }
    lemma_clean("reference_log"@);
}

proof fn lemma_top_flash_full_image_cmd()
    ensures
        top_parts("flash.full_image_cmd"@),
{
    reveal_strlit("flash.full_image_cmd");
    reveal_strlit("flash");
    reveal_strlit("full_image_cmd");
    assert(point_from("flash.full_image_cmd"@, 0) == Some(5int)) by {
        reveal_with_fuel(point_from, 6);
    }
    assert("flash.full_image_cmd"@.take(5) =~= "flash"@);
    assert("flash.full_image_cmd"@.skip(6) =~= "full_image_cmd"@);
    assert("flash.full_image_cmd"@ =~= "flash"@ + seq!['.'] + "full_image_cmd"@);
    assert(top_sections()[5] == "flash"@);
    assert(clean_before("full_image_cmd"@, 14)) by {
        reveal_with_fuel(clean_before, 15);
    }
    lemma_clean("full_image_cmd"@);
}

proof fn lemma_top_flash_kernel_image_cmd()
    ensures
        top_parts("flash.kernel_image_cmd"@),
{
    reveal_strlit("flash.kernel_image_cmd");
    reveal_strlit("flash");
    reveal_strlit("kernel_image_cmd");
    assert(point_from("flash.kernel_image_cmd"@, 0) == Some(5int)) by {
        reveal_with_fuel(point_from, 6);
    }
    assert("flash.kernel_image_cmd"@.take(5) =~= "flash"@);
    assert("flash.kernel_image_cmd"@.skip(6) =~= "kernel_image_cmd"@);
    assert("flash.kernel_image_cmd"@ =~= "flash"@ + seq!['.'] + "kernel_image_cmd"@);
    assert(top_sections()[5] == "flash"@);
    assert(clean_before("kernel_image_cmd"@, 16)) by {
        reveal_with_fuel(clean_before, 17);
    }
    lemma_clean("kernel_image_cmd"@);
}

proof fn lemma_top_flash_loader_bin()
    ensures
        top_parts("flash.loader_bin"@),
{
    reveal_strlit("flash.loader_bin");
    reveal_strlit("flash");
    reveal_strlit("loader_bin");
    assert(point_from("flash.loader_bin"@, 0) == Some(5int)) by {
        reveal_with_fuel(point_from, 6);
    }
    assert("flash.loader_bin"@.take(5) =~= "flash"@);
    assert("flash.loader_bin"@.skip(6) =~= "loader_bin"@);
    assert("flash.loader_bin"@ =~= "flash"@ + seq!['.'] + "loader_bin"@);
    assert(top_sections()[5] == "flash"@);
    assert(clean_before("loader_bin"@, 10)) by {
        reveal_with_fuel(clean_before, 11);
    }
    lemma_clean("loader_bin"@);
}

proof fn lemma_top_control_dev_ctrl()
    ensures
        top_parts("control.dev_ctrl"@),
{
    reveal_strlit("control.dev_ctrl");
    reveal_strlit("control");
    reveal_strlit("dev_ctrl");
    assert(point_from("control.dev_ctrl"@, 0) == Some(7int)) by {
        reveal_with_fuel(point_from, 8);
    }
    assert("control.dev_ctrl"@.take(7) =~= "control"@);
    assert("control.dev_ctrl"@.skip(8) =~= "dev_ctrl"@);
    assert("control.dev_ctrl"@ =~= "control"@ + seq!['.'] + "dev_ctrl"@);
    assert(top_sections()[6] == "control"@);
    assert(clean_before("dev_ctrl"@, 8)) by {
        reveal_with_fuel(clean_before, 9);
    }
    lemma_clean("dev_ctrl"@);
}

proof fn lemma_top_loader()
    ensures
        top_parts("loader"@),
{
    reveal_strlit("loader");
    assert(point_from("loader"@, 0) is None) by {
        reveal_with_fuel(point_from, 7);
    }
    assert(clean_before("loader"@, 6)) by {
        reveal_with_fuel(clean_before, 7);
    }
    lemma_clean("loader"@);
}

proof fn lemma_top_lock_dir()
    ensures
        top_parts("lock_dir"@),
{
    reveal_strlit("lock_dir");
    assert(point_from("lock_dir"@, 0) is None) by {
        reveal_with_fuel(point_from, 9);
    }
    assert(clean_before("lock_dir"@, 8)) by {
        reveal_with_fuel(clean_before, 9);
    }
    lemma_clean("lock_dir"@);
}

proof fn lemma_top_uboot_interrupt_strategy()
    ensures
        top_parts("uboot.interrupt_strategy"@),
{
    reveal_strlit("uboot.interrupt_strategy");
    reveal_strlit("uboot");
    reveal_strlit("interrupt_strategy");
    assert(point_from("uboot.interrupt_strategy"@, 0) == Some(5int)) by {
        reveal_with_fuel(point_from, 6);
    }
    assert("uboot.interrupt_strategy"@.take(5) =~= "uboot"@);
    assert("uboot.interrupt_strategy"@.skip(6) =~= "interrupt_strategy"@);
    assert("uboot.interrupt_strategy"@ =~= "uboot"@ + seq!['.'] + "interrupt_strategy"@);
    assert(top_sections()[2] == "uboot"@);
    assert(clean_before("interrupt_strategy"@, 18)) by {
        reveal_with_fuel(clean_before, 19);
    }
    lemma_clean("interrupt_strategy"@);
}

proof fn lemma_top_uboot_pattern()
    ensures
        top_parts("uboot.pattern"@),
{
    reveal_strlit("uboot.pattern");
    reveal_strlit("uboot");
    reveal_strlit("pattern");
    assert(point_from("uboot.pattern"@, 0) == Some(5int)) by {
        reveal_with_fuel(point_from, 6);
    }
    assert("uboot.pattern"@.take(5) =~= "uboot"@);
    assert("uboot.pattern"@.skip(6) =~= "pattern"@);
    assert("uboot.pattern"@ =~= "uboot"@ + seq!['.'] + "pattern"@);
    assert(top_sections()[2] == "uboot"@);
    assert(clean_before("pattern"@, 7)) by {
        reveal_with_fuel(clean_before, 8);
    }
    lemma_clean("pattern"@);
}

proof fn lemma_top_uboot_interrupt_char()
    ensures
        top_parts("uboot.interrupt_char"@),
{
    reveal_strlit("uboot.interrupt_char");
    reveal_strlit("uboot");
    reveal_strlit("interrupt_char");
    assert(point_from("uboot.interrupt_char"@, 0) == Some(5int)) by {
        reveal_with_fuel(point_from, 6);
    }
    assert("uboot.interrupt_char"@.take(5) =~= "uboot"@);
    assert("uboot.interrupt_char"@.skip(6) =~= "interrupt_char"@);
    assert("uboot.interrupt_char"@ =~= "uboot"@ + seq!['.'] + "interrupt_char"@);
    assert(top_sections()[2] == "uboot"@);
    assert(clean_before("interrupt_char"@, 14)) by {
        reveal_with_fuel(clean_before, 15);
    }
    lemma_clean("interrupt_char"@);
}

proof fn lemma_top_relay_port()
    ensures
        top_parts("relay.port"@),
{
    reveal_strlit("relay.port");
    reveal_strlit("relay");
    reveal_strlit("port");
    assert(point_from("relay.port"@, 0) == Some(5int)) by {
        reveal_with_fuel(point_from, 6);
    }
    assert("relay.port"@.take(5) =~= "relay"@);
    assert("relay.port"@.skip(6) =~= "port"@);
    assert("relay.port"@ =~= "relay"@ + seq!['.'] + "port"@);
    assert(top_sections()[3] == "relay"@);
    assert(clean_before("port"@, 4)) by {
        reveal_with_fuel(clean_before, 5);
    }
    lemma_clean("port"@);
}

proof fn lemma_top_relay_reset_ch()
    ensures
        top_parts("relay.reset_ch"@),
{
    reveal_strlit("relay.reset_ch");
    reveal_strlit("relay");
    reveal_strlit("reset_ch");
    assert(point_from("relay.reset_ch"@, 0) == Some(5int)) by {
        reveal_with_fuel(point_from, 6);
    }
    assert("relay.reset_ch"@.take(5) =~= "relay"@);
    assert("relay.reset_ch"@.skip(6) =~= "reset_ch"@);
    assert("relay.reset_ch"@ =~= "relay"@ + seq!['.'] + "reset_ch"@);
    assert(top_sections()[3] == "relay"@);
    assert(clean_before("reset_ch"@, 8)) by {
        reveal_with_fuel(clean_before, 9);
    }
    lemma_clean("reset_ch"@);
}

proof fn lemma_top_relay_download_ch()
    ensures
        top_parts("relay.download_ch"@),
{
    reveal_strlit("relay.download_ch");
    reveal_strlit("relay");
    reveal_strlit("download_ch");
    assert(point_from("relay.download_ch"@, 0) == Some(5int)) by {
        reveal_with_fuel(point_from, 6);
    }
    assert("relay.download_ch"@.take(5) =~= "relay"@);
    assert("relay.download_ch"@.skip(6) =~= "download_ch"@);
    assert("relay.download_ch"@ =~= "relay"@ + seq!['.'] + "download_ch"@);
    assert(top_sections()[3] == "relay"@);
    assert(clean_before("download_ch"@, 11)) by {
        reveal_with_fuel(clean_before, 12);
    }
    lemma_clean("download_ch"@);
}

proof fn lemma_top_relay_power_ch()
    ensures
        top_parts("relay.power_ch"@),
{
    reveal_strlit("relay.power_ch");
    reveal_strlit("relay");
    reveal_strlit("power_ch");
    assert(point_from("relay.power_ch"@, 0) == Some(5int)) by {
        reveal_with_fuel(point_from, 6);
    }
    assert("relay.power_ch"@.take(5) =~= "relay"@);
    assert("relay.power_ch"@.skip(6) =~= "power_ch"@);
    assert("relay.power_ch"@ =~= "relay"@ + seq!['.'] + "power_ch"@);
    assert(top_sections()[3] == "relay"@);
    assert(clean_before("power_ch"@, 8)) by {
        reveal_with_fuel(clean_before, 9);
    }
    lemma_clean("power_ch"@);
}

proof fn lemma_top_relay_reset_time_ms()
    ensures
        top_parts("relay.reset_time_ms"@),
{
    reveal_strlit("relay.reset_time_ms");
    reveal_strlit("relay");
    reveal_strlit("reset_time_ms");
    assert(point_from("relay.reset_time_ms"@, 0) == Some(5int)) by {
        reveal_with_fuel(point_from, 6);
    }
    assert("relay.reset_time_ms"@.take(5) =~= "relay"@);
    assert("relay.reset_time_ms"@.skip(6) =~= "reset_time_ms"@);
    assert("relay.reset_time_ms"@ =~= "relay"@ + seq!['.'] + "reset_time_ms"@);
    assert(top_sections()[3] == "relay"@);
    assert(clean_before("reset_time_ms"@, 13)) by {
        reveal_with_fuel(clean_before, 14);
    }
    lemma_clean("reset_time_ms"@);
}

proof fn lemma_top_relay_power_off_time_ms()
    ensures
        top_parts("relay.power_off_time_ms"@),
{
    reveal_strlit("relay.power_off_time_ms");
    reveal_strlit("relay");
    reveal_strlit("power_off_time_ms");
    assert(point_from("relay.power_off_time_ms"@, 0) == Some(5int)) by {
        reveal_with_fuel(point_from, 6);
    }
    assert("relay.power_off_time_ms"@.take(5) =~= "relay"@);
    assert("relay.power_off_time_ms"@.skip(6) =~= "power_off_time_ms"@);
    assert("relay.power_off_time_ms"@ =~= "relay"@ + seq!['.'] + "power_off_time_ms"@);
    assert(top_sections()[3] == "relay"@);
    assert(clean_before("power_off_time_ms"@, 17)) by {
        reveal_with_fuel(clean_before, 18);
    }
    lemma_clean("power_off_time_ms"@);
}

proof fn lemma_top_monitor_hang_timeout()
    ensures
        top_parts("monitor.hang_timeout"@),
{
    reveal_strlit("monitor.hang_timeout");
    reveal_strlit("monitor");
    reveal_strlit("hang_timeout");
    assert(point_from("monitor.hang_timeout"@, 0) == Some(7int)) by {
        reveal_with_fuel(point_from, 8);
    }
    assert("monitor.hang_timeout"@.take(7) =~= "monitor"@);
    assert("monitor.hang_timeout"@.skip(8) =~= "hang_timeout"@);
    assert("monitor.hang_timeout"@ =~= "monitor"@ + seq!['.'] + "hang_timeout"@);
    assert(top_sections()[4] == "monitor"@);
    assert(clean_before("hang_timeout"@, 12)) by {
        reveal_with_fuel(clean_before, 13);
    }
    lemma_clean("hang_timeout"@);
}

proof fn lemma_top_monitor_hang_hysteresis()
    ensures
        top_parts("monitor.hang_hysteresis"@),
{
    reveal_strlit("monitor.hang_hysteresis");
    reveal_strlit("monitor");
    reveal_strlit("hang_hysteresis");
    assert(point_from("monitor.hang_hysteresis"@, 0) == Some(7int)) by {
        reveal_with_fuel(point_from, 8);
    }
    assert("monitor.hang_hysteresis"@.take(7) =~= "monitor"@);
    assert("monitor.hang_hysteresis"@.skip(8) =~= "hang_hysteresis"@);
    assert("monitor.hang_hysteresis"@ =~= "monitor"@ + seq!['.'] + "hang_hysteresis"@);
    assert(top_sections()[4] == "monitor"@);
    assert(clean_before("hang_hysteresis"@, 15)) by {
        reveal_with_fuel(clean_before, 16);
    }
    lemma_clean("hang_hysteresis"@);
}

proof fn lemma_top_monitor_max_archived_logs()
    ensures
        top_parts("monitor.max_archived_logs"@),
{
    reveal_strlit("monitor.max_archived_logs");
    reveal_strlit("monitor");
    reveal_strlit("max_archived_logs");
    assert(point_from("monitor.max_archived_logs"@, 0) == Some(7int)) by {
        reveal_with_fuel(point_from, 8);
    }
    assert("monitor.max_archived_logs"@.take(7) =~= "monitor"@);
    assert("monitor.max_archived_logs"@.skip(8) =~= "max_archived_logs"@);
    assert("monitor.max_archived_logs"@ =~= "monitor"@ + seq!['.'] + "max_archived_logs"@);
    assert(top_sections()[4] == "monitor"@);
    assert(clean_before("max_archived_logs"@, 17)) by {
        reveal_with_fuel(clean_before, 18);
    }
    lemma_clean("max_archived_logs"@);
}

proof fn lemma_top_monitor_max_log_file_size()
    ensures
        top_parts("monitor.max_log_file_size"@),
{
    reveal_strlit("monitor.max_log_file_size");
    reveal_strlit("monitor");
    reveal_strlit("max_log_file_size");
    assert(point_from("monitor.max_log_file_size"@, 0) == Some(7int)) by {
        reveal_with_fuel(point_from, 8);
    }
    assert("monitor.max_log_file_size"@.take(7) =~= "monitor"@);
    assert("monitor.max_log_file_size"@.skip(8) =~= "max_log_file_size"@);
    assert("monitor.max_log_file_size"@ =~= "monitor"@ + seq!['.'] + "max_log_file_size"@);
    assert(top_sections()[4] == "monitor"@);
    assert(clean_before("max_log_file_size"@, 17)) by {
        reveal_with_fuel(clean_before, 18);
    }
    lemma_clean("max_log_file_size"@);
}

proof fn lemma_top_monitor_learner_stage_threshold()
    ensures
        top_parts("monitor.learner_stage_threshold"@),
{
    reveal_strlit("monitor.learner_stage_threshold");
    reveal_strlit("monitor");
    reveal_strlit("learner_stage_threshold");
    assert(point_from("monitor.learner_stage_threshold"@, 0) == Some(7int)) by {
        reveal_with_fuel(point_from, 8);
    }
    assert("monitor.learner_stage_threshold"@.take(7) =~= "monitor"@);
    assert("monitor.learner_stage_threshold"@.skip(8) =~= "learner_stage_threshold"@);
    assert("monitor.learner_stage_threshold"@ =~= "monitor"@ + seq!['.'] + "learner_stage_threshold"@);
    assert(top_sections()[4] == "monitor"@);
    assert(clean_before("learner_stage_threshold"@, 23)) by {
        reveal_with_fuel(clean_before, 24);
    }
    lemma_clean("learner_stage_threshold"@);
}

proof fn lemma_top_monitor_learner_crash_threshold()
    ensures
        top_parts("monitor.learner_crash_threshold"@),
{
    reveal_strlit("monitor.learner_crash_threshold");
    reveal_strlit("monitor");
    reveal_strlit("learner_crash_threshold");
    assert(point_from("monitor.learner_crash_threshold"@, 0) == Some(7int)) by {
        reveal_with_fuel(point_from, 8);
    }
    assert("monitor.learner_crash_threshold"@.take(7) =~= "monitor"@);
    assert("monitor.learner_crash_threshold"@.skip(8) =~= "learner_crash_threshold"@);
    assert("monitor.learner_crash_threshold"@ =~= "monitor"@ + seq!['.'] + "learner_crash_threshold"@);
    assert(top_sections()[4] == "monitor"@);
    assert(clean_before("learner_crash_threshold"@, 23)) by {
        reveal_with_fuel(clean_before, 24);
    }
    lemma_clean("learner_crash_threshold"@);
}

proof fn lemma_top_monitor_crash_keywords()
    ensures
        top_parts("monitor.crash_keywords"@),
{
    reveal_strlit("monitor.crash_keywords");
    reveal_strlit("monitor");
    reveal_strlit("crash_keywords");
    assert(point_from("monitor.crash_keywords"@, 0) == Some(7int)) by {
        reveal_with_fuel(point_from, 8);
    }
    assert("monitor.crash_keywords"@.take(7) =~= "monitor"@);
    assert("monitor.crash_keywords"@.skip(8) =~= "crash_keywords"@);
    assert("monitor.crash_keywords"@ =~= "monitor"@ + seq!['.'] + "crash_keywords"@);
    assert(top_sections()[4] == "monitor"@);
    assert(clean_before("crash_keywords"@, 14)) by {
        reveal_with_fuel(clean_before, 15);
    }
    lemma_clean("crash_keywords"@);
}

/// The parts of a key that an answer can be written for.
pub proof fn lemma_top_key(key: Seq<char>)
    requires
        top_keys().contains(key),
    ensures
        top_parts(key),
{
    let i = choose|i: int| 0 <= i < top_keys().len() && top_keys()[i] == key;
    if i == 0 {
        lemma_top_serial_baudrate();
    } else if i == 1 {
        lemma_top_serial_rfc2217();
    } else if i == 2 {
        lemma_top_target_login_pass();
    } else if i == 3 {
        lemma_top_target_login_prompt();
    } else if i == 4 {
        lemma_top_monitor_reference_log();
    } else if i == 5 {
        lemma_top_flash_full_image_cmd();
    } else if i == 6 {
        lemma_top_flash_kernel_image_cmd();
    } else if i == 7 {
        lemma_top_flash_loader_bin();
    } else if i == 8 {
        lemma_top_control_dev_ctrl();
    } else if i == 9 {
        lemma_top_loader();
    } else if i == 10 {
        lemma_top_lock_dir();
    } else if i == 11 {
        lemma_top_uboot_interrupt_strategy();
    } else if i == 12 {
        lemma_top_uboot_pattern();
    } else if i == 13 {
        lemma_top_uboot_interrupt_char();
    } else if i == 14 {
        lemma_top_relay_port();
    } else if i == 15 {
        lemma_top_relay_reset_ch();
    } else if i == 16 {
        lemma_top_relay_download_ch();
    } else if i == 17 {
        lemma_top_relay_power_ch();
    } else if i == 18 {
        lemma_top_relay_reset_time_ms();
    } else if i == 19 {
        lemma_top_relay_power_off_time_ms();
    } else if i == 20 {
        lemma_top_monitor_hang_timeout();
    } else if i == 21 {
        lemma_top_monitor_hang_hysteresis();
    } else if i == 22 {
        lemma_top_monitor_max_archived_logs();
    } else if i == 23 {
        lemma_top_monitor_max_log_file_size();
    } else if i == 24 {
        lemma_top_monitor_learner_stage_threshold();
    } else if i == 25 {
        lemma_top_monitor_learner_crash_threshold();
    } else if i == 26 {
        lemma_top_monitor_crash_keywords();
    }
}

/// An answer is written for these keys only.
pub proof fn lemma_written_key(key: Seq<char>, value: Seq<char>)
    requires
        literal_of(key, value) matches Ok(Some(_)),
    ensures
        top_keys().contains(key),
{
    assert(top_keys()[0] == "serial.baudrate"@);
    assert(top_keys()[1] == "serial.rfc2217"@);
    assert(top_keys()[2] == "target.login_pass"@);
    assert(top_keys()[3] == "target.login_prompt"@);
    assert(top_keys()[4] == "monitor.reference_log"@);
    assert(top_keys()[5] == "flash.full_image_cmd"@);
    assert(top_keys()[6] == "flash.kernel_image_cmd"@);
    assert(top_keys()[7] == "flash.loader_bin"@);
    assert(top_keys()[8] == "control.dev_ctrl"@);
    assert(top_keys()[9] == "loader"@);
    assert(top_keys()[10] == "lock_dir"@);
    assert(top_keys()[11] == "uboot.interrupt_strategy"@);
    assert(top_keys()[12] == "uboot.pattern"@);
    assert(top_keys()[13] == "uboot.interrupt_char"@);
    assert(top_keys()[14] == "relay.port"@);
    assert(top_keys()[15] == "relay.reset_ch"@);
    assert(top_keys()[16] == "relay.download_ch"@);
    assert(top_keys()[17] == "relay.power_ch"@);
    assert(top_keys()[18] == "relay.reset_time_ms"@);
    assert(top_keys()[19] == "relay.power_off_time_ms"@);
    assert(top_keys()[20] == "monitor.hang_timeout"@);
    assert(top_keys()[21] == "monitor.hang_hysteresis"@);
    assert(top_keys()[22] == "monitor.max_archived_logs"@);
    assert(top_keys()[23] == "monitor.max_log_file_size"@);
    assert(top_keys()[24] == "monitor.learner_stage_threshold"@);
    assert(top_keys()[25] == "monitor.learner_crash_threshold"@);
    assert(top_keys()[26] == "monitor.crash_keywords"@);
}

} // verus!

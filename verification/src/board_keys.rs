//! The keys that a board has of its own: the section and the field of each.
use crate::advanced::{dut_keys, dut_owned, field_of, point_from, section_of};
use crate::pieces::plain;
use crate::place::is_name;
use vstd::prelude::*;

verus! {

/// Whether the first `n` characters are printable ASCII characters that need
/// no escape.
pub open spec fn clean_before(x: Seq<char>, n: int) -> bool
    decreases n,
{
    n <= 0 || (clean_before(x, n - 1) && 32 <= x[n - 1] as nat <= 126 && x[n - 1] != '"' && x[n - 1]
        != '\\')
}

proof fn lemma_clean_at(x: Seq<char>, n: int, k: int)
    requires
        clean_before(x, n),
        0 <= k < n,
    ensures
        32 <= x[k] as nat <= 126,
        x[k] != '"',
        x[k] != '\\',
    decreases n,
{
    if k < n - 1 {
        lemma_clean_at(x, n - 1, k);
    }
}

pub proof fn lemma_clean(x: Seq<char>)
    requires
        clean_before(x, x.len() as int),
    ensures
        plain(x),
        is_name(x),
{
    assert forall|k: int| 0 <= k < x.len() implies x[k] != '"' && x[k] != '\\' && 32 <= (
    #[trigger] x[k]) as nat <= 126 by {
        lemma_clean_at(x, x.len() as int, k);
    }
}

/// The sections of a board that hold keys of its own.
pub open spec fn board_sections() -> Seq<Seq<char>> {
    seq!["serial"@, "target"@, "uboot"@, "monitor"@, "flash"@, "control"@]
}

/// A section name is a plain name, and not that of another member of a board.
pub proof fn lemma_board_section(section: Seq<char>)
    requires
        board_sections().contains(section),
    ensures
        section.len() > 0,
        plain(section),
        is_name(section),
        section != "relay"@,
        section != "dut_name"@,
        section != "loader"@,
{
    reveal_strlit("relay");
    reveal_strlit("dut_name");
    reveal_strlit("loader");
    assert("relay"@.len() == 5 && "relay"@[0] == 'r');
    assert("dut_name"@.len() == 8);
    assert("loader"@.len() == 6 && "loader"@[0] == 'l');
    let i = choose|i: int| 0 <= i < board_sections().len() && board_sections()[i] == section;
    if i == 0 {
        reveal_strlit("serial");
        reveal_with_fuel(clean_before, 7);
        assert("serial"@[0] == 's');
        lemma_clean("serial"@);
    } else if i == 1 {
        reveal_strlit("target");
        reveal_with_fuel(clean_before, 7);
        assert("target"@[0] == 't');
        lemma_clean("target"@);
    } else if i == 2 {
        reveal_strlit("uboot");
        reveal_with_fuel(clean_before, 6);
        assert("uboot"@[0] == 'u');
        lemma_clean("uboot"@);
    } else if i == 3 {
        reveal_strlit("monitor");
        reveal_with_fuel(clean_before, 8);
        assert("monitor"@[0] == 'm');
        lemma_clean("monitor"@);
    } else if i == 4 {
        reveal_strlit("flash");
        reveal_with_fuel(clean_before, 6);
        assert("flash"@[0] == 'f');
        lemma_clean("flash"@);
    } else if i == 5 {
        reveal_strlit("control");
        reveal_with_fuel(clean_before, 8);
        assert("control"@[0] == 'c');
        lemma_clean("control"@);
    }
}

/// What is known of the parts of a key.
pub open spec fn key_parts(key: Seq<char>) -> bool {
    let section = section_of(key);
    let field = field_of(key);
    &&& plain(field)
    &&& is_name(field)
    &&& section.len() > 0 ==> board_sections().contains(section) && key == section + seq!['.']
        + field
    &&& section.len() == 0 ==> key == "loader"@ && field == "loader"@
    &&& section == "serial"@ ==> field != "port"@
    &&& section == "target"@ ==> field != "login_user"@
}

proof fn lemma_key_serial_baudrate()
    ensures
        key_parts("serial.baudrate"@),
{
    reveal_strlit("serial.baudrate");
    reveal_strlit("serial");
    reveal_strlit("baudrate");
    assert(point_from("serial.baudrate"@, 0) == Some(6int)) by {
        reveal_with_fuel(point_from, 7);
    }
    assert("serial.baudrate"@.take(6) =~= "serial"@);
    assert("serial.baudrate"@.skip(7) =~= "baudrate"@);
    assert("serial.baudrate"@ =~= "serial"@ + seq!['.'] + "baudrate"@);
    assert(board_sections()[0] == "serial"@);
    assert(clean_before("baudrate"@, 8)) by {
        reveal_with_fuel(clean_before, 9);
    }
    lemma_clean("baudrate"@);
    reveal_strlit("port");
    assert("port"@.len() == 4);
    reveal_strlit("target");
    assert("target"@[0] == 't');
    assert("serial"@[0] == 's');
}

proof fn lemma_key_target_login_pass()
    ensures
        key_parts("target.login_pass"@),
{
    reveal_strlit("target.login_pass");
    reveal_strlit("target");
    reveal_strlit("login_pass");
    assert(point_from("target.login_pass"@, 0) == Some(6int)) by {
        reveal_with_fuel(point_from, 7);
    }
    assert("target.login_pass"@.take(6) =~= "target"@);
    assert("target.login_pass"@.skip(7) =~= "login_pass"@);
    assert("target.login_pass"@ =~= "target"@ + seq!['.'] + "login_pass"@);
    assert(board_sections()[1] == "target"@);
    assert(clean_before("login_pass"@, 10)) by {
        reveal_with_fuel(clean_before, 11);
    }
    lemma_clean("login_pass"@);
    reveal_strlit("login_user");
    assert("login_user"@.len() == 10 && "login_user"@[6] == 'u');
    assert("login_pass"@[6] == 'p');
    reveal_strlit("serial");
    assert("target"@[0] == 't');
    assert("serial"@[0] == 's');
}

proof fn lemma_key_target_login_prompt()
    ensures
        key_parts("target.login_prompt"@),
{
    reveal_strlit("target.login_prompt");
    reveal_strlit("target");
    reveal_strlit("login_prompt");
    assert(point_from("target.login_prompt"@, 0) == Some(6int)) by {
        reveal_with_fuel(point_from, 7);
    }
    assert("target.login_prompt"@.take(6) =~= "target"@);
    assert("target.login_prompt"@.skip(7) =~= "login_prompt"@);
    assert("target.login_prompt"@ =~= "target"@ + seq!['.'] + "login_prompt"@);
    assert(board_sections()[1] == "target"@);
    assert(clean_before("login_prompt"@, 12)) by {
        reveal_with_fuel(clean_before, 13);
    }
    lemma_clean("login_prompt"@);
    reveal_strlit("login_user");
    assert("login_user"@.len() == 10 && "login_user"@[6] == 'u');
    assert("login_prompt"@[6] == 'p');
    reveal_strlit("serial");
    assert("target"@[0] == 't');
    assert("serial"@[0] == 's');
}

proof fn lemma_key_uboot_interrupt_char()
    ensures
        key_parts("uboot.interrupt_char"@),
{
    reveal_strlit("uboot.interrupt_char");
    reveal_strlit("uboot");
    reveal_strlit("interrupt_char");
    assert(point_from("uboot.interrupt_char"@, 0) == Some(5int)) by {
        reveal_with_fuel(point_from, 6);
    }
    assert("uboot.interrupt_char"@.take(5) =~= "uboot"@);
    assert("uboot.interrupt_char"@.skip(6) =~= "interrupt_char"@);
    assert("uboot.interrupt_char"@ =~= "uboot"@ + seq!['.'] + "interrupt_char"@);
    assert(board_sections()[2] == "uboot"@);
    assert(clean_before("interrupt_char"@, 14)) by {
        reveal_with_fuel(clean_before, 15);
    }
    lemma_clean("interrupt_char"@);
    reveal_strlit("serial");
    reveal_strlit("target");
    assert("serial"@[0] == 's');
    assert("target"@[0] == 't');
    assert("uboot"@[0] == 'u');
}

proof fn lemma_key_uboot_interrupt_strategy()
    ensures
        key_parts("uboot.interrupt_strategy"@),
{
    reveal_strlit("uboot.interrupt_strategy");
    reveal_strlit("uboot");
    reveal_strlit("interrupt_strategy");
    assert(point_from("uboot.interrupt_strategy"@, 0) == Some(5int)) by {
        reveal_with_fuel(point_from, 6);
    }
    assert("uboot.interrupt_strategy"@.take(5) =~= "uboot"@);
    assert("uboot.interrupt_strategy"@.skip(6) =~= "interrupt_strategy"@);
    assert("uboot.interrupt_strategy"@ =~= "uboot"@ + seq!['.'] + "interrupt_strategy"@);
    assert(board_sections()[2] == "uboot"@);
    assert(clean_before("interrupt_strategy"@, 18)) by {
        reveal_with_fuel(clean_before, 19);
    }
    lemma_clean("interrupt_strategy"@);
    reveal_strlit("serial");
    reveal_strlit("target");
    assert("serial"@[0] == 's');
    assert("target"@[0] == 't');
    assert("uboot"@[0] == 'u');
}

proof fn lemma_key_uboot_pattern()
    ensures
        key_parts("uboot.pattern"@),
{
    reveal_strlit("uboot.pattern");
    reveal_strlit("uboot");
    reveal_strlit("pattern");
    assert(point_from("uboot.pattern"@, 0) == Some(5int)) by {
        reveal_with_fuel(point_from, 6);
    }
    assert("uboot.pattern"@.take(5) =~= "uboot"@);
    assert("uboot.pattern"@.skip(6) =~= "pattern"@);
    assert("uboot.pattern"@ =~= "uboot"@ + seq!['.'] + "pattern"@);
    assert(board_sections()[2] == "uboot"@);
    assert(clean_before("pattern"@, 7)) by {
        reveal_with_fuel(clean_before, 8);
    }
    lemma_clean("pattern"@);
    reveal_strlit("serial");
    reveal_strlit("target");
    assert("serial"@[0] == 's');
    assert("target"@[0] == 't');
    assert("uboot"@[0] == 'u');
}

proof fn lemma_key_monitor_max_archived_logs()
    ensures
        key_parts("monitor.max_archived_logs"@),
{
    reveal_strlit("monitor.max_archived_logs");
    reveal_strlit("monitor");
    reveal_strlit("max_archived_logs");
    assert(point_from("monitor.max_archived_logs"@, 0) == Some(7int)) by {
        reveal_with_fuel(point_from, 8);
    }
    assert("monitor.max_archived_logs"@.take(7) =~= "monitor"@);
    assert("monitor.max_archived_logs"@.skip(8) =~= "max_archived_logs"@);
    assert("monitor.max_archived_logs"@ =~= "monitor"@ + seq!['.'] + "max_archived_logs"@);
    assert(board_sections()[3] == "monitor"@);
    assert(clean_before("max_archived_logs"@, 17)) by {
        reveal_with_fuel(clean_before, 18);
    }
    lemma_clean("max_archived_logs"@);
    reveal_strlit("serial");
    reveal_strlit("target");
    assert("serial"@[0] == 's');
    assert("target"@[0] == 't');
    assert("monitor"@[0] == 'm');
}

proof fn lemma_key_monitor_reference_log()
    ensures
        key_parts("monitor.reference_log"@),
{
    reveal_strlit("monitor.reference_log");
    reveal_strlit("monitor");
    reveal_strlit("reference_log");
    assert(point_from("monitor.reference_log"@, 0) == Some(7int)) by {
        reveal_with_fuel(point_from, 8);
    }
    assert("monitor.reference_log"@.take(7) =~= "monitor"@);
    assert("monitor.reference_log"@.skip(8) =~= "reference_log"@);
    assert("monitor.reference_log"@ =~= "monitor"@ + seq!['.'] + "reference_log"@);
    assert(board_sections()[3] == "monitor"@);
    assert(clean_before("reference_log"@, 13)) by {
        reveal_with_fuel(clean_before, 14);
    }
    lemma_clean("reference_log"@);
    reveal_strlit("serial");
    reveal_strlit("target");
    assert("serial"@[0] == 's');
    assert("target"@[0] == 't');
    assert("monitor"@[0] == 'm');
}

proof fn lemma_key_monitor_crash_keywords()
    ensures
        key_parts("monitor.crash_keywords"@),
{
    reveal_strlit("monitor.crash_keywords");
    reveal_strlit("monitor");
    reveal_strlit("crash_keywords");
    assert(point_from("monitor.crash_keywords"@, 0) == Some(7int)) by {
        reveal_with_fuel(point_from, 8);
    }
    assert("monitor.crash_keywords"@.take(7) =~= "monitor"@);
    assert("monitor.crash_keywords"@.skip(8) =~= "crash_keywords"@);
    assert("monitor.crash_keywords"@ =~= "monitor"@ + seq!['.'] + "crash_keywords"@);
    assert(board_sections()[3] == "monitor"@);
    assert(clean_before("crash_keywords"@, 14)) by {
        reveal_with_fuel(clean_before, 15);
    }
    lemma_clean("crash_keywords"@);
    reveal_strlit("serial");
    reveal_strlit("target");
    assert("serial"@[0] == 's');
    assert("target"@[0] == 't');
    assert("monitor"@[0] == 'm');
}

proof fn lemma_key_flash_full_image_cmd()
    ensures
        key_parts("flash.full_image_cmd"@),
{
    reveal_strlit("flash.full_image_cmd");
    reveal_strlit("flash");
    reveal_strlit("full_image_cmd");
    assert(point_from("flash.full_image_cmd"@, 0) == Some(5int)) by {
        reveal_with_fuel(point_from, 6);
    }
    assert("flash.full_image_cmd"@.take(5) =~= "flash"@);
    assert("flash.full_image_cmd"@.skip(6) =~= "full_image_cmd"@);
    assert("flash.full_image_cmd"@ =~= "flash"@ + seq!['.'] + "full_image_cmd"@);
    assert(board_sections()[4] == "flash"@);
    assert(clean_before("full_image_cmd"@, 14)) by {
        reveal_with_fuel(clean_before, 15);
    }
    lemma_clean("full_image_cmd"@);
    reveal_strlit("serial");
    reveal_strlit("target");
    assert("serial"@[0] == 's');
    assert("target"@[0] == 't');
    assert("flash"@[0] == 'f');
}

proof fn lemma_key_flash_kernel_image_cmd()
    ensures
        key_parts("flash.kernel_image_cmd"@),
{
    reveal_strlit("flash.kernel_image_cmd");
    reveal_strlit("flash");
    reveal_strlit("kernel_image_cmd");
    assert(point_from("flash.kernel_image_cmd"@, 0) == Some(5int)) by {
        reveal_with_fuel(point_from, 6);
    }
    assert("flash.kernel_image_cmd"@.take(5) =~= "flash"@);
    assert("flash.kernel_image_cmd"@.skip(6) =~= "kernel_image_cmd"@);
    assert("flash.kernel_image_cmd"@ =~= "flash"@ + seq!['.'] + "kernel_image_cmd"@);
    assert(board_sections()[4] == "flash"@);
    assert(clean_before("kernel_image_cmd"@, 16)) by {
        reveal_with_fuel(clean_before, 17);
    }
    lemma_clean("kernel_image_cmd"@);
    reveal_strlit("serial");
    reveal_strlit("target");
    assert("serial"@[0] == 's');
    assert("target"@[0] == 't');
    assert("flash"@[0] == 'f');
}

proof fn lemma_key_flash_loader_bin()
    ensures
        key_parts("flash.loader_bin"@),
{
    reveal_strlit("flash.loader_bin");
    reveal_strlit("flash");
    reveal_strlit("loader_bin");
    assert(point_from("flash.loader_bin"@, 0) == Some(5int)) by {
        reveal_with_fuel(point_from, 6);
    }
    assert("flash.loader_bin"@.take(5) =~= "flash"@);
    assert("flash.loader_bin"@.skip(6) =~= "loader_bin"@);
    assert("flash.loader_bin"@ =~= "flash"@ + seq!['.'] + "loader_bin"@);
    assert(board_sections()[4] == "flash"@);
    assert(clean_before("loader_bin"@, 10)) by {
        reveal_with_fuel(clean_before, 11);
    }
    lemma_clean("loader_bin"@);
    reveal_strlit("serial");
    reveal_strlit("target");
    assert("serial"@[0] == 's');
    assert("target"@[0] == 't');
    assert("flash"@[0] == 'f');
}

proof fn lemma_key_control_dev_ctrl()
    ensures
        key_parts("control.dev_ctrl"@),
{
    reveal_strlit("control.dev_ctrl");
    reveal_strlit("control");
    reveal_strlit("dev_ctrl");
    assert(point_from("control.dev_ctrl"@, 0) == Some(7int)) by {
        reveal_with_fuel(point_from, 8);
    }
    assert("control.dev_ctrl"@.take(7) =~= "control"@);
    assert("control.dev_ctrl"@.skip(8) =~= "dev_ctrl"@);
    assert("control.dev_ctrl"@ =~= "control"@ + seq!['.'] + "dev_ctrl"@);
    assert(board_sections()[5] == "control"@);
    assert(clean_before("dev_ctrl"@, 8)) by {
        reveal_with_fuel(clean_before, 9);
    }
    lemma_clean("dev_ctrl"@);
    reveal_strlit("serial");
    reveal_strlit("target");
    assert("serial"@[0] == 's');
    assert("target"@[0] == 't');
    assert("control"@[0] == 'c');
}

proof fn lemma_key_loader()
    ensures
        key_parts("loader"@),
{
    reveal_strlit("loader");
    reveal_strlit("serial");
    reveal_strlit("target");
    assert("serial"@.len() == 6);
    assert("target"@.len() == 6);
    assert(point_from("loader"@, 0) is None) by {
        reveal_with_fuel(point_from, 7);
    }
    assert(clean_before("loader"@, 6)) by {
        reveal_with_fuel(clean_before, 7);
    }
    lemma_clean("loader"@);
}

/// The parts of a key of a board.
pub proof fn lemma_dut_key(key: Seq<char>)
    requires
        dut_owned(key),
    ensures
        key_parts(key),
{
    let i = choose|i: int| 0 <= i < dut_keys().len() && dut_keys()[i] == key;
    if i == 0 {
        lemma_key_serial_baudrate();
    } else if i == 1 {
        lemma_key_target_login_pass();
    } else if i == 2 {
        lemma_key_target_login_prompt();
    } else if i == 3 {
        lemma_key_uboot_interrupt_char();
    } else if i == 4 {
        lemma_key_uboot_interrupt_strategy();
    } else if i == 5 {
        lemma_key_uboot_pattern();
    } else if i == 6 {
        lemma_key_monitor_max_archived_logs();
    } else if i == 7 {
        lemma_key_monitor_reference_log();
    } else if i == 8 {
        lemma_key_monitor_crash_keywords();
    } else if i == 9 {
        lemma_key_flash_full_image_cmd();
    } else if i == 10 {
        lemma_key_flash_kernel_image_cmd();
    } else if i == 11 {
        lemma_key_flash_loader_bin();
    } else if i == 12 {
        lemma_key_control_dev_ctrl();
    } else if i == 13 {
        lemma_key_loader();
    }
}

} // verus!

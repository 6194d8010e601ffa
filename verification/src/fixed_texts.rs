//! The fixed texts of a written configuration: names that stand between quotes
//! as they are, and comments that keep to their lines.
use crate::advanced::{
    C_BAUDRATE, C_CRASH_KEYWORDS, C_DUT_DIR, C_DUT_NAME, C_HOST_IP, C_HOST_NAME, C_HOST_PASS,
    C_HOST_USER, C_LOCK_DIR, C_LOGIN_PROMPT, C_LOGIN_USER, C_PORT, C_POWER_CH, C_POWER_OFF,
    C_REFERENCE_LOG_DUT, C_RELAY_CH_ALIASES, C_RELAY_TYPE, C_RESET_TIME, C_RFC2217, C_UBOOT_CHAR,
};
use crate::pieces::{plain, unbroken};
use crate::render::{GLOBAL_HINTS, HEADER};
use vstd::prelude::*;

verus! {

/// Whether the first `n` characters hold no line break.
pub open spec fn unbroken_before(x: Seq<char>, n: int) -> bool
    decreases n,
{
    n <= 0 || (unbroken_before(x, n - 1) && x[n - 1] != '\n')
}

proof fn lemma_unbroken_at(x: Seq<char>, n: int, k: int)
    requires
        unbroken_before(x, n),
        0 <= k < n,
    ensures
        x[k] != '\n',
    decreases n,
{
    if k < n - 1 {
        lemma_unbroken_at(x, n - 1, k);
    }
}

proof fn lemma_unbroken(x: Seq<char>)
    requires
        unbroken_before(x, x.len() as int),
    ensures
        unbroken(x),
{
    assert forall|k: int| 0 <= k < x.len() implies x[k] != '\n' by {
        lemma_unbroken_at(x, x.len() as int, k);
    }
}

/// Whether the first `n` characters need no escape.
pub open spec fn plain_before(x: Seq<char>, n: int) -> bool
    decreases n,
{
    n <= 0 || (plain_before(x, n - 1) && x[n - 1] != '"' && x[n - 1] != '\\' && x[n - 1] as nat
        >= 32)
}

proof fn lemma_plain_at(x: Seq<char>, n: int, k: int)
    requires
        plain_before(x, n),
        0 <= k < n,
    ensures
        x[k] != '"' && x[k] != '\\' && x[k] as nat >= 32,
    decreases n,
{
    if k < n - 1 {
        lemma_plain_at(x, n - 1, k);
    }
}

proof fn lemma_plain(x: Seq<char>)
    requires
        plain_before(x, x.len() as int),
    ensures
        plain(x),
{
    assert forall|k: int| 0 <= k < x.len() implies x[k] != '"' && x[k] != '\\' && (#[trigger] x[k])
        as nat >= 32 by {
        lemma_plain_at(x, x.len() as int, k);
    }
}

// ── Names ────────────────────────────────────────────────────────────
pub proof fn lemma_serial_names()
    ensures
        plain("serial"@),
        plain("port"@),
        plain("baudrate"@),
        plain("rfc2217"@),
{
    assert(plain("serial"@)) by {
        reveal_strlit("serial");
        reveal_with_fuel(plain_before, 7);
        lemma_plain("serial"@);
    }
    assert(plain("port"@)) by {
        reveal_strlit("port");
        reveal_with_fuel(plain_before, 5);
        lemma_plain("port"@);
    }
    assert(plain("baudrate"@)) by {
        reveal_strlit("baudrate");
        reveal_with_fuel(plain_before, 9);
        lemma_plain("baudrate"@);
    }
    assert(plain("rfc2217"@)) by {
        reveal_strlit("rfc2217");
        reveal_with_fuel(plain_before, 8);
        lemma_plain("rfc2217"@);
    }
}

pub proof fn lemma_target_names()
    ensures
        plain("target"@),
        plain("login_user"@),
        plain("login_pass"@),
        plain("login_prompt"@),
{
    assert(plain("target"@)) by {
        reveal_strlit("target");
        reveal_with_fuel(plain_before, 7);
        lemma_plain("target"@);
    }
    assert(plain("login_user"@)) by {
        reveal_strlit("login_user");
        reveal_with_fuel(plain_before, 11);
        lemma_plain("login_user"@);
    }
    assert(plain("login_pass"@)) by {
        reveal_strlit("login_pass");
        reveal_with_fuel(plain_before, 11);
        lemma_plain("login_pass"@);
    }
    assert(plain("login_prompt"@)) by {
        reveal_strlit("login_prompt");
        reveal_with_fuel(plain_before, 13);
        lemma_plain("login_prompt"@);
    }
}

pub proof fn lemma_uboot_names()
    ensures
        plain("uboot"@),
        plain("interrupt_char"@),
        plain("interrupt_strategy"@),
        plain("pattern"@),
{
    assert(plain("uboot"@)) by {
        reveal_strlit("uboot");
        reveal_with_fuel(plain_before, 6);
        lemma_plain("uboot"@);
    }
    assert(plain("interrupt_char"@)) by {
        reveal_strlit("interrupt_char");
        reveal_with_fuel(plain_before, 15);
        lemma_plain("interrupt_char"@);
    }
    assert(plain("interrupt_strategy"@)) by {
        reveal_strlit("interrupt_strategy");
        reveal_with_fuel(plain_before, 19);
        lemma_plain("interrupt_strategy"@);
    }
    assert(plain("pattern"@)) by {
        reveal_strlit("pattern");
        reveal_with_fuel(plain_before, 8);
        lemma_plain("pattern"@);
    }
}

pub proof fn lemma_relay_names()
    ensures
        plain("relay"@),
        plain("type"@),
        plain("port"@),
        plain("ip"@),
        plain("reset_ch"@),
        plain("download_ch"@),
        plain("power_ch"@),
        plain("reset_time_ms"@),
        plain("power_off_time_ms"@),
{
    assert(plain("relay"@)) by {
        reveal_strlit("relay");
        reveal_with_fuel(plain_before, 6);
        lemma_plain("relay"@);
    }
    assert(plain("type"@)) by {
        reveal_strlit("type");
        reveal_with_fuel(plain_before, 5);
        lemma_plain("type"@);
    }
    assert(plain("port"@)) by {
        reveal_strlit("port");
        reveal_with_fuel(plain_before, 5);
        lemma_plain("port"@);
    }
    assert(plain("ip"@)) by {
        reveal_strlit("ip");
        reveal_with_fuel(plain_before, 3);
        lemma_plain("ip"@);
    }
    assert(plain("reset_ch"@)) by {
        reveal_strlit("reset_ch");
        reveal_with_fuel(plain_before, 9);
        lemma_plain("reset_ch"@);
    }
    assert(plain("download_ch"@)) by {
        reveal_strlit("download_ch");
        reveal_with_fuel(plain_before, 12);
        lemma_plain("download_ch"@);
    }
    assert(plain("power_ch"@)) by {
        reveal_strlit("power_ch");
        reveal_with_fuel(plain_before, 9);
        lemma_plain("power_ch"@);
    }
    assert(plain("reset_time_ms"@)) by {
        reveal_strlit("reset_time_ms");
        reveal_with_fuel(plain_before, 14);
        lemma_plain("reset_time_ms"@);
    }
    assert(plain("power_off_time_ms"@)) by {
        reveal_strlit("power_off_time_ms");
        reveal_with_fuel(plain_before, 18);
        lemma_plain("power_off_time_ms"@);
    }
}

pub proof fn lemma_monitor_names()
    ensures
        plain("monitor"@),
        plain("hang_timeout"@),
        plain("hang_hysteresis"@),
        plain("max_archived_logs"@),
        plain("max_log_file_size"@),
        plain("reference_log"@),
        plain("learner_stage_threshold"@),
        plain("learner_crash_threshold"@),
        plain("crash_keywords"@),
{
    assert(plain("monitor"@)) by {
        reveal_strlit("monitor");
        reveal_with_fuel(plain_before, 8);
        lemma_plain("monitor"@);
    }
    assert(plain("hang_timeout"@)) by {
        reveal_strlit("hang_timeout");
        reveal_with_fuel(plain_before, 13);
        lemma_plain("hang_timeout"@);
    }
    assert(plain("hang_hysteresis"@)) by {
        reveal_strlit("hang_hysteresis");
        reveal_with_fuel(plain_before, 16);
        lemma_plain("hang_hysteresis"@);
    }
    assert(plain("max_archived_logs"@)) by {
        reveal_strlit("max_archived_logs");
        reveal_with_fuel(plain_before, 18);
        lemma_plain("max_archived_logs"@);
    }
    assert(plain("max_log_file_size"@)) by {
        reveal_strlit("max_log_file_size");
        reveal_with_fuel(plain_before, 18);
        lemma_plain("max_log_file_size"@);
    }
    assert(plain("reference_log"@)) by {
        reveal_strlit("reference_log");
        reveal_with_fuel(plain_before, 14);
        lemma_plain("reference_log"@);
    }
    assert(plain("learner_stage_threshold"@)) by {
        reveal_strlit("learner_stage_threshold");
        reveal_with_fuel(plain_before, 24);
        lemma_plain("learner_stage_threshold"@);
    }
    assert(plain("learner_crash_threshold"@)) by {
        reveal_strlit("learner_crash_threshold");
        reveal_with_fuel(plain_before, 24);
        lemma_plain("learner_crash_threshold"@);
    }
    assert(plain("crash_keywords"@)) by {
        reveal_strlit("crash_keywords");
        reveal_with_fuel(plain_before, 15);
        lemma_plain("crash_keywords"@);
    }
}

pub proof fn lemma_flash_names()
    ensures
        plain("flash"@),
        plain("full_image_cmd"@),
        plain("kernel_image_cmd"@),
        plain("loader_bin"@),
{
    assert(plain("flash"@)) by {
        reveal_strlit("flash");
        reveal_with_fuel(plain_before, 6);
        lemma_plain("flash"@);
    }
    assert(plain("full_image_cmd"@)) by {
        reveal_strlit("full_image_cmd");
        reveal_with_fuel(plain_before, 15);
        lemma_plain("full_image_cmd"@);
    }
    assert(plain("kernel_image_cmd"@)) by {
        reveal_strlit("kernel_image_cmd");
        reveal_with_fuel(plain_before, 17);
        lemma_plain("kernel_image_cmd"@);
    }
    assert(plain("loader_bin"@)) by {
        reveal_strlit("loader_bin");
        reveal_with_fuel(plain_before, 11);
        lemma_plain("loader_bin"@);
    }
}

pub proof fn lemma_control_names()
    ensures
        plain("control"@),
        plain("dev_ctrl"@),
{
    assert(plain("control"@)) by {
        reveal_strlit("control");
        reveal_with_fuel(plain_before, 8);
        lemma_plain("control"@);
    }
    assert(plain("dev_ctrl"@)) by {
        reveal_strlit("dev_ctrl");
        reveal_with_fuel(plain_before, 9);
        lemma_plain("dev_ctrl"@);
    }
}

pub proof fn lemma_dut_names()
    ensures
        plain("dut_name"@),
        plain("loader"@),
        plain("reference_log"@),
        plain("dut_dir"@),
{
    assert(plain("dut_name"@)) by {
        reveal_strlit("dut_name");
        reveal_with_fuel(plain_before, 9);
        lemma_plain("dut_name"@);
    }
    assert(plain("loader"@)) by {
        reveal_strlit("loader");
        reveal_with_fuel(plain_before, 7);
        lemma_plain("loader"@);
    }
    assert(plain("reference_log"@)) by {
        reveal_strlit("reference_log");
        reveal_with_fuel(plain_before, 14);
        lemma_plain("reference_log"@);
    }
    assert(plain("dut_dir"@)) by {
        reveal_strlit("dut_dir");
        reveal_with_fuel(plain_before, 8);
        lemma_plain("dut_dir"@);
    }
}

pub proof fn lemma_host_names()
    ensures
        plain("ip"@),
        plain("user"@),
        plain("pass"@),
        plain("host_name"@),
        plain("duts"@),
{
    assert(plain("ip"@)) by {
        reveal_strlit("ip");
        reveal_with_fuel(plain_before, 3);
        lemma_plain("ip"@);
    }
    assert(plain("user"@)) by {
        reveal_strlit("user");
        reveal_with_fuel(plain_before, 5);
        lemma_plain("user"@);
    }
    assert(plain("pass"@)) by {
        reveal_strlit("pass");
        reveal_with_fuel(plain_before, 5);
        lemma_plain("pass"@);
    }
    assert(plain("host_name"@)) by {
        reveal_strlit("host_name");
        reveal_with_fuel(plain_before, 10);
        lemma_plain("host_name"@);
    }
    assert(plain("duts"@)) by {
        reveal_strlit("duts");
        reveal_with_fuel(plain_before, 5);
        lemma_plain("duts"@);
    }
}

pub proof fn lemma_config_names()
    ensures
        plain("dev_hosts"@),
        plain("loader"@),
        plain("lock_dir"@),
{
    assert(plain("dev_hosts"@)) by {
        reveal_strlit("dev_hosts");
        reveal_with_fuel(plain_before, 10);
        lemma_plain("dev_hosts"@);
    }
    assert(plain("loader"@)) by {
        reveal_strlit("loader");
        reveal_with_fuel(plain_before, 7);
        lemma_plain("loader"@);
    }
    assert(plain("lock_dir"@)) by {
        reveal_strlit("lock_dir");
        reveal_with_fuel(plain_before, 9);
        lemma_plain("lock_dir"@);
    }
}

/// A line that is a comment behind `n` spaces.
pub open spec fn is_remark(x: Seq<char>, n: nat) -> bool {
    &&& unbroken(x)
    &&& x.len() >= n + 2
    &&& forall|i: int| 0 <= i < n ==> x[i] == ' '
    &&& x[n as int] == '/'
    &&& x[n as int + 1] == '/'
}

// ── Comments ─────────────────────────────────────────────────────────
pub proof fn lemma_c_dut_name()
    ensures
        unbroken(C_DUT_NAME@),
{
    reveal_strlit("REQUIRED — unique across ALL DUTs");
    reveal_with_fuel(unbroken_before, 21);
    assert(unbroken_before(C_DUT_NAME@, 20));
    lemma_unbroken(C_DUT_NAME@);
}

pub proof fn lemma_c_host_ip()
    ensures
        unbroken(C_HOST_IP@),
{
    reveal_strlit("REQUIRED — ssh / ser2net host");
    reveal_with_fuel(unbroken_before, 30);
    lemma_unbroken(C_HOST_IP@);
}

pub proof fn lemma_c_host_user()
    ensures
        unbroken(C_HOST_USER@),
{
    reveal_strlit("ssh user (shown as user@ip in dutabo list)");
    reveal_with_fuel(unbroken_before, 21);
    assert(unbroken_before(C_HOST_USER@, 20));
    assert(unbroken_before(C_HOST_USER@, 40));
    lemma_unbroken(C_HOST_USER@);
}

pub proof fn lemma_c_host_pass()
    ensures
        unbroken(C_HOST_PASS@),
{
    reveal_strlit("ssh password (optional, plaintext as before)");
    reveal_with_fuel(unbroken_before, 21);
    assert(unbroken_before(C_HOST_PASS@, 20));
    assert(unbroken_before(C_HOST_PASS@, 40));
    lemma_unbroken(C_HOST_PASS@);
}

pub proof fn lemma_c_host_name()
    ensures
        unbroken(C_HOST_NAME@),
{
    reveal_strlit("optional display name — falls back to the host ip when absent");
    reveal_with_fuel(unbroken_before, 21);
    assert(unbroken_before(C_HOST_NAME@, 20));
    assert(unbroken_before(C_HOST_NAME@, 40));
    assert(unbroken_before(C_HOST_NAME@, 60));
    lemma_unbroken(C_HOST_NAME@);
}

pub proof fn lemma_c_port()
    ensures
        unbroken(C_PORT@),
{
    reveal_strlit("ser2net port OR device path \"/dev/ttyUSB0\"; number or string");
    reveal_with_fuel(unbroken_before, 21);
    assert(unbroken_before(C_PORT@, 20));
    assert(unbroken_before(C_PORT@, 40));
    lemma_unbroken(C_PORT@);
}

pub proof fn lemma_c_baudrate()
    ensures
        unbroken(C_BAUDRATE@),
{
    reveal_strlit("number or string (default 460800)");
    reveal_with_fuel(unbroken_before, 21);
    assert(unbroken_before(C_BAUDRATE@, 20));
    lemma_unbroken(C_BAUDRATE@);
}

pub proof fn lemma_c_rfc2217()
    ensures
        unbroken(C_RFC2217@),
{
    reveal_strlit("true for telnet(rfc2217) ser2net ports (dynamic baud)");
    reveal_with_fuel(unbroken_before, 21);
    assert(unbroken_before(C_RFC2217@, 20));
    assert(unbroken_before(C_RFC2217@, 40));
    lemma_unbroken(C_RFC2217@);
}

pub proof fn lemma_c_login_user()
    ensures
        unbroken(C_LOGIN_USER@),
{
    reveal_strlit("empty = boot-to-shell detection disabled (warn)");
    reveal_with_fuel(unbroken_before, 21);
    assert(unbroken_before(C_LOGIN_USER@, 20));
    assert(unbroken_before(C_LOGIN_USER@, 40));
    lemma_unbroken(C_LOGIN_USER@);
}

pub proof fn lemma_c_login_prompt()
    ensures
        unbroken(C_LOGIN_PROMPT@),
{
    reveal_strlit("regex; empty = built-in \"login:\" matcher");
    reveal_with_fuel(unbroken_before, 21);
    assert(unbroken_before(C_LOGIN_PROMPT@, 20));
    lemma_unbroken(C_LOGIN_PROMPT@);
}

pub proof fn lemma_c_uboot_char()
    ensures
        unbroken(C_UBOOT_CHAR@),
{
    reveal_strlit("ctrl_c | \"0x03\" | any 1 char | decimal");
    reveal_with_fuel(unbroken_before, 21);
    assert(unbroken_before(C_UBOOT_CHAR@, 20));
    lemma_unbroken(C_UBOOT_CHAR@);
}

pub proof fn lemma_c_relay_type()
    ensures
        unbroken(C_RELAY_TYPE@),
{
    reveal_strlit("ch340 | ch340-relay | none | disabled (usb-relay and external dev-ctl removed)");
    reveal_with_fuel(unbroken_before, 21);
    assert(unbroken_before(C_RELAY_TYPE@, 20));
    assert(unbroken_before(C_RELAY_TYPE@, 40));
    assert(unbroken_before(C_RELAY_TYPE@, 60));
    lemma_unbroken(C_RELAY_TYPE@);
}

pub proof fn lemma_c_relay_ch_aliases()
    ensures
        unbroken(C_RELAY_CH_ALIASES@),
{
    reveal_strlit("aliases reset_channel/download_channel/power_channel also accepted");
    reveal_with_fuel(unbroken_before, 21);
    assert(unbroken_before(C_RELAY_CH_ALIASES@, 20));
    assert(unbroken_before(C_RELAY_CH_ALIASES@, 40));
    assert(unbroken_before(C_RELAY_CH_ALIASES@, 60));
    lemma_unbroken(C_RELAY_CH_ALIASES@);
}

pub proof fn lemma_c_power_ch()
    ensures
        unbroken(C_POWER_CH@),
{
    reveal_strlit("0 = inherit global (zero-guarded insertion)");
    reveal_with_fuel(unbroken_before, 21);
    assert(unbroken_before(C_POWER_CH@, 20));
    assert(unbroken_before(C_POWER_CH@, 40));
    lemma_unbroken(C_POWER_CH@);
}

pub proof fn lemma_c_reset_time()
    ensures
        unbroken(C_RESET_TIME@),
{
    reveal_strlit("0 = inherit");
    reveal_with_fuel(unbroken_before, 12);
    lemma_unbroken(C_RESET_TIME@);
}

pub proof fn lemma_c_power_off()
    ensures
        unbroken(C_POWER_OFF@),
{
    reveal_strlit("clamped to >= 3000; 0 = inherit global");
    reveal_with_fuel(unbroken_before, 21);
    assert(unbroken_before(C_POWER_OFF@, 20));
    lemma_unbroken(C_POWER_OFF@);
}

pub proof fn lemma_c_crash_keywords()
    ensures
        unbroken(C_CRASH_KEYWORDS@),
{
    reveal_strlit("substrings, not regex");
    reveal_with_fuel(unbroken_before, 22);
    lemma_unbroken(C_CRASH_KEYWORDS@);
}

pub proof fn lemma_c_dut_dir()
    ensures
        unbroken(C_DUT_DIR@),
{
    reveal_strlit("default: \".dut-serial/<dut_name>\"");
    reveal_with_fuel(unbroken_before, 21);
    assert(unbroken_before(C_DUT_DIR@, 20));
    lemma_unbroken(C_DUT_DIR@);
}

pub proof fn lemma_c_reference_log_dut()
    ensures
        unbroken(C_REFERENCE_LOG_DUT@),
{
    reveal_strlit("back-compat per-DUT key, overrides monitor.reference_log");
    reveal_with_fuel(unbroken_before, 21);
    assert(unbroken_before(C_REFERENCE_LOG_DUT@, 20));
    assert(unbroken_before(C_REFERENCE_LOG_DUT@, 40));
    lemma_unbroken(C_REFERENCE_LOG_DUT@);
}

pub proof fn lemma_c_lock_dir()
    ensures
        unbroken(C_LOCK_DIR@),
{
    reveal_strlit("top-level ONLY — never valid inside a dut");
    reveal_with_fuel(unbroken_before, 21);
    assert(unbroken_before(C_LOCK_DIR@, 20));
    assert(unbroken_before(C_LOCK_DIR@, 40));
    lemma_unbroken(C_LOCK_DIR@);
}

proof fn lemma_header_0()
    ensures
        is_remark(HEADER@[0]@, 0),
{
    reveal_strlit("// .target.jsonc — Embedded Debug Target Configuration (JSONC)");
    reveal_with_fuel(unbroken_before, 21);
    let x = HEADER@[0]@;
    assert(x == "// .target.jsonc — Embedded Debug Target Configuration (JSONC)"@);
    assert(x.len() == 62);
    assert(unbroken_before(x, 20));
    assert(unbroken_before(x, 40));
    assert(unbroken_before(x, 60));
    lemma_unbroken(x);
    assert(x[0] == '/' && x[1] == '/');
}

proof fn lemma_header_1()
    ensures
        is_remark(HEADER@[1]@, 0),
{
    reveal_strlit("// Copy to project root. // comments and trailing commas are valid.");
    reveal_with_fuel(unbroken_before, 21);
    let x = HEADER@[1]@;
    assert(x == "// Copy to project root. // comments and trailing commas are valid."@);
    assert(x.len() == 67);
    assert(unbroken_before(x, 20));
    assert(unbroken_before(x, 40));
    assert(unbroken_before(x, 60));
    lemma_unbroken(x);
    assert(x[0] == '/' && x[1] == '/');
}

proof fn lemma_header_2()
    ensures
        is_remark(HEADER@[2]@, 0),
{
    reveal_strlit("// Create/update via `dutabo init` — it preserves your comments.");
    reveal_with_fuel(unbroken_before, 21);
    let x = HEADER@[2]@;
    assert(x == "// Create/update via `dutabo init` — it preserves your comments."@);
    assert(x.len() == 64);
    assert(unbroken_before(x, 20));
    assert(unbroken_before(x, 40));
    assert(unbroken_before(x, 60));
    lemma_unbroken(x);
    assert(x[0] == '/' && x[1] == '/');
}

proof fn lemma_header_3()
    ensures
        is_remark(HEADER@[3]@, 0),
{
    reveal_strlit("//");
    reveal_with_fuel(unbroken_before, 3);
    let x = HEADER@[3]@;
    assert(x == "//"@);
    assert(x.len() == 2);
    lemma_unbroken(x);
    assert(x[0] == '/' && x[1] == '/');
}

proof fn lemma_header_4()
    ensures
        is_remark(HEADER@[4]@, 0),
{
    reveal_strlit("// Structure: dev_hosts[] each NESTS its duts[]. A DUT inherits its parent");
    reveal_with_fuel(unbroken_before, 21);
    let x = HEADER@[4]@;
    assert(x == "// Structure: dev_hosts[] each NESTS its duts[]. A DUT inherits its parent"@);
    assert(x.len() == 74);
    assert(unbroken_before(x, 20));
    assert(unbroken_before(x, 40));
    assert(unbroken_before(x, 60));
    lemma_unbroken(x);
    assert(x[0] == '/' && x[1] == '/');
}

proof fn lemma_header_5()
    ensures
        is_remark(HEADER@[5]@, 0),
{
    reveal_strlit("// host's ip/user/pass — names are display-only; the host ip is the linking key.");
    reveal_with_fuel(unbroken_before, 21);
    let x = HEADER@[5]@;
    assert(x == "// host's ip/user/pass — names are display-only; the host ip is the linking key."@);
    assert(x.len() == 80);
    assert(unbroken_before(x, 20));
    assert(unbroken_before(x, 40));
    assert(unbroken_before(x, 60));
    lemma_unbroken(x);
    assert(x[0] == '/' && x[1] == '/');
}

proof fn lemma_header_6()
    ensures
        is_remark(HEADER@[6]@, 0),
{
    reveal_strlit("// Top-level sections (serial/target/uboot/relay/monitor/flash/control) are");
    reveal_with_fuel(unbroken_before, 21);
    let x = HEADER@[6]@;
    assert(x == "// Top-level sections (serial/target/uboot/relay/monitor/flash/control) are"@);
    assert(x.len() == 75);
    assert(unbroken_before(x, 20));
    assert(unbroken_before(x, 40));
    assert(unbroken_before(x, 60));
    lemma_unbroken(x);
    assert(x[0] == '/' && x[1] == '/');
}

proof fn lemma_header_7()
    ensures
        is_remark(HEADER@[7]@, 0),
{
    reveal_strlit("// GLOBAL fallbacks: a DUT value overrides; otherwise the global value wins.");
    reveal_with_fuel(unbroken_before, 21);
    let x = HEADER@[7]@;
    assert(x == "// GLOBAL fallbacks: a DUT value overrides; otherwise the global value wins."@);
    assert(x.len() == 76);
    assert(unbroken_before(x, 20));
    assert(unbroken_before(x, 40));
    assert(unbroken_before(x, 60));
    lemma_unbroken(x);
    assert(x[0] == '/' && x[1] == '/');
}

proof fn lemma_header_8()
    ensures
        is_remark(HEADER@[8]@, 0),
{
    reveal_strlit("//   commented out = not set (built-in default)");
    reveal_with_fuel(unbroken_before, 21);
    let x = HEADER@[8]@;
    assert(x == "//   commented out = not set (built-in default)"@);
    assert(x.len() == 47);
    assert(unbroken_before(x, 20));
    assert(unbroken_before(x, 40));
    lemma_unbroken(x);
    assert(x[0] == '/' && x[1] == '/');
}

proof fn lemma_header_9()
    ensures
        is_remark(HEADER@[9]@, 0),
{
    reveal_strlit(r#"//   port 0 / "0"  = unset sentinel (validation error, as before)"#);
    reveal_with_fuel(unbroken_before, 21);
    let x = HEADER@[9]@;
    assert(x == r#"//   port 0 / "0"  = unset sentinel (validation error, as before)"#@);
    assert(x.len() == 65);
    assert(unbroken_before(x, 20));
    assert(unbroken_before(x, 40));
    assert(unbroken_before(x, 60));
    lemma_unbroken(x);
    assert(x[0] == '/' && x[1] == '/');
}

proof fn lemma_header_10()
    ensures
        is_remark(HEADER@[10]@, 0),
{
    reveal_strlit(r#"//   ""            = explicitly empty -> falls back to parent dev host ip"#);
    reveal_with_fuel(unbroken_before, 21);
    let x = HEADER@[10]@;
    assert(x == r#"//   ""            = explicitly empty -> falls back to parent dev host ip"#@);
    assert(x.len() == 73);
    assert(unbroken_before(x, 20));
    assert(unbroken_before(x, 40));
    assert(unbroken_before(x, 60));
    lemma_unbroken(x);
    assert(x[0] == '/' && x[1] == '/');
}

proof fn lemma_header_11()
    ensures
        is_remark(HEADER@[11]@, 0),
{
    reveal_strlit("//                    (relay.ip only — serial has no ip key at all)");
    reveal_with_fuel(unbroken_before, 21);
    let x = HEADER@[11]@;
    assert(x == "//                    (relay.ip only — serial has no ip key at all)"@);
    assert(x.len() == 67);
    assert(unbroken_before(x, 20));
    assert(unbroken_before(x, 40));
    assert(unbroken_before(x, 60));
    lemma_unbroken(x);
    assert(x[0] == '/' && x[1] == '/');
}

proof fn lemma_header_12()
    ensures
        is_remark(HEADER@[12]@, 0),
{
    reveal_strlit("// Unknown keys are rejected at parse time (typos fail loudly).");
    reveal_with_fuel(unbroken_before, 21);
    let x = HEADER@[12]@;
    assert(x == "// Unknown keys are rejected at parse time (typos fail loudly)."@);
    assert(x.len() == 63);
    assert(unbroken_before(x, 20));
    assert(unbroken_before(x, 40));
    assert(unbroken_before(x, 60));
    lemma_unbroken(x);
    assert(x[0] == '/' && x[1] == '/');
}

proof fn lemma_header_13()
    ensures
        is_remark(HEADER@[13]@, 0),
{
    reveal_strlit("// The agent must NOT modify this file — read only. Edit via `dutabo init`.");
    reveal_with_fuel(unbroken_before, 21);
    let x = HEADER@[13]@;
    assert(x == "// The agent must NOT modify this file — read only. Edit via `dutabo init`."@);
    assert(x.len() == 75);
    assert(unbroken_before(x, 20));
    assert(unbroken_before(x, 40));
    assert(unbroken_before(x, 60));
    lemma_unbroken(x);
    assert(x[0] == '/' && x[1] == '/');
}

pub proof fn lemma_header()
    ensures
        HEADER@.len() == 14,
        forall|i: int| 0 <= i < 14 ==> is_remark((#[trigger] HEADER@[i])@, 0),
{
    lemma_header_0();
    lemma_header_1();
    lemma_header_2();
    lemma_header_3();
    lemma_header_4();
    lemma_header_5();
    lemma_header_6();
    lemma_header_7();
    lemma_header_8();
    lemma_header_9();
    lemma_header_10();
    lemma_header_11();
    lemma_header_12();
    lemma_header_13();
    assert forall|i: int| 0 <= i < 14 implies is_remark((#[trigger] HEADER@[i])@, 0) by {
        assert(i == 0 || i == 1 || i == 2 || i == 3 || i == 4 || i == 5 || i == 6 || i == 7 || i == 8 || i == 9 || i == 10 || i == 11 || i == 12 || i == 13);
    }
}

proof fn lemma_global_hints_0()
    ensures
        is_remark(GLOBAL_HINTS@[0]@, 2),
{
    reveal_strlit("  // Global fallbacks (optional) — apply to every DUT that does not override:");
    reveal_with_fuel(unbroken_before, 21);
    let x = GLOBAL_HINTS@[0]@;
    assert(x == "  // Global fallbacks (optional) — apply to every DUT that does not override:"@);
    assert(x.len() == 77);
    assert(unbroken_before(x, 20));
    assert(unbroken_before(x, 40));
    assert(unbroken_before(x, 60));
    lemma_unbroken(x);
    assert(x[2] == '/' && x[3] == '/');
    assert(x[0] == ' ');
    assert(x[1] == ' ');
}

proof fn lemma_global_hints_1()
    ensures
        is_remark(GLOBAL_HINTS@[1]@, 2),
{
    reveal_strlit(r#"  // "serial":  { "port": "<required>", "baudrate": "<required>", "rfc2217": false },"#);
    reveal_with_fuel(unbroken_before, 21);
    let x = GLOBAL_HINTS@[1]@;
    assert(x == r#"  // "serial":  { "port": "<required>", "baudrate": "<required>", "rfc2217": false },"#@);
    assert(x.len() == 85);
    assert(unbroken_before(x, 20));
    assert(unbroken_before(x, 40));
    assert(unbroken_before(x, 60));
    assert(unbroken_before(x, 80));
    lemma_unbroken(x);
    assert(x[2] == '/' && x[3] == '/');
    assert(x[0] == ' ');
    assert(x[1] == ' ');
}

proof fn lemma_global_hints_2()
    ensures
        is_remark(GLOBAL_HINTS@[2]@, 2),
{
    reveal_strlit(r#"  // "target":  { "login_user": "root", "login_prompt": "" },"#);
    reveal_with_fuel(unbroken_before, 21);
    let x = GLOBAL_HINTS@[2]@;
    assert(x == r#"  // "target":  { "login_user": "root", "login_prompt": "" },"#@);
    assert(x.len() == 61);
    assert(unbroken_before(x, 20));
    assert(unbroken_before(x, 40));
    assert(unbroken_before(x, 60));
    lemma_unbroken(x);
    assert(x[2] == '/' && x[3] == '/');
    assert(x[0] == ' ');
    assert(x[1] == ' ');
}

proof fn lemma_global_hints_3()
    ensures
        is_remark(GLOBAL_HINTS@[3]@, 2),
{
    reveal_strlit(r#"  // "uboot":   { "interrupt_char": "ctrl_c", "interrupt_strategy": "flood", "pattern": "Hit any key" },"#);
    reveal_with_fuel(unbroken_before, 21);
    let x = GLOBAL_HINTS@[3]@;
    assert(x == r#"  // "uboot":   { "interrupt_char": "ctrl_c", "interrupt_strategy": "flood", "pattern": "Hit any key" },"#@);
    assert(x.len() == 104);
    assert(unbroken_before(x, 20));
    assert(unbroken_before(x, 40));
    assert(unbroken_before(x, 60));
    assert(unbroken_before(x, 80));
    assert(unbroken_before(x, 100));
    lemma_unbroken(x);
    assert(x[2] == '/' && x[3] == '/');
    assert(x[0] == ' ');
    assert(x[1] == ' ');
}

proof fn lemma_global_hints_4()
    ensures
        is_remark(GLOBAL_HINTS@[4]@, 2),
{
    reveal_strlit(r#"  // "relay":   { "type": "ch340", "reset_ch": 1, "power_off_time_ms": 3000 },"#);
    reveal_with_fuel(unbroken_before, 21);
    let x = GLOBAL_HINTS@[4]@;
    assert(x == r#"  // "relay":   { "type": "ch340", "reset_ch": 1, "power_off_time_ms": 3000 },"#@);
    assert(x.len() == 78);
    assert(unbroken_before(x, 20));
    assert(unbroken_before(x, 40));
    assert(unbroken_before(x, 60));
    lemma_unbroken(x);
    assert(x[2] == '/' && x[3] == '/');
    assert(x[0] == ' ');
    assert(x[1] == ' ');
}

proof fn lemma_global_hints_5()
    ensures
        is_remark(GLOBAL_HINTS@[5]@, 2),
{
    reveal_strlit(r#"  // "monitor": { "hang_timeout": 60, "max_archived_logs": 10, "crash_keywords": ["Kernel panic"] },"#);
    reveal_with_fuel(unbroken_before, 21);
    let x = GLOBAL_HINTS@[5]@;
    assert(x == r#"  // "monitor": { "hang_timeout": 60, "max_archived_logs": 10, "crash_keywords": ["Kernel panic"] },"#@);
    assert(x.len() == 100);
    assert(unbroken_before(x, 20));
    assert(unbroken_before(x, 40));
    assert(unbroken_before(x, 60));
    assert(unbroken_before(x, 80));
    lemma_unbroken(x);
    assert(x[2] == '/' && x[3] == '/');
    assert(x[0] == ' ');
    assert(x[1] == ' ');
}

proof fn lemma_global_hints_6()
    ensures
        is_remark(GLOBAL_HINTS@[6]@, 2),
{
    reveal_strlit(r#"  // "flash":   { "tool": "<vendor flash tool>", "upload_dir": "/tmp" },"#);
    reveal_with_fuel(unbroken_before, 21);
    let x = GLOBAL_HINTS@[6]@;
    assert(x == r#"  // "flash":   { "tool": "<vendor flash tool>", "upload_dir": "/tmp" },"#@);
    assert(x.len() == 72);
    assert(unbroken_before(x, 20));
    assert(unbroken_before(x, 40));
    assert(unbroken_before(x, 60));
    lemma_unbroken(x);
    assert(x[2] == '/' && x[3] == '/');
    assert(x[0] == ' ');
    assert(x[1] == ' ');
}

proof fn lemma_global_hints_7()
    ensures
        is_remark(GLOBAL_HINTS@[7]@, 2),
{
    reveal_strlit(r#"  // "control": { "dev_ctrl": "" },"#);
    reveal_with_fuel(unbroken_before, 21);
    let x = GLOBAL_HINTS@[7]@;
    assert(x == r#"  // "control": { "dev_ctrl": "" },"#@);
    assert(x.len() == 35);
    assert(unbroken_before(x, 20));
    lemma_unbroken(x);
    assert(x[2] == '/' && x[3] == '/');
    assert(x[0] == ' ');
    assert(x[1] == ' ');
}

proof fn lemma_global_hints_8()
    ensures
        is_remark(GLOBAL_HINTS@[8]@, 2),
{
    reveal_strlit(r#"  // "loader":  "uboot",                    // "uboot" | "uefi" (uefi: not implemented yet)"#);
    reveal_with_fuel(unbroken_before, 21);
    let x = GLOBAL_HINTS@[8]@;
    assert(x == r#"  // "loader":  "uboot",                    // "uboot" | "uefi" (uefi: not implemented yet)"#@);
    assert(x.len() == 91);
    assert(unbroken_before(x, 20));
    assert(unbroken_before(x, 40));
    assert(unbroken_before(x, 60));
    assert(unbroken_before(x, 80));
    lemma_unbroken(x);
    assert(x[2] == '/' && x[3] == '/');
    assert(x[0] == ' ');
    assert(x[1] == ' ');
}

proof fn lemma_global_hints_9()
    ensures
        is_remark(GLOBAL_HINTS@[9]@, 2),
{
    reveal_strlit(r#"  // "reference_log": "",       // back-compat top-level key (overrides monitor.reference_log)"#);
    reveal_with_fuel(unbroken_before, 21);
    let x = GLOBAL_HINTS@[9]@;
    assert(x == r#"  // "reference_log": "",       // back-compat top-level key (overrides monitor.reference_log)"#@);
    assert(x.len() == 94);
    assert(unbroken_before(x, 20));
    assert(unbroken_before(x, 40));
    assert(unbroken_before(x, 60));
    assert(unbroken_before(x, 80));
    lemma_unbroken(x);
    assert(x[2] == '/' && x[3] == '/');
    assert(x[0] == ' ');
    assert(x[1] == ' ');
}

proof fn lemma_global_hints_10()
    ensures
        is_remark(GLOBAL_HINTS@[10]@, 2),
{
    reveal_strlit(r#"  // "dut_dir": ".dut-serial",  // back-compat top-level key"#);
    reveal_with_fuel(unbroken_before, 21);
    let x = GLOBAL_HINTS@[10]@;
    assert(x == r#"  // "dut_dir": ".dut-serial",  // back-compat top-level key"#@);
    assert(x.len() == 60);
    assert(unbroken_before(x, 20));
    assert(unbroken_before(x, 40));
    lemma_unbroken(x);
    assert(x[2] == '/' && x[3] == '/');
    assert(x[0] == ' ');
    assert(x[1] == ' ');
}

proof fn lemma_global_hints_11()
    ensures
        is_remark(GLOBAL_HINTS@[11]@, 2),
{
    reveal_strlit(r#"  // "lock_dir": "/tmp/sermcp/locks"   // top-level ONLY — never valid inside a dut"#);
    reveal_with_fuel(unbroken_before, 21);
    let x = GLOBAL_HINTS@[11]@;
    assert(x == r#"  // "lock_dir": "/tmp/sermcp/locks"   // top-level ONLY — never valid inside a dut"#@);
    assert(x.len() == 83);
    assert(unbroken_before(x, 20));
    assert(unbroken_before(x, 40));
    assert(unbroken_before(x, 60));
    assert(unbroken_before(x, 80));
    lemma_unbroken(x);
    assert(x[2] == '/' && x[3] == '/');
    assert(x[0] == ' ');
    assert(x[1] == ' ');
}

pub proof fn lemma_global_hints()
    ensures
        GLOBAL_HINTS@.len() == 12,
        forall|i: int| 0 <= i < 12 ==> is_remark((#[trigger] GLOBAL_HINTS@[i])@, 2),
{
    lemma_global_hints_0();
    lemma_global_hints_1();
    lemma_global_hints_2();
    lemma_global_hints_3();
    lemma_global_hints_4();
    lemma_global_hints_5();
    lemma_global_hints_6();
    lemma_global_hints_7();
    lemma_global_hints_8();
    lemma_global_hints_9();
    lemma_global_hints_10();
    lemma_global_hints_11();
    assert forall|i: int| 0 <= i < 12 implies is_remark((#[trigger] GLOBAL_HINTS@[i])@, 2) by {
        assert(i == 0 || i == 1 || i == 2 || i == 3 || i == 4 || i == 5 || i == 6 || i == 7 || i == 8 || i == 9 || i == 10 || i == 11);
    }
}

pub proof fn lemma_baudrate_hint()
    ensures
        unbroken("\"baudrate\": 1500000"@),
{
    reveal_strlit("\"baudrate\": 1500000");
    reveal_with_fuel(unbroken_before, 20);
    lemma_unbroken("\"baudrate\": 1500000"@);
}

pub proof fn lemma_rfc2217_hint()
    ensures
        unbroken("\"rfc2217\": false"@),
{
    reveal_strlit("\"rfc2217\": false");
    reveal_with_fuel(unbroken_before, 17);
    lemma_unbroken("\"rfc2217\": false"@);
}

pub proof fn lemma_login_prompt_hint()
    ensures
        unbroken("\"login_prompt\": \"\""@),
{
    reveal_strlit("\"login_prompt\": \"\"");
    reveal_with_fuel(unbroken_before, 19);
    lemma_unbroken("\"login_prompt\": \"\""@);
}

pub proof fn lemma_host_name_hint()
    ensures
        unbroken("\"host_name\": \"\""@),
{
    reveal_strlit("\"host_name\": \"\"");
    reveal_with_fuel(unbroken_before, 16);
    lemma_unbroken("\"host_name\": \"\""@);
}

} // verus!

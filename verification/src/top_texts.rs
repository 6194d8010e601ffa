//! What the top level holds of the keys that are asked for there alone.
use crate::config::ConfigView;
use crate::current::{current_of, number_now, put_opt, real_now};
use crate::text_map::{lemma_lookup_put, lookup, Pairs};
use vstd::prelude::*;

verus! {

proof fn lemma_top_names_differ()
    ensures
        "monitor.hang_timeout"@ != "serial.baudrate"@,
        "monitor.hang_timeout"@ != "target.login_pass"@,
        "monitor.hang_timeout"@ != "target.login_prompt"@,
        "monitor.hang_timeout"@ != "uboot.interrupt_char"@,
        "monitor.hang_timeout"@ != "uboot.interrupt_strategy"@,
        "monitor.hang_timeout"@ != "uboot.pattern"@,
        "monitor.hang_timeout"@ != "monitor.max_archived_logs"@,
        "monitor.hang_timeout"@ != "monitor.reference_log"@,
        "monitor.hang_timeout"@ != "monitor.crash_keywords"@,
        "monitor.hang_timeout"@ != "flash.full_image_cmd"@,
        "monitor.hang_timeout"@ != "flash.kernel_image_cmd"@,
        "monitor.hang_timeout"@ != "flash.loader_bin"@,
        "monitor.hang_timeout"@ != "control.dev_ctrl"@,
        "monitor.hang_timeout"@ != "loader"@,
        "monitor.hang_timeout"@ != "monitor.max_log_file_size"@,
        "monitor.hang_timeout"@ != "monitor.learner_stage_threshold"@,
        "monitor.hang_timeout"@ != "monitor.learner_crash_threshold"@,
        "monitor.max_log_file_size"@ != "serial.baudrate"@,
        "monitor.max_log_file_size"@ != "target.login_pass"@,
        "monitor.max_log_file_size"@ != "target.login_prompt"@,
        "monitor.max_log_file_size"@ != "uboot.interrupt_char"@,
        "monitor.max_log_file_size"@ != "uboot.interrupt_strategy"@,
        "monitor.max_log_file_size"@ != "uboot.pattern"@,
        "monitor.max_log_file_size"@ != "monitor.max_archived_logs"@,
        "monitor.max_log_file_size"@ != "monitor.reference_log"@,
        "monitor.max_log_file_size"@ != "monitor.crash_keywords"@,
        "monitor.max_log_file_size"@ != "flash.full_image_cmd"@,
        "monitor.max_log_file_size"@ != "flash.kernel_image_cmd"@,
        "monitor.max_log_file_size"@ != "flash.loader_bin"@,
        "monitor.max_log_file_size"@ != "control.dev_ctrl"@,
        "monitor.max_log_file_size"@ != "loader"@,
        "monitor.max_log_file_size"@ != "monitor.learner_stage_threshold"@,
        "monitor.max_log_file_size"@ != "monitor.learner_crash_threshold"@,
        "monitor.learner_stage_threshold"@ != "serial.baudrate"@,
        "monitor.learner_stage_threshold"@ != "target.login_pass"@,
        "monitor.learner_stage_threshold"@ != "target.login_prompt"@,
        "monitor.learner_stage_threshold"@ != "uboot.interrupt_char"@,
        "monitor.learner_stage_threshold"@ != "uboot.interrupt_strategy"@,
        "monitor.learner_stage_threshold"@ != "uboot.pattern"@,
        "monitor.learner_stage_threshold"@ != "monitor.max_archived_logs"@,
        "monitor.learner_stage_threshold"@ != "monitor.reference_log"@,
        "monitor.learner_stage_threshold"@ != "monitor.crash_keywords"@,
        "monitor.learner_stage_threshold"@ != "flash.full_image_cmd"@,
        "monitor.learner_stage_threshold"@ != "flash.kernel_image_cmd"@,
        "monitor.learner_stage_threshold"@ != "flash.loader_bin"@,
        "monitor.learner_stage_threshold"@ != "control.dev_ctrl"@,
        "monitor.learner_stage_threshold"@ != "loader"@,
        "monitor.learner_stage_threshold"@ != "monitor.learner_crash_threshold"@,
        "monitor.learner_crash_threshold"@ != "serial.baudrate"@,
        "monitor.learner_crash_threshold"@ != "target.login_pass"@,
        "monitor.learner_crash_threshold"@ != "target.login_prompt"@,
        "monitor.learner_crash_threshold"@ != "uboot.interrupt_char"@,
        "monitor.learner_crash_threshold"@ != "uboot.interrupt_strategy"@,
        "monitor.learner_crash_threshold"@ != "uboot.pattern"@,
        "monitor.learner_crash_threshold"@ != "monitor.max_archived_logs"@,
        "monitor.learner_crash_threshold"@ != "monitor.reference_log"@,
        "monitor.learner_crash_threshold"@ != "monitor.crash_keywords"@,
        "monitor.learner_crash_threshold"@ != "flash.full_image_cmd"@,
        "monitor.learner_crash_threshold"@ != "flash.kernel_image_cmd"@,
        "monitor.learner_crash_threshold"@ != "flash.loader_bin"@,
        "monitor.learner_crash_threshold"@ != "control.dev_ctrl"@,
        "monitor.learner_crash_threshold"@ != "loader"@,
{
    reveal_strlit("monitor.hang_timeout");
    reveal_strlit("monitor.max_log_file_size");
    reveal_strlit("monitor.learner_stage_threshold");
    reveal_strlit("monitor.learner_crash_threshold");
    reveal_strlit("serial.baudrate");
    reveal_strlit("target.login_pass");
    reveal_strlit("target.login_prompt");
    reveal_strlit("uboot.interrupt_char");
    reveal_strlit("uboot.interrupt_strategy");
    reveal_strlit("uboot.pattern");
    reveal_strlit("monitor.max_archived_logs");
    reveal_strlit("monitor.reference_log");
    reveal_strlit("monitor.crash_keywords");
    reveal_strlit("flash.full_image_cmd");
    reveal_strlit("flash.kernel_image_cmd");
    reveal_strlit("flash.loader_bin");
    reveal_strlit("control.dev_ctrl");
    reveal_strlit("loader");
    assert("monitor.hang_timeout"@.len() == 20);
    assert("monitor.max_log_file_size"@.len() == 25);
    assert("monitor.learner_stage_threshold"@.len() == 31);
    assert("monitor.learner_crash_threshold"@.len() == 31);
    assert("serial.baudrate"@.len() == 15);
    assert("target.login_pass"@.len() == 17);
    assert("target.login_prompt"@.len() == 19);
    assert("uboot.interrupt_char"@.len() == 20);
    assert("uboot.interrupt_strategy"@.len() == 24);
    assert("uboot.pattern"@.len() == 13);
    assert("monitor.max_archived_logs"@.len() == 25);
    assert("monitor.reference_log"@.len() == 21);
    assert("monitor.crash_keywords"@.len() == 22);
    assert("flash.full_image_cmd"@.len() == 20);
    assert("flash.kernel_image_cmd"@.len() == 22);
    assert("flash.loader_bin"@.len() == 16);
    assert("control.dev_ctrl"@.len() == 16);
    assert("loader"@.len() == 6);
    assert("flash.full_image_cmd"@[0] == 'f');
    assert("monitor.hang_timeout"@[0] == 'm');
    assert("monitor.learner_crash_threshold"@[16] == 'c');
    assert("monitor.learner_stage_threshold"@[16] == 's');
    assert("monitor.max_archived_logs"@[12] == 'a');
    assert("monitor.max_log_file_size"@[12] == 'l');
    assert("uboot.interrupt_char"@[0] == 'u');
}

/// What is shown of the top level under the keys of the monitor that no board
/// has for itself is what the configuration holds there: each key shows its own
/// value, and a value that is not set is not shown.
#[verifier::rlimit(60)]
#[verifier::spinoff_prover]
pub proof fn lemma_top_monitor_is_shown(c: ConfigView)
    ensures
        match c.monitor {
            Some(x) => {
                &&& lookup(current_of(c), "monitor.hang_timeout"@) == number_now(x.hang_timeout)
                &&& lookup(current_of(c), "monitor.max_log_file_size"@) == number_now(
                    x.max_log_file_size,
                )
                &&& lookup(current_of(c), "monitor.learner_stage_threshold"@) == real_now(
                    x.learner_stage_threshold,
                )
                &&& lookup(current_of(c), "monitor.learner_crash_threshold"@) == real_now(
                    x.learner_crash_threshold,
                )
            },
            None => {
                &&& lookup(current_of(c), "monitor.hang_timeout"@) is None
                &&& lookup(current_of(c), "monitor.max_log_file_size"@) is None
                &&& lookup(current_of(c), "monitor.learner_stage_threshold"@) is None
                &&& lookup(current_of(c), "monitor.learner_crash_threshold"@) is None
            },
        },
{
    lemma_top_names_differ();
    assert forall|p: Pairs, key: Seq<char>, value: Option<Seq<char>>, other: Seq<char>| #[trigger]
        lookup(put_opt(p, key, value), other) == (if other == key && value is Some {
            value
        } else {
            lookup(p, other)
        }) by {
        if let Some(x) = value {
            lemma_lookup_put(p, key, x, other);
        }
    }
}

} // verus!

//! What a new configuration says of the answers to the advanced keys of its
//! boards.
use crate::advanced::dut_owned;
use crate::answers::{plain_dut, relay_of, WizardAnswersView};
use crate::board_answers::says_answer;
use crate::board_fields::keys_ask;
use crate::config::DutView;
use crate::created::{created_at, lemma_board_stands, makes_board};
use crate::current::dut_current_of;
use crate::in_force::board_path;
use crate::kept::{kept_dut, lemma_dut_object};
use crate::key_texts::{
    lemma_board_says_key, lemma_key_parts, lemma_names_differ, lemma_own_text, lemma_which, shown,
    under_key,
};
use crate::merge::{inherits, merged_dut_from, merged_dut_key};
use crate::text::{lemma_trimmed_idempotent, trimmed};
use crate::text_map::{lookup, Pairs};
use vstd::prelude::*;

verus! {

/// What a board holds under one of its own keys once it was written, as text.
pub open spec fn kept_text(d: DutView, key: Seq<char>) -> Option<Seq<char>> {
    lookup(dut_current_of(kept_dut(d)), key)
}

/// The sections have different names.
pub proof fn lemma_sections_differ()
    ensures
        "serial"@ != "target"@,
        "serial"@ != "uboot"@,
        "serial"@ != "monitor"@,
        "serial"@ != "flash"@,
        "serial"@ != "control"@,
        "target"@ != "uboot"@,
        "target"@ != "monitor"@,
        "target"@ != "flash"@,
        "target"@ != "control"@,
        "uboot"@ != "monitor"@,
        "uboot"@ != "flash"@,
        "uboot"@ != "control"@,
        "monitor"@ != "flash"@,
        "monitor"@ != "control"@,
        "flash"@ != "control"@,
        "serial"@.len() > 0,
        "target"@.len() > 0,
        "uboot"@.len() > 0,
        "monitor"@.len() > 0,
        "flash"@.len() > 0,
        "control"@.len() > 0,
{
    reveal_strlit("serial");
    reveal_strlit("target");
    reveal_strlit("uboot");
    reveal_strlit("monitor");
    reveal_strlit("flash");
    reveal_strlit("control");
    assert("serial"@[0] == 's');
    assert("target"@[0] == 't');
    assert("uboot"@[0] == 'u');
    assert("monitor"@[0] == 'm');
    assert("flash"@[0] == 'f');
    assert("control"@[0] == 'c');
}

/// The fields of a section have different names.
pub proof fn lemma_fields_differ()
    ensures
        "login_prompt"@ != "login_pass"@,
        "interrupt_strategy"@ != "interrupt_char"@,
        "pattern"@ != "interrupt_char"@,
        "pattern"@ != "interrupt_strategy"@,
        "max_archived_logs"@ != "hang_timeout"@,
        "max_archived_logs"@ != "hang_hysteresis"@,
        "reference_log"@ != "hang_timeout"@,
        "reference_log"@ != "hang_hysteresis"@,
        "reference_log"@ != "max_archived_logs"@,
        "reference_log"@ != "max_log_file_size"@,
        "crash_keywords"@ != "hang_timeout"@,
        "crash_keywords"@ != "hang_hysteresis"@,
        "crash_keywords"@ != "max_archived_logs"@,
        "crash_keywords"@ != "max_log_file_size"@,
        "crash_keywords"@ != "reference_log"@,
        "crash_keywords"@ != "learner_stage_threshold"@,
        "crash_keywords"@ != "learner_crash_threshold"@,
        "kernel_image_cmd"@ != "full_image_cmd"@,
        "loader_bin"@ != "full_image_cmd"@,
        "loader_bin"@ != "kernel_image_cmd"@,
{
    reveal_strlit("login_prompt");
    reveal_strlit("login_pass");
    reveal_strlit("interrupt_strategy");
    reveal_strlit("interrupt_char");
    reveal_strlit("pattern");
    reveal_strlit("max_archived_logs");
    reveal_strlit("max_log_file_size");
    reveal_strlit("hang_timeout");
    reveal_strlit("hang_hysteresis");
    reveal_strlit("reference_log");
    reveal_strlit("crash_keywords");
    reveal_strlit("learner_stage_threshold");
    reveal_strlit("learner_crash_threshold");
    reveal_strlit("kernel_image_cmd");
    reveal_strlit("full_image_cmd");
    reveal_strlit("loader_bin");
    assert("login_prompt"@.len() == 12 && "login_pass"@.len() == 10);
    assert("interrupt_strategy"@.len() == 18 && "interrupt_char"@.len() == 14);
    assert("pattern"@.len() == 7);
    assert("max_archived_logs"@[0] == 'm' && "max_log_file_size"@[0] == 'm');
    assert("hang_timeout"@[0] == 'h' && "hang_hysteresis"@[0] == 'h');
    assert("reference_log"@[0] == 'r' && "crash_keywords"@[0] == 'c');
    assert("learner_stage_threshold"@[0] == 'l' && "learner_crash_threshold"@[0] == 'l');
    assert("kernel_image_cmd"@[0] == 'k' && "full_image_cmd"@[0] == 'f' && "loader_bin"@[0] == 'l');
}

/// An answer that says something stands under its key.
#[verifier::rlimit(60)]
#[verifier::spinoff_prover]
proof fn lemma_answer_is_put(d: DutView, key: Seq<char>, value: Seq<char>)
    requires
        dut_owned(key),
        !inherits(key, value),
        merged_dut_key(d, key, value).1 is None,
    ensures
        kept_text(merged_dut_key(d, key, value).0, key) matches Some(x) && says_answer(
            key,
            x,
            value,
        ),
{
    let t = trimmed(value);
    let r = merged_dut_key(d, key, value).0;
    lemma_trimmed_idempotent(value);
    lemma_own_text(kept_dut(r), key);
    lemma_which(key);
    lemma_names_differ();
    lemma_key_parts();
    lemma_sections_differ();
    lemma_fields_differ();
    if key == "serial.baudrate"@ {
        crate::spelling::lemma_scalar_spellable(t);
    }
}

/// An answer leaves what stands under any other key.
#[verifier::rlimit(60)]
#[verifier::spinoff_prover]
proof fn lemma_other_key_stays(d: DutView, other: Seq<char>, value: Seq<char>, key: Seq<char>)
    requires
        dut_owned(key),
        dut_owned(other),
        key != other,
        d.target is Some,
        merged_dut_key(d, other, value).1 is None,
    ensures
        kept_text(merged_dut_key(d, other, value).0, key) == kept_text(d, key),
        merged_dut_key(d, other, value).0.target is Some,
{
    let r = merged_dut_key(d, other, value).0;
    lemma_own_text(kept_dut(r), key);
    lemma_own_text(kept_dut(d), key);
    lemma_which(key);
    lemma_which(other);
    lemma_names_differ();
    lemma_key_parts();
    lemma_sections_differ();
    lemma_fields_differ();
}

/// What stands under a key stays when no later answer is to that key.
proof fn lemma_others_stay(d: DutView, answers: Pairs, i: int, key: Seq<char>)
    requires
        0 <= i <= answers.len(),
        d.target is Some,
        dut_owned(key),
        forall|l: int| i <= l < answers.len() ==> dut_owned((#[trigger] answers[l]).0),
        forall|l: int| i <= l < answers.len() ==> (#[trigger] answers[l]).0 != key,
        merged_dut_from(d, answers, i).1 is None,
    ensures
        kept_text(merged_dut_from(d, answers, i).0, key) == kept_text(d, key),
    decreases answers.len() - i,
{
    if i < answers.len() {
        let (x, e) = merged_dut_key(d, answers[i].0, answers[i].1);
        if e is None {
            lemma_other_key_stays(d, answers[i].0, answers[i].1, key);
            lemma_others_stay(x, answers, i + 1, key);
        }
    }
}

proof fn lemma_answers_stand(d: DutView, answers: Pairs, i: int, k: int)
    requires
        0 <= i <= k < answers.len(),
        d.target is Some,
        crate::text_map::distinct_keys(answers),
        forall|l: int| 0 <= l < answers.len() ==> dut_owned((#[trigger] answers[l]).0),
        !inherits(answers[k].0, answers[k].1),
        merged_dut_from(d, answers, i).1 is None,
    ensures
        kept_text(merged_dut_from(d, answers, i).0, answers[k].0) matches Some(x) && says_answer(
            answers[k].0,
            x,
            answers[k].1,
        ),
    decreases k - i,
{
    let (x, e) = merged_dut_key(d, answers[i].0, answers[i].1);
    if e is None {
        lemma_target_stays(d, answers[i].0, answers[i].1);
        if i < k {
            lemma_answers_stand(x, answers, i + 1, k);
        } else {
            lemma_answer_is_put(d, answers[i].0, answers[i].1);
            lemma_others_stay(x, answers, i + 1, answers[k].0);
        }
    }
}

proof fn lemma_target_stays(d: DutView, key: Seq<char>, value: Seq<char>)
    requires
        d.target is Some,
    ensures
        merged_dut_key(d, key, value).0.target is Some,
{
}

/// In the new configuration every answer to an advanced key of a board stands
/// under that key of that board, unless it means that the value is inherited.
pub proof fn lemma_key_answers_stand(a: WizardAnswersView, h: nat, d: nat, k: int)
    requires
        makes_board(a, h, d),
        keys_ask(a.hosts[h as int].duts[d as int]),
        0 <= k < a.hosts[h as int].duts[d as int].advanced.len(),
        !inherits(
            a.hosts[h as int].duts[d as int].advanced[k].0,
            a.hosts[h as int].duts[d as int].advanced[k].1,
        ),
    ensures
        ({
            let (key, answer) = a.hosts[h as int].duts[d as int].advanced[k];
            created_at(a, board_path(h, d)) matches Some(j) && (shown(under_key(j, key)) matches Some(
                x,
            ) && says_answer(key, x, answer))
        }),
{
    let q = a.hosts[h as int].duts[d as int];
    let (j, x) = lemma_board_stands(a, h, d);
    let start = plain_dut(q, relay_of(q)->Ok_0);
    lemma_answers_stand(start, q.advanced, 0, k);
    lemma_board_reads(a, h, d, q.advanced[k].0);
}

/// A key of a board that no answer is to stands nowhere in the board of the new
/// configuration, but for the password, which is empty.
pub proof fn lemma_unanswered_keys_are_left_out(a: WizardAnswersView, h: nat, d: nat, key: Seq<char>)
    requires
        makes_board(a, h, d),
        keys_ask(a.hosts[h as int].duts[d as int]),
        dut_owned(key),
        forall|k: int|
            0 <= k < a.hosts[h as int].duts[d as int].advanced.len() ==> (
            #[trigger] a.hosts[h as int].duts[d as int].advanced[k]).0 != key,
    ensures
        created_at(a, board_path(h, d)) matches Some(j) && shown(under_key(j, key)) == (if key
            == "target.login_pass"@ {
            Some(Seq::<char>::empty())
        } else {
            None
        }),
{
    let q = a.hosts[h as int].duts[d as int];
    let (j, x) = lemma_board_stands(a, h, d);
    let start = plain_dut(q, relay_of(q)->Ok_0);
    lemma_others_stay(start, q.advanced, 0, key);
    lemma_own_text(kept_dut(start), key);
    lemma_which(key);
    lemma_names_differ();
    lemma_board_reads(a, h, d, key);
}

proof fn lemma_board_reads(a: WizardAnswersView, h: nat, d: nat, key: Seq<char>)
    requires
        makes_board(a, h, d),
        dut_owned(key),
    ensures
        created_at(a, board_path(h, d)) matches Some(j) && (crate::answers::dut_config(
            a.hosts[h as int].duts[d as int],
        ) matches Ok(x) && shown(under_key(j, key)) == kept_text(x, key)),
{
    let (j, x) = lemma_board_stands(a, h, d);
    crate::spelling::lemma_dut_is_sound(a.hosts[h as int].duts[d as int]);
    lemma_dut_object(x);
    lemma_board_says_key(crate::updated::dut_json(x), kept_dut(x), key);
}

} // verus!

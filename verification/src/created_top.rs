//! What a new configuration says of the answers to the advanced keys of the top
//! level.
use crate::advanced::{field_of, keywords, point_from, scalar_of, section_of, truth_of};
use crate::answers::{answers_config, hosts_config, WizardAnswersView};
use crate::config::{member, no_config, ConfigView};
use crate::created::{created_at, lemma_member_step};
use crate::created_keys::{lemma_fields_differ, lemma_sections_differ};
use crate::finish::lemma_created_reads;
use crate::jsonc::JsonView;
use crate::kept::{
    config_slots, items_json, lemma_config_members, lemma_control_members, lemma_flash_members,
    lemma_monitor_members, lemma_relay_members, lemma_serial_members, lemma_target_members,
    lemma_uboot_members, scalar_json,
};
use crate::locate::SegView;
use crate::merge::{inherits, is_known, merged_from, merged_key};
use crate::number::{decimal, real_value, unsigned, RealSign};
use crate::slots::filled;
use crate::spelling::lemma_answers_are_sound;
use crate::text::{lemma_trimmed_idempotent, trimmed};
use crate::text_map::{distinct_keys, Pairs};
use crate::written::lemma_written_reads;
use vstd::prelude::*;

verus! {

/// The path of a key of the top level.
pub open spec fn top_path(section: Seq<char>, field: Seq<char>) -> Seq<SegView> {
    if section.len() == 0 {
        seq![SegView::Key(field)]
    } else {
        seq![SegView::Key(section), SegView::Key(field)]
    }
}

/// Whether a value is what an answer to a key of the top level says: a whole
/// number, a truth value, a real number, a list of words, a scalar, or the text
/// without the white space around it. A time without power is three seconds at
/// least.
pub open spec fn is_answered(
    section: Seq<char>,
    field: Seq<char>,
    w: Option<JsonView>,
    answer: Seq<char>,
) -> bool {
    let t = trimmed(answer);
    if section == "relay"@ || section == "monitor"@ && (field == "hang_timeout"@ || field
        == "hang_hysteresis"@ || field == "max_archived_logs"@ || field == "max_log_file_size"@) {
        unsigned(t, u64::MAX as nat) matches Some(n) && w == Some(
            JsonView::Number(
                decimal(
                    if field == "power_off_time_ms"@ && n < 3000 {
                        3000
                    } else {
                        n
                    },
                ),
            ),
        )
    } else if section == "monitor"@ && (field == "learner_stage_threshold"@ || field
        == "learner_crash_threshold"@) {
        real_value(t) matches Some(x) && w == Some(JsonView::Number(x.text))
    } else if section == "monitor"@ && field == "crash_keywords"@ {
        w == Some(JsonView::Array(items_json(keywords(answer))))
    } else if section == "serial"@ && field == "rfc2217"@ {
        truth_of(t) matches Some(b) && w == Some(JsonView::Bool(b))
    } else if section == "serial"@ {
        w == Some(scalar_json(scalar_of(t)))
    } else {
        w == Some(JsonView::Text(t))
    }
}

/// Whether a new configuration says what is answered to a key. The commands for
/// loaders and the list of devices are not written.
pub open spec fn is_said(section: Seq<char>, field: Seq<char>) -> bool {
    !(section == "flash"@ && (field == "loader_cmd"@ || field == "list_devices_cmd"@))
}

// ── Keys and their parts ─────────────────────────────────────────────
proof fn lemma_point(key: Seq<char>, i: int)
    requires
        0 <= i <= key.len(),
    ensures
        point_from(key, i) matches Some(p) ==> i <= p < key.len() && key[p] == '.',
    decreases key.len() - i,
{
    if i < key.len() && key[i] != '.' {
        lemma_point(key, i + 1);
    }
}

/// Keys with the same parts are the same, unless one begins with a point.
proof fn lemma_parts_make_key(a: Seq<char>, b: Seq<char>)
    requires
        section_of(a) == section_of(b),
        field_of(a) == field_of(b),
        a.len() > 0 ==> a[0] != '.',
        b.len() > 0 ==> b[0] != '.',
    ensures
        a == b,
{
    lemma_point(a, 0);
    lemma_point(b, 0);
    match (point_from(a, 0), point_from(b, 0)) {
        (Some(i), Some(j)) => {
            assert(section_of(a).len() == i && section_of(b).len() == j);
            assert(a =~= section_of(a) + seq!['.'] + field_of(a));
            assert(b =~= section_of(b) + seq!['.'] + field_of(b));
        },
        (Some(i), None) => {
            assert(section_of(a).len() == i);
        },
        (None, Some(j)) => {
            assert(section_of(b).len() == j);
        },
        (None, None) => {},
    }
}

// ── What stands under a key ──────────────────────────────────────────
spec fn slot_of(c: ConfigView, section: Seq<char>, field: Seq<char>) -> Option<JsonView> {
    let m = filled(config_slots(c));
    if section.len() == 0 {
        member(m, field)
    } else {
        match member(m, section) {
            Some(JsonView::Object(x)) => member(x, field),
            _ => None,
        }
    }
}

/// Whether an answer says something, and not that the value is inherited.
pub open spec fn says_something(key: Seq<char>, answer: Seq<char>) -> bool {
    let t = trimmed(answer);
    &&& !inherits(key, answer)
    &&& t.len() > 0
    &&& section_of(key) == "relay"@ ==> unsigned(t, u64::MAX as nat) != Some(0nat)
    &&& section_of(key) == "monitor"@ && field_of(key) == "crash_keywords"@ ==> keywords(
        answer,
    ).len() > 0
    &&& section_of(key) == "monitor"@ && (field_of(key) == "learner_stage_threshold"@ || field_of(
        key,
    ) == "learner_crash_threshold"@) ==> (real_value(t) matches Some(x) && x.sign
        == RealSign::Positive)
}

/// An answer that says something stands under its key.
#[verifier::rlimit(80)]
#[verifier::spinoff_prover]
proof fn lemma_top_answer_is_put(c: ConfigView, key: Seq<char>, value: Seq<char>)
    requires
        is_said(section_of(key), field_of(key)),
        says_something(key, value),
        merged_key(c, key, value).1 is None,
    ensures
        is_answered(
            section_of(key),
            field_of(key),
            slot_of(merged_key(c, key, value).0, section_of(key), field_of(key)),
            value,
        ),
{
    let t = trimmed(value);
    let r = merged_key(c, key, value).0;
    let section = section_of(key);
    lemma_trimmed_idempotent(value);
    lemma_config_members(r);
    lemma_sections_differ();
    lemma_fields_differ();
    lemma_relay_apart();
    if section == "serial"@ {
        lemma_serial_members(r.serial->0);
    } else if section == "target"@ {
        lemma_target_members(r.target->0);
    } else if section == "uboot"@ {
        lemma_uboot_members(r.uboot->0);
    } else if section == "relay"@ {
        lemma_relay_members(r.relay->0);
    } else if section == "monitor"@ {
        lemma_monitor_members(r.monitor->0);
    } else if section == "flash"@ {
        lemma_flash_members(r.flash->0);
    } else if section == "control"@ {
        lemma_control_members(r.control->0);
    }
}

proof fn lemma_relay_apart()
    ensures
        "relay"@ != "serial"@,
        "relay"@ != "target"@,
        "relay"@ != "uboot"@,
        "relay"@ != "monitor"@,
        "relay"@ != "flash"@,
        "relay"@ != "control"@,
        "relay"@.len() > 0,
        "port"@ != "power_off_time_ms"@,
        "reset_ch"@ != "power_off_time_ms"@,
        "download_ch"@ != "power_off_time_ms"@,
        "power_ch"@ != "power_off_time_ms"@,
        "reset_time_ms"@ != "power_off_time_ms"@,
        "hang_timeout"@ != "power_off_time_ms"@,
        "hang_hysteresis"@ != "power_off_time_ms"@,
        "max_archived_logs"@ != "power_off_time_ms"@,
        "max_log_file_size"@ != "power_off_time_ms"@,
        "rfc2217"@ != "baudrate"@,
        "lock_dir"@ != "loader"@,
{
    reveal_strlit("relay");
    reveal_strlit("serial");
    reveal_strlit("target");
    reveal_strlit("uboot");
    reveal_strlit("monitor");
    reveal_strlit("flash");
    reveal_strlit("control");
    reveal_strlit("port");
    reveal_strlit("reset_ch");
    reveal_strlit("download_ch");
    reveal_strlit("power_ch");
    reveal_strlit("reset_time_ms");
    reveal_strlit("power_off_time_ms");
    reveal_strlit("hang_timeout");
    reveal_strlit("hang_hysteresis");
    reveal_strlit("max_archived_logs");
    reveal_strlit("max_log_file_size");
    reveal_strlit("rfc2217");
    reveal_strlit("baudrate");
    reveal_strlit("lock_dir");
    reveal_strlit("loader");
    assert("relay"@[0] == 'r' && "serial"@[0] == 's' && "target"@[0] == 't' && "uboot"@[0] == 'u');
    assert("monitor"@[0] == 'm' && "flash"@[0] == 'f' && "control"@[0] == 'c');
    assert("power_off_time_ms"@.len() == 17 && "port"@.len() == 4 && "reset_ch"@.len() == 8);
    assert("download_ch"@.len() == 11 && "power_ch"@.len() == 8 && "reset_time_ms"@.len() == 13);
    assert("power_off_time_ms"@[0] == 'p' && "hang_timeout"@[0] == 'h' && "hang_hysteresis"@[0]
        == 'h');
    assert("max_archived_logs"@[0] == 'm' && "max_log_file_size"@[0] == 'm');
    assert("rfc2217"@.len() == 7 && "baudrate"@.len() == 8);
    assert("lock_dir"@.len() == 8 && "loader"@.len() == 6);
}

/// An answer leaves what stands under any other key.
#[verifier::rlimit(100)]
#[verifier::spinoff_prover]
proof fn lemma_top_other_stays(
    c: ConfigView,
    key: Seq<char>,
    value: Seq<char>,
    other: Seq<char>,
)
    requires
        is_known(other),
        is_said(section_of(other), field_of(other)),
        section_of(other) != section_of(key) || field_of(other) != field_of(key),
        merged_key(c, key, value).1 is None,
        slot_of(c, section_of(other), field_of(other)) is Some,
    ensures
        slot_of(merged_key(c, key, value).0, section_of(other), field_of(other)) == slot_of(
            c,
            section_of(other),
            field_of(other),
        ),
{
    let r = merged_key(c, key, value).0;
    let section = section_of(other);
    lemma_config_members(r);
    lemma_config_members(c);
    lemma_sections_differ();
    lemma_fields_differ();
    lemma_relay_apart();
    if section.len() == 0 && section_of(key).len() == 0 {
        assert(section =~= section_of(key));
    }
    if section == "serial"@ {
        lemma_serial_members(r.serial->0);
        lemma_serial_members(c.serial->0);
        assert(slot_of(r, section, field_of(other)) == slot_of(c, section, field_of(other)));
    } else if section == "target"@ {
        lemma_target_members(r.target->0);
        lemma_target_members(c.target->0);
        assert(slot_of(r, section, field_of(other)) == slot_of(c, section, field_of(other)));
    } else if section == "uboot"@ {
        lemma_uboot_members(r.uboot->0);
        lemma_uboot_members(c.uboot->0);
        assert(slot_of(r, section, field_of(other)) == slot_of(c, section, field_of(other)));
    } else if section == "relay"@ {
        lemma_relay_members(r.relay->0);
        lemma_relay_members(c.relay->0);
        assert(slot_of(r, section, field_of(other)) == slot_of(c, section, field_of(other)));
    } else if section == "monitor"@ {
        lemma_monitor_members(r.monitor->0);
        lemma_monitor_members(c.monitor->0);
        assert(slot_of(r, section, field_of(other)) == slot_of(c, section, field_of(other)));
    } else if section == "flash"@ {
        lemma_flash_members(r.flash->0);
        lemma_flash_members(c.flash->0);
        assert(slot_of(r, section, field_of(other)) == slot_of(c, section, field_of(other)));
    } else if section == "control"@ {
        lemma_control_members(r.control->0);
        lemma_control_members(c.control->0);
        assert(slot_of(r, section, field_of(other)) == slot_of(c, section, field_of(other)));
    }
}

proof fn lemma_top_others_stay(c: ConfigView, answers: Pairs, i: int, other: Seq<char>)
    requires
        0 <= i <= answers.len(),
        is_known(other),
        is_said(section_of(other), field_of(other)),
        forall|l: int|
            i <= l < answers.len() ==> section_of(other) != section_of((#[trigger] answers[l]).0)
                || field_of(other) != field_of(answers[l].0),
        merged_from(c, answers, i).1 is None,
        slot_of(c, section_of(other), field_of(other)) is Some,
    ensures
        slot_of(merged_from(c, answers, i).0, section_of(other), field_of(other)) == slot_of(
            c,
            section_of(other),
            field_of(other),
        ),
    decreases answers.len() - i,
{
    if i < answers.len() {
        let (x, e) = merged_key(c, answers[i].0, answers[i].1);
        if e is None {
            lemma_top_other_stays(c, answers[i].0, answers[i].1, other);
            lemma_top_others_stay(x, answers, i + 1, other);
        }
    }
}

/// Whether every key is asked once, and none begins with a point.
pub open spec fn asked_once(answers: Pairs) -> bool {
    &&& distinct_keys(answers)
    &&& forall|l: int|
        0 <= l < answers.len() ==> (#[trigger] answers[l]).0.len() > 0 ==> answers[l].0[0] != '.'
}

proof fn lemma_top_stand(c: ConfigView, answers: Pairs, i: int, k: int)
    requires
        0 <= i <= k < answers.len(),
        asked_once(answers),
        is_said(section_of(answers[k].0), field_of(answers[k].0)),
        says_something(answers[k].0, answers[k].1),
        merged_from(c, answers, i).1 is None,
    ensures
        is_answered(
            section_of(answers[k].0),
            field_of(answers[k].0),
            slot_of(
                merged_from(c, answers, i).0,
                section_of(answers[k].0),
                field_of(answers[k].0),
            ),
            answers[k].1,
        ),
    decreases k - i,
{
    let (x, e) = merged_key(c, answers[i].0, answers[i].1);
    if e is None {
        if i < k {
            lemma_top_stand(x, answers, i + 1, k);
        } else {
            let key = answers[k].0;
            lemma_top_answer_is_put(c, key, answers[k].1);
            assert forall|l: int| i + 1 <= l < answers.len() implies section_of(key) != section_of(
                (#[trigger] answers[l]).0,
            ) || field_of(key) != field_of(answers[l].0) by {
                if section_of(key) == section_of(answers[l].0) && field_of(key) == field_of(
                    answers[l].0,
                ) {
                    lemma_parts_make_key(key, answers[l].0);
                    assert(answers[k].0 != answers[l].0);
                }
            }
            assert(is_known(key)) by {
                lemma_sections_differ();
                lemma_relay_apart();
            }
            lemma_top_others_stay(x, answers, i + 1, key);
        }
    }
}

proof fn lemma_slot_is_there(c: ConfigView, section: Seq<char>, field: Seq<char>)
    requires
        slot_of(c, section, field) is Some,
    ensures
        crate::place::json_at(
            JsonView::Object(filled(config_slots(c))),
            top_path(section, field),
        ) == slot_of(c, section, field),
{
    let m = filled(config_slots(c));
    let j = JsonView::Object(m);
    let root = Seq::<SegView>::empty();
    assert(crate::place::json_at(j, root) == Some(j));
    if section.len() == 0 {
        lemma_member_step(j, root, m, field);
        assert(root.push(SegView::Key(field)) =~= top_path(section, field));
    } else {
        lemma_member_step(j, root, m, section);
        let p = root.push(SegView::Key(section));
        assert(p.push(SegView::Key(field)) =~= top_path(section, field));
        let x = member(m, section)->0->Object_0;
        lemma_member_step(j, p, x, field);
    }
}

/// In the new configuration every answer to an advanced key of the top level
/// stands under that key, unless it means that nothing is set.
pub proof fn lemma_top_answers_stand(a: WizardAnswersView, k: int)
    requires
        answers_config(a) is Ok,
        asked_once(a.advanced),
        0 <= k < a.advanced.len(),
        is_said(section_of(a.advanced[k].0), field_of(a.advanced[k].0)),
        says_something(a.advanced[k].0, a.advanced[k].1),
    ensures
        is_answered(
            section_of(a.advanced[k].0),
            field_of(a.advanced[k].0),
            created_at(a, top_path(section_of(a.advanced[k].0), field_of(a.advanced[k].0))),
            a.advanced[k].1,
        ),
{
    let c = answers_config(a)->Ok_0;
    let section = section_of(a.advanced[k].0);
    let field = field_of(a.advanced[k].0);
    let hosts = hosts_config(a.hosts, 0, Seq::empty())->Ok_0;
    lemma_top_stand(ConfigView { dev_hosts: hosts, ..no_config() }, a.advanced, 0, k);
    lemma_slot_is_there(c, section, field);
    lemma_created_reads(a, c);
    lemma_answers_are_sound(a);
    lemma_written_reads(c, true);
}

} // verus!

//! What is shown of the states of boards.
use crate::dut_state::{
    age_suffix, configured_state_file, displayed, name_state_file, state_cell, state_facts,
    StateFacts,
};
use crate::file_paths::{can_name, lemma_joined_name};
use crate::number::decimal;
use crate::path::{file_name_of, joined_path};
use crate::state_manager::{state_name, TargetState};
use crate::text::{begins_with, trimmed};
use vstd::prelude::*;

verus! {

/// What a state file says is what is known of the board, whatever white space
/// stands around the word, and how old or where the file is.
pub proof fn lemma_state_is_read(
    s: TargetState,
    text: Seq<char>,
    missing: bool,
    age: Option<u64>,
)
    requires
        trimmed(text) == state_name(s),
    ensures
        ({
            let f = state_facts(missing, age, Some(text));
            &&& f.state == state_name(s)
            &&& f.missing == missing
            &&& f.age_secs == age
            &&& f.critical <==> s == TargetState::Crashed || s == TargetState::DutOff || s
                == TargetState::Disconnected
            &&& f.classification == (match s {
                TargetState::Crashed => "critical"@,
                TargetState::DutOff => "critical"@,
                TargetState::Disconnected => "critical"@,
                TargetState::Booting => "transitional"@,
                TargetState::UBoot => "transitional"@,
                TargetState::Active => "online"@,
                TargetState::Dutabo => "online"@,
                TargetState::Stopped => "offline"@,
            })
            &&& !f.critical ==> f.label == state_name(s)
            &&& f.critical ==> f.label == "\u{2717} "@ + state_name(s)
        }),
{
    crate::dut_state::lemma_state_words(s);
    reveal_strlit("stopped");
    reveal_strlit("active");
    reveal_strlit("booting");
    reveal_strlit("uboot");
    reveal_strlit("crashed");
    reveal_strlit("DUT-off");
    reveal_strlit("disconnected");
    reveal_strlit("dutabo");
    assert("stopped"@[0] == 's' && "active"@[0] == 'a' && "booting"@[0] == 'b' && "uboot"@[0] == 'u'
        && "crashed"@[0] == 'c' && "DUT-off"@[0] == 'D' && "disconnected"@[1] == 'i'
        && "dutabo"@[1] == 'u' && "disconnected"@[0] == 'd' && "dutabo"@[0] == 'd');
}

/// A file is stale from an hour on, and not before; one of unknown age is not.
pub proof fn lemma_stale_from_an_hour_on(missing: bool, age: u64, text: Option<Seq<char>>)
    ensures
        state_facts(missing, Some(age), text).stale <==> age >= 60 * 60,
        !state_facts(missing, None, text).stale,
{
}

/// How long ago is told in whole days, hours or minutes, the largest of them
/// that fits: the number that is told fits into the age, and one more does not.
/// Nothing is told before ten minutes have passed.
pub proof fn lemma_age_is_told(age: u64) -> (r: (nat, nat))
    ensures
        age < 10 * 60 <==> age_suffix(age) is None,
        age >= 10 * 60 ==> {
            let (n, unit) = r;
            &&& n >= 1
            &&& n * unit <= age < (n + 1) * unit
            &&& unit == 24 * 60 * 60 || unit == 60 * 60 || unit == 60
            &&& unit < 24 * 60 * 60 ==> age < 24 * 60 * 60
            &&& unit < 60 * 60 ==> age < 60 * 60
            &&& age_suffix(age) == Some(
                decimal(n) + (if unit == 24 * 60 * 60 {
                    "d ago"@
                } else if unit == 60 * 60 {
                    "h ago"@
                } else {
                    "m ago"@
                }),
            )
        },
{
    if age >= 86400 {
        ((age / 86400) as nat, 86400)
    } else if age >= 3600 {
        ((age / 3600) as nat, 3600)
    } else {
        ((age / 60) as nat, 60)
    }
}

/// A table shows the label of a state, and behind it how long ago the state was
/// written, where that is to be told and there is a file.
pub proof fn lemma_cell_shows_label(f: StateFacts)
    ensures
        begins_with(state_cell(f), f.label),
        f.missing || f.age_secs is None ==> state_cell(f) == f.label,
        f.age_secs matches Some(a) ==> a < 10 * 60 ==> state_cell(f) == f.label,
        f.age_secs matches Some(a) ==> a >= 10 * 60 && !f.missing ==> state_cell(f) == f.label
            + " ("@ + age_suffix(a)->0 + ")"@,
{
    let c = state_cell(f);
    assert(c.take(f.label.len() as int) =~= f.label);
}

/// The state files of a board are files of that name below the project: the one
/// in the directory that bears its name, and the one that is configured unless
/// that is set from the root.
pub proof fn lemma_state_files_are_found(project: Seq<char>, name: Seq<char>, dut_dir: Seq<char>)
    ensures
        file_name_of(name_state_file(project, name)) == Some("target-state"@),
        file_name_of(configured_state_file(project, dut_dir)) == Some("target-state"@),
        can_name(name) ==> begins_with(name_state_file(project, name), project),
        can_name(dut_dir) ==> begins_with(configured_state_file(project, dut_dir), project),
        dut_dir.len() > 0 && dut_dir[0] == '/' ==> configured_state_file(project, dut_dir)
            == joined_path(dut_dir, "target-state"@),
{
    reveal_strlit("target-state");
    reveal_strlit(".dut-serial");
    assert("target-state"@.len() == 12);
    assert(".dut-serial"@.len() == 11);
    assert(can_name("target-state"@));
    assert(can_name(".dut-serial"@));
    let root = joined_path(project, ".dut-serial"@);
    let dir = joined_path(root, name);
    lemma_joined_name(dir, "target-state"@);
    lemma_joined_name(joined_path(project, dut_dir), "target-state"@);
    lemma_joined_name(project, ".dut-serial"@);
    if can_name(name) {
        lemma_joined_name(root, name);
        lemma_begins_through(project, root, dir);
        lemma_begins_through(project, dir, name_state_file(project, name));
    }
    if can_name(dut_dir) {
        lemma_joined_name(project, dut_dir);
        lemma_begins_through(
            project,
            joined_path(project, dut_dir),
            configured_state_file(project, dut_dir),
        );
    }
}

proof fn lemma_begins_through(a: Seq<char>, b: Seq<char>, c: Seq<char>)
    requires
        begins_with(b, a),
        begins_with(c, b),
    ensures
        begins_with(c, a),
{
    assert(c.take(a.len() as int) =~= c.take(b.len() as int).take(a.len() as int));
}

/// Who may use the console decides what a session is shown: the owner sees the
/// state of the board, a guest that it is in use, and both that somebody works
/// on it by hand.
pub proof fn lemma_who_sees_what(state: Seq<char>, label: Seq<char>)
    ensures
        displayed(state, label, false).state == state,
        state != "dutabo"@ ==> displayed(state, label, true).state == "busy"@,
        state == "dutabo"@ ==> displayed(state, label, true) == displayed(state, label, false),
{
}

} // verus!

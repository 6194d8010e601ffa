//! What a state file says of a board, and how it is shown.
use crate::ansi_strip::{strip_text, stripped_text};
use crate::number::{decimal, decimal_text};
use crate::path::{join_path, joined_path};
use crate::state_manager::{format_statusline_labeled, state_name, statusline, TargetState};
use crate::text::{opt_text, owned, same, trim, trimmed};
use vstd::prelude::*;

verus! {

/// The age in seconds from which a state file counts as stale.
pub const STALE_THRESHOLD_SECS: u64 = 3600;

/// The age in seconds from which a state is shown with its age.
pub const AGE_SUFFIX_THRESHOLD_SECS: u64 = 600;

/// The words for the states, as they stand in a state file.
pub const KNOWN_STATES: [&'static str; 8] = [
    "active",
    "booting",
    "uboot",
    "crashed",
    "DUT-off",
    "disconnected",
    "dutabo",
    "stopped",
];

/// The boot stages in which a login shell can be reached.
pub const SHELL_STAGES: [&'static str; 6] = [
    "shell",
    "android_shell",
    "android_adbd",
    "android_bootanim",
    "android_surfaceflinger",
    "android_boot_completed",
];

/// Whether a boot stage is one in which a login shell can be reached.
pub fn is_shell_stage(stage: &str) -> (r: bool)
    ensures
        r == (exists|i: int| 0 <= i < 6 && #[trigger] SHELL_STAGES@[i]@ == stage@),
{
    let stages: [&'static str; 6] = SHELL_STAGES;
    let mut i: usize = 0;
    while i < 6
        invariant
            i <= 6,
            stages == SHELL_STAGES,
            forall|k: int| 0 <= k < i ==> (#[trigger] SHELL_STAGES@[k]@) != stage@,
        decreases 6 - i,
    {
        if same(stages[i], stage) {
            assert(SHELL_STAGES@[i as int]@ == stage@);
            return true;
        }
        i += 1;
    }
    false
}

/// The state that a word stands for.
pub open spec fn state_of(word: Seq<char>) -> Option<TargetState> {
    if word == "stopped"@ {
        Some(TargetState::Stopped)
    } else if word == "active"@ {
        Some(TargetState::Active)
    } else if word == "booting"@ {
        Some(TargetState::Booting)
    } else if word == "uboot"@ {
        Some(TargetState::UBoot)
    } else if word == "crashed"@ {
        Some(TargetState::Crashed)
    } else if word == "DUT-off"@ {
        Some(TargetState::DutOff)
    } else if word == "disconnected"@ {
        Some(TargetState::Disconnected)
    } else if word == "dutabo"@ {
        Some(TargetState::Dutabo)
    } else {
        None
    }
}

/// The state that a word stands for, if it stands for one.
pub fn target_state_of(state: &str) -> (r: Option<TargetState>)
    ensures
        r == state_of(state@),
{
    if same(state, "stopped") {
        Some(TargetState::Stopped)
    } else if same(state, "active") {
        Some(TargetState::Active)
    } else if same(state, "booting") {
        Some(TargetState::Booting)
    } else if same(state, "uboot") {
        Some(TargetState::UBoot)
    } else if same(state, "crashed") {
        Some(TargetState::Crashed)
    } else if same(state, "DUT-off") {
        Some(TargetState::DutOff)
    } else if same(state, "disconnected") {
        Some(TargetState::Disconnected)
    } else if same(state, "dutabo") {
        Some(TargetState::Dutabo)
    } else {
        None
    }
}

/// The word for a state stands for that state and for no other.
pub proof fn lemma_state_words(s: TargetState)
    ensures
        state_of(state_name(s)) == Some(s),
{
    reveal_strlit("stopped");
    reveal_strlit("active");
    reveal_strlit("booting");
    reveal_strlit("uboot");
    reveal_strlit("crashed");
    reveal_strlit("DUT-off");
    reveal_strlit("disconnected");
    reveal_strlit("dutabo");
    let n = state_name(s);
    assert(n[0] == n[0] && n[1] == n[1]);
    assert("stopped"@[0] == 's' && "active"@[0] == 'a' && "booting"@[0] == 'b' && "uboot"@[0] == 'u'
        && "crashed"@[0] == 'c' && "DUT-off"@[0] == 'D' && "disconnected"@[1] == 'i'
        && "dutabo"@[1] == 'u' && "disconnected"@[0] == 'd' && "dutabo"@[0] == 'd');
}

/// Each of the known words stands for a state whose word it is.
pub proof fn lemma_known_states(i: int)
    requires
        0 <= i < 8,
    ensures
        state_of(KNOWN_STATES@[i]@) is Some,
        state_name(state_of(KNOWN_STATES@[i]@).unwrap()) == KNOWN_STATES@[i]@,
{
    lemma_state_words(TargetState::Active);
    lemma_state_words(TargetState::Booting);
    lemma_state_words(TargetState::UBoot);
    lemma_state_words(TargetState::Crashed);
    lemma_state_words(TargetState::DutOff);
    lemma_state_words(TargetState::Disconnected);
    lemma_state_words(TargetState::Dutabo);
    lemma_state_words(TargetState::Stopped);
}

/// The state that the text of a state file gives: one of the known words,
/// with or without white space around it, or `unknown`.
pub open spec fn classified(text: Seq<char>) -> Seq<char> {
    if state_of(trimmed(text)) is Some {
        trimmed(text)
    } else {
        "unknown"@
    }
}

/// The state that the text of a state file gives.
pub fn classify_state(text: &str) -> (r: String)
    ensures
        r@ == classified(text@),
{
    let t = trim(text);
    if target_state_of(t).is_some() {
        owned(t)
    } else {
        owned("unknown")
    }
}

/// Whether a state needs care at once.
pub open spec fn critical_state(state: Seq<char>) -> bool {
    state == "crashed"@ || state == "DUT-off"@ || state == "disconnected"@
}

/// Whether a state needs care at once.
pub fn is_critical(state: &str) -> (r: bool)
    ensures
        r == critical_state(state@),
{
    same(state, "crashed") || same(state, "DUT-off") || same(state, "disconnected")
}

/// The group that a state belongs to.
pub open spec fn state_group(state: Seq<char>) -> Seq<char> {
    if critical_state(state) {
        "critical"@
    } else if state == "booting"@ || state == "uboot"@ {
        "transitional"@
    } else if state == "active"@ || state == "dutabo"@ {
        "online"@
    } else if state == "stopped"@ {
        "offline"@
    } else {
        "unknown"@
    }
}

/// The group that a state belongs to.
pub fn classification_of(state: &str) -> (r: &'static str)
    ensures
        r@ == state_group(state@),
{
    if is_critical(state) {
        "critical"
    } else if same(state, "booting") || same(state, "uboot") {
        "transitional"
    } else if same(state, "active") || same(state, "dutabo") {
        "online"
    } else if same(state, "stopped") {
        "offline"
    } else {
        "unknown"
    }
}

/// A state as it is shown: one that needs care is marked.
pub open spec fn labeled(state: Seq<char>) -> Seq<char> {
    if critical_state(state) {
        "\u{2717} "@ + state
    } else {
        state
    }
}

/// A state as it is shown.
pub fn state_label(state: &str) -> (r: String)
    ensures
        r@ == labeled(state@),
{
    if is_critical(state) {
        let mut r = owned("\u{2717} ");
        r.append(state);
        r
    } else {
        owned(state)
    }
}

/// What was found where a state file is expected: whether it is missing, its
/// age (unknown where the clock says that it is from the future), and its
/// text, where it could be read.
#[derive(Clone, Debug)]
pub struct StateFile {
    pub missing: bool,
    pub age_secs: Option<u64>,
    pub text: Option<String>,
}

/// A board's state, as a state file gives it.
#[derive(Clone, Debug, PartialEq, Eq)]
pub struct DutStateView {
    /// The word for the state, or `unknown`.
    pub state: String,
    /// The group of the state.
    pub classification: String,
    /// The age of the file.
    pub age_secs: Option<u64>,
    /// Whether the file is so old that it says little.
    pub stale: bool,
    /// Whether there is no file.
    pub missing: bool,
    /// Whether the state needs care at once.
    pub critical: bool,
    /// The state as it is shown.
    pub label: String,
}

/// What a state file gives, as a mathematical value.
#[verifier::ext_equal]
pub ghost struct StateFacts {
    pub state: Seq<char>,
    pub classification: Seq<char>,
    pub age_secs: Option<u64>,
    pub stale: bool,
    pub missing: bool,
    pub critical: bool,
    pub label: Seq<char>,
}

impl View for DutStateView {
    type V = StateFacts;

    open spec fn view(&self) -> StateFacts {
        StateFacts {
            state: self.state@,
            classification: self.classification@,
            age_secs: self.age_secs,
            stale: self.stale,
            missing: self.missing,
            critical: self.critical,
            label: self.label@,
        }
    }
}

/// What a file with this text says.
pub open spec fn state_in(text: Option<Seq<char>>) -> Seq<char> {
    match text {
        Some(t) => classified(t),
        None => "unknown"@,
    }
}

/// Whether a file of this age is stale.
pub open spec fn is_stale(age: Option<u64>) -> bool {
    match age {
        Some(a) => a >= STALE_THRESHOLD_SECS,
        None => false,
    }
}

/// What is known of a board from its state file.
pub open spec fn state_facts(missing: bool, age: Option<u64>, text: Option<Seq<char>>) -> StateFacts {
    let state = state_in(text);
    StateFacts {
        state,
        classification: state_group(state),
        age_secs: age,
        stale: is_stale(age),
        missing,
        critical: critical_state(state),
        label: labeled(state),
    }
}

/// What is known of a board from its state file.
pub fn read_dut_state(file: &StateFile) -> (r: DutStateView)
    ensures
        r@ == state_facts(file.missing, file.age_secs, opt_text(file.text)),
{
    let state = match &file.text {
        Some(t) => classify_state(t.as_str()),
        None => owned("unknown"),
    };
    let stale = match file.age_secs {
        Some(a) => a >= STALE_THRESHOLD_SECS,
        None => false,
    };
    let r = DutStateView {
        classification: owned(classification_of(state.as_str())),
        age_secs: file.age_secs,
        stale,
        missing: file.missing,
        critical: is_critical(state.as_str()),
        label: state_label(state.as_str()),
        state,
    };
    assert(r@ =~= state_facts(file.missing, file.age_secs, opt_text(file.text)));
    r
}

/// How long ago, in the largest unit that fits; nothing for what is fresh.
pub open spec fn age_suffix(age: u64) -> Option<Seq<char>> {
    if age < AGE_SUFFIX_THRESHOLD_SECS {
        None
    } else if age >= 86_400 {
        Some(decimal((age / 86_400) as nat) + "d ago"@)
    } else if age >= 3_600 {
        Some(decimal((age / 3_600) as nat) + "h ago"@)
    } else {
        Some(decimal((age / 60) as nat) + "m ago"@)
    }
}

/// How long ago, in the largest unit that fits; nothing for what is fresh.
pub fn format_age_suffix(age_secs: u64) -> (r: Option<String>)
    ensures
        opt_text(r) == age_suffix(age_secs),
{
    if age_secs < AGE_SUFFIX_THRESHOLD_SECS {
        return None;
    }
    let mut n = decimal_text(
        if age_secs >= 86_400 {
            age_secs / 86_400
        } else if age_secs >= 3_600 {
            age_secs / 3_600
        } else {
            age_secs / 60
        },
    );
    n.append(
        if age_secs >= 86_400 {
            "d ago"
        } else if age_secs >= 3_600 {
            "h ago"
        } else {
            "m ago"
        },
    );
    Some(n)
}

/// A board's state as a table shows it: with its age, where it is old and
/// there is a file.
pub open spec fn state_cell(f: StateFacts) -> Seq<char> {
    let suffix = match f.age_secs {
        Some(a) => if f.missing {
            None
        } else {
            age_suffix(a)
        },
        None => None,
    };
    match suffix {
        Some(s) => f.label + " ("@ + s + ")"@,
        None => f.label,
    }
}

/// A board's state as a table shows it.
pub fn format_state_cell(view: &DutStateView) -> (r: String)
    ensures
        r@ == state_cell(view@),
{
    let suffix = match view.age_secs {
        Some(a) => if view.missing {
            None
        } else {
            format_age_suffix(a)
        },
        None => None,
    };
    let mut r = owned(view.label.as_str());
    if let Some(s) = suffix {
        r.append(" (");
        r.append(s.as_str());
        r.append(")");
    }
    r
}

/// The state file in the directory that bears a board's name.
pub open spec fn name_state_file(project: Seq<char>, name: Seq<char>) -> Seq<char> {
    joined_path(joined_path(joined_path(project, ".dut-serial"@), name), "target-state"@)
}

/// The state file in the directory that is configured for a board.
pub open spec fn configured_state_file(project: Seq<char>, dut_dir: Seq<char>) -> Seq<char> {
    joined_path(joined_path(project, dut_dir), "target-state"@)
}

/// The state file in the directory that bears a board's name; none for a
/// board without a name.
pub fn named_state_file(project_dir: &str, dut_name: &str) -> (r: Option<String>)
    ensures
        opt_text(r) == (if trimmed(dut_name@).len() == 0 {
            None
        } else {
            Some(name_state_file(project_dir@, dut_name@))
        }),
{
    if trim(dut_name).unicode_len() == 0 {
        return None;
    }
    let root = join_path(project_dir, ".dut-serial");
    let dir = join_path(root.as_str(), dut_name);
    Some(join_path(dir.as_str(), "target-state"))
}

/// The state file to read for a board, given whether there is one in the
/// directory that bears its name: that one counts where there is one, and the
/// configured one otherwise.
pub fn dut_state_file(
    project_dir: &str,
    dut_name: &str,
    dut_dir: &str,
    name_file_exists: bool,
) -> (r: String)
    ensures
        r@ == (if trimmed(dut_name@).len() > 0 && name_file_exists {
            name_state_file(project_dir@, dut_name@)
        } else {
            configured_state_file(project_dir@, dut_dir@)
        }),
{
    if name_file_exists {
        if let Some(f) = named_state_file(project_dir, dut_name) {
            return f;
        }
    }
    let dir = join_path(project_dir, dut_dir);
    join_path(dir.as_str(), "target-state")
}

/// What a session is shown of a board.
#[derive(Clone, Debug)]
pub struct SessionDisplay {
    pub state: String,
    pub text: String,
    pub plain: String,
}

/// What a session is shown of a board, as a mathematical value.
#[verifier::ext_equal]
pub ghost struct DisplayView {
    pub state: Seq<char>,
    pub text: Seq<char>,
    pub plain: Seq<char>,
}

impl View for SessionDisplay {
    type V = DisplayView;

    open spec fn view(&self) -> DisplayView {
        DisplayView { state: self.state@, text: self.text@, plain: self.plain@ }
    }
}

/// The state that a session acts on: who holds the console comes before what
/// the board does.
pub open spec fn effective_state(state: Seq<char>, guest: bool) -> Seq<char> {
    if state == "dutabo"@ {
        "dutabo"@
    } else if guest {
        "busy"@
    } else {
        state
    }
}

/// A status line for an effective state.
pub open spec fn display_text(effective: Seq<char>, label: Seq<char>) -> Seq<char> {
    if effective == "busy"@ {
        "\x1b[33m\u{25cf} "@ + label + ":busy\x1b[0m"@
    } else {
        match state_of(effective) {
            Some(s) => statusline(s, label),
            None => Seq::empty(),
        }
    }
}

/// What a session is shown of a board.
pub open spec fn displayed(state: Seq<char>, label: Seq<char>, guest: bool) -> DisplayView {
    let effective = effective_state(state, guest);
    let text = display_text(effective, label);
    DisplayView { state: effective, text, plain: stripped_text(text) }
}

/// What a session is shown of a board.
pub fn session_display(state: &str, label: &str, guest: bool) -> (r: SessionDisplay)
    ensures
        r@ == displayed(state@, label@, guest),
{
    let effective = if same(state, "dutabo") {
        owned("dutabo")
    } else if guest {
        owned("busy")
    } else {
        owned(state)
    };
    let text = if same(effective.as_str(), "busy") {
        let mut t = owned("\x1b[33m\u{25cf} ");
        t.append(label);
        t.append(":busy\x1b[0m");
        t
    } else {
        match target_state_of(effective.as_str()) {
            Some(s) => format_statusline_labeled(s, label),
            None => {
                let t = String::new();
                assert(t@ =~= Seq::empty());
                t
            },
        }
    };
    let plain = strip_text(text.as_str());
    let r = SessionDisplay { state: effective, text, plain };
    assert(r@ =~= displayed(state@, label@, guest));
    r
}

/// What the inventory says of a board's state.
#[derive(Clone, Debug)]
pub struct InventoryDutState {
    pub state: String,
    pub state_label: String,
    pub state_text: String,
    pub state_plain: String,
    pub age_secs: Option<u64>,
    pub critical: bool,
}

/// What the inventory says of the board `dut_name`, given what is known from
/// its state file: what its owner is shown.
pub fn inventory_state_for(view: &DutStateView, dut_name: &str) -> (r: InventoryDutState)
    ensures
        r.state@ == view.state@,
        r.state_label@ == view.label@,
        r.state_text@ == displayed(view.state@, dut_name@, false).text,
        r.state_plain@ == displayed(view.state@, dut_name@, false).plain,
        r.age_secs == view.age_secs,
        r.critical == view.critical,
{
    let display = session_display(view.state.as_str(), dut_name, false);
    InventoryDutState {
        state: owned(view.state.as_str()),
        state_label: owned(view.label.as_str()),
        state_text: display.text,
        state_plain: display.plain,
        age_secs: view.age_secs,
        critical: view.critical,
    }
}

/// A file that is missing, cannot be read or says nothing known gives the
/// state `unknown`, which is never critical and belongs to no group of
/// states.
pub proof fn lemma_unknown_is_never_healthy(missing: bool, age: Option<u64>, text: Option<Seq<char>>)
    requires
        text is None || state_of(trimmed(text.unwrap())) is None,
    ensures
        state_facts(missing, age, text).state == "unknown"@,
        state_facts(missing, age, text).classification == "unknown"@,
        !state_facts(missing, age, text).critical,
        state_facts(missing, age, text).label == "unknown"@,
{
    lemma_unknown_word();
}

proof fn lemma_unknown_word()
    ensures
        state_of("unknown"@) is None,
        !critical_state("unknown"@),
        state_group("unknown"@) == "unknown"@,
{
    reveal_strlit("unknown");
    reveal_strlit("stopped");
    reveal_strlit("active");
    reveal_strlit("booting");
    reveal_strlit("uboot");
    reveal_strlit("crashed");
    reveal_strlit("DUT-off");
    reveal_strlit("disconnected");
    reveal_strlit("dutabo");
    assert("unknown"@[1] == 'n' && "uboot"@[1] == 'b');
    assert("unknown"@[0] == 'u');
    assert("stopped"@[0] == 's' && "active"@[0] == 'a' && "booting"@[0] == 'b' && "crashed"@[0]
        == 'c' && "DUT-off"@[0] == 'D' && "disconnected"@[0] == 'd' && "dutabo"@[0] == 'd');
}

/// A state is critical, has the group of the critical states, and is marked
/// where it is shown, in the same three cases.
pub proof fn lemma_critical_agrees(state: Seq<char>)
    ensures
        critical_state(state) <==> state_group(state) == "critical"@,
        critical_state(state) <==> labeled(state) != state,
{
    reveal_strlit("critical");
    reveal_strlit("transitional");
    reveal_strlit("online");
    reveal_strlit("offline");
    reveal_strlit("unknown");
    reveal_strlit("\u{2717} ");
    assert("critical"@.len() == 8 && "transitional"@.len() == 12 && "online"@.len() == 6
        && "offline"@.len() == 7 && "unknown"@.len() == 7);
    if critical_state(state) {
        assert(labeled(state).len() == state.len() + 2);
    }
}

/// A guest never sees more than that the board is in use, whatever it does.
pub proof fn lemma_guest_sees_only_use(state: Seq<char>, label: Seq<char>)
    ensures
        displayed(state, label, true).state == "dutabo"@ || displayed(state, label, true).state
            == "busy"@,
{
}

} // verus!

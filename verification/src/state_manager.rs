//! The states of a board, and how one is shown on a status line.
use crate::text::owned;
use vstd::prelude::*;

verus! {

/// The state of a board.
#[derive(Clone, Copy, Debug, PartialEq, Eq, Structural)]
pub enum TargetState {
    Stopped,
    Active,
    Booting,
    UBoot,
    Crashed,
    DutOff,
    Disconnected,
    Dutabo,
}

/// The word for a state.
pub open spec fn state_name(s: TargetState) -> Seq<char> {
    match s {
        TargetState::Stopped => "stopped"@,
        TargetState::Active => "active"@,
        TargetState::Booting => "booting"@,
        TargetState::UBoot => "uboot"@,
        TargetState::Crashed => "crashed"@,
        TargetState::DutOff => "DUT-off"@,
        TargetState::Disconnected => "disconnected"@,
        TargetState::Dutabo => "dutabo"@,
    }
}

impl TargetState {
    /// The word for the state.
    pub fn as_str(&self) -> (r: &'static str)
        ensures
            r@ == state_name(*self),
    {
        match self {
            TargetState::Stopped => "stopped",
            TargetState::Active => "active",
            TargetState::Booting => "booting",
            TargetState::UBoot => "uboot",
            TargetState::Crashed => "crashed",
            TargetState::DutOff => "DUT-off",
            TargetState::Disconnected => "disconnected",
            TargetState::Dutabo => "dutabo",
        }
    }
}

/// The escape sequence that turns on the color of a state: red for those
/// that need care at once, yellow and cyan on the way up, green and magenta
/// when the board is in use.
pub open spec fn state_color(s: TargetState) -> Seq<char> {
    match s {
        TargetState::Active => "\x1b[32m"@,
        TargetState::Booting => "\x1b[33m"@,
        TargetState::UBoot => "\x1b[36m"@,
        TargetState::Dutabo => "\x1b[35m"@,
        _ => "\x1b[31m"@,
    }
}

/// A state of a board on a status line. A stopped one is not shown.
pub open spec fn statusline(s: TargetState, label: Seq<char>) -> Seq<char> {
    if s == TargetState::Stopped {
        Seq::empty()
    } else {
        state_color(s) + "\u{25cf} "@ + label + ":"@ + state_name(s) + "\x1b[0m"@
    }
}

/// A state of a board on a status line.
pub fn format_statusline_labeled(state: TargetState, label: &str) -> (r: String)
    ensures
        r@ == statusline(state, label@),
{
    if state == TargetState::Stopped {
        let r = String::new();
        assert(r@ =~= Seq::empty());
        return r;
    }
    let color: &str = match state {
        TargetState::Active => "\x1b[32m",
        TargetState::Booting => "\x1b[33m",
        TargetState::UBoot => "\x1b[36m",
        TargetState::Dutabo => "\x1b[35m",
        _ => "\x1b[31m",
    };
    let mut r = owned(color);
    r.append("\u{25cf} ");
    r.append(label);
    r.append(":");
    r.append(state.as_str());
    r.append("\x1b[0m");
    r
}

} // verus!

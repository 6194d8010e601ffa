//! What is left of a status line without its colors.
use crate::ansi_strip::{
    at_positions, control_end, escape_end, kept, kept_from, stripped_text, text_codes,
};
use crate::state_manager::{state_color, state_name, statusline, TargetState};
use vstd::prelude::*;

verus! {

/// The positions from `i` to the one before `n`.
pub open spec fn run_of(i: int, n: int) -> Seq<int> {
    Seq::new(
        if n > i {
            (n - i) as nat
        } else {
            0
        },
        |k: int| i + k,
    )
}

proof fn lemma_run_is_kept(s: Seq<int>, i: int, n: int)
    requires
        0 <= i <= n <= s.len(),
        forall|k: int| i <= k < n ==> s[k] != 0x1b,
    ensures
        kept_from(s, i) == run_of(i, n) + kept_from(s, n),
    decreases n - i,
{
    if i < n {
        lemma_run_is_kept(s, i + 1, n);
        assert(run_of(i, n) =~= seq![i] + run_of(i + 1, n));
        assert(kept_from(s, i) =~= seq![i] + kept_from(s, i + 1));
        assert(kept_from(s, i) =~= run_of(i, n) + kept_from(s, n));
    } else {
        assert(run_of(i, n) + kept_from(s, n) =~= kept_from(s, n));
    }
}

/// A color that is put before a text, and the end of the color behind it, are
/// taken away again.
proof fn lemma_colors_fall_off(color: Seq<char>, text: Seq<char>, end: Seq<char>)
    requires
        color.len() == 5,
        color[0] == '\x1b',
        color[1] == '[',
        color[2] == '3',
        '0' <= color[3] <= '9',
        color[4] == 'm',
        end.len() == 4,
        end[0] == '\x1b',
        end[1] == '[',
        end[2] == '0',
        end[3] == 'm',
        forall|k: int| 0 <= k < text.len() ==> text[k] as u32 != 0x1b,
    ensures
        stripped_text(color + text + end) == text,
{
    let s = color + text + end;
    let c = text_codes(s);
    let n = 5 + text.len() as int;
    assert(c.len() == n + 4);
    assert(c[0] == 0x1b && c[1] == 0x5b && c[2] == 0x33 && 0x30 <= c[3] <= 0x39 && c[4] == 0x6d);
    assert(c[n] == 0x1b && c[n + 1] == 0x5b && c[n + 2] == 0x30 && c[n + 3] == 0x6d);
    reveal_with_fuel(control_end, 4);
    assert(escape_end(c, 0) == 5);
    assert(escape_end(c, n) == n + 4);
    assert forall|k: int| 5 <= k < n implies c[k] != 0x1b by {
        assert(s[k] == text[k - 5]);
    }
    lemma_run_is_kept(c, 5, n);
    assert(kept_from(c, n + 4) =~= Seq::<int>::empty());
    assert(kept_from(c, n) =~= Seq::<int>::empty());
    assert(kept_from(c, 0) == kept_from(c, 5));
    assert(kept(c) =~= run_of(5, n));
    assert(at_positions(s, kept(c)) =~= text);
}

/// Without its colors a status line is a dot, the label, a colon and the word
/// for the state; of a stopped board there is none.
pub proof fn lemma_plain_status(s: TargetState, label: Seq<char>)
    requires
        forall|k: int| 0 <= k < label.len() ==> label[k] as u32 != 0x1b,
    ensures
        s != TargetState::Stopped ==> stripped_text(statusline(s, label)) == seq!['\u{25cf}', ' ']
            + label + seq![':'] + state_name(s),
        s == TargetState::Stopped ==> statusline(s, label).len() == 0,
{
    if s != TargetState::Stopped {
        reveal_strlit("\x1b[31m");
        reveal_strlit("\x1b[32m");
        reveal_strlit("\x1b[33m");
        reveal_strlit("\x1b[35m");
        reveal_strlit("\x1b[36m");
        reveal_strlit("\x1b[0m");
        reveal_strlit("\u{25cf} ");
        reveal_strlit(":");
        reveal_strlit("active");
        reveal_strlit("booting");
        reveal_strlit("uboot");
        reveal_strlit("crashed");
        reveal_strlit("DUT-off");
        reveal_strlit("disconnected");
        reveal_strlit("dutabo");
        let name = state_name(s);
        let text = seq!['\u{25cf}', ' '] + label + seq![':'] + name;
        assert forall|k: int| 0 <= k < name.len() implies name[k] as u32 != 0x1b by {}
        assert forall|k: int| 0 <= k < text.len() implies text[k] as u32 != 0x1b by {
            if 2 <= k < 2 + label.len() {
                assert(text[k] == label[k - 2]);
            } else if k > 2 + label.len() {
                assert(text[k] == name[k - 3 - label.len()]);
            }
        }
        assert(statusline(s, label) =~= state_color(s) + text + "\x1b[0m"@);
        lemma_colors_fall_off(state_color(s), text, "\x1b[0m"@);
    }
}

} // verus!

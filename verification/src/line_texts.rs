//! How texts fall into lines.
use crate::lines::{break_from, line_or_empty, lines_of};
use crate::number::{decimal, lemma_decimal_round_trip};
use crate::unclassified::lemma_shift_lines;
use vstd::prelude::*;

verus! {

/// Whether no line break stands in a text.
pub open spec fn unbroken(s: Seq<char>) -> bool {
    forall|k: int| 0 <= k < s.len() ==> s[k] != '\n'
}

proof fn lemma_break_behind(l: Seq<char>, rest: Seq<char>, i: int)
    requires
        0 <= i <= l.len(),
        unbroken(l),
    ensures
        break_from(l + seq!['\n'] + rest, i) == l.len(),
    decreases l.len() - i,
{
    let s = l + seq!['\n'] + rest;
    if i < l.len() {
        assert(s[i] == l[i]);
        lemma_break_behind(l, rest, i + 1);
    } else {
        assert(s[i] == '\n');
    }
}

proof fn lemma_no_break(l: Seq<char>, i: int)
    requires
        0 <= i <= l.len(),
        unbroken(l),
    ensures
        break_from(l, i) == l.len(),
    decreases l.len() - i,
{
    if i < l.len() {
        lemma_no_break(l, i + 1);
    }
}

/// What stands before the first line break of a text is its first line, without
/// the carriage return that may end it; the other lines are those of what stands
/// behind the break.
pub proof fn lemma_lines_come_apart(l: Seq<char>, rest: Seq<char>)
    requires
        unbroken(l),
    ensures
        lines_of(l + seq!['\n'] + rest) == seq![
            if l.len() > 0 && l.last() == '\r' {
                l.drop_last()
            } else {
                l
            },
        ] + lines_of(rest),
{
    let s = l + seq!['\n'] + rest;
    lemma_break_behind(l, rest, 0);
    assert(s.subrange(0, l.len() as int) =~= l);
    let front = l + seq!['\n'];
    assert(front + rest =~= s);
    lemma_shift_lines(front, rest, 0);
}

/// A text without a line break is one line, to its end; nothing has no lines.
pub proof fn lemma_lone_line(l: Seq<char>)
    requires
        unbroken(l),
    ensures
        lines_of(l) == (if l.len() == 0 {
            Seq::<Seq<char>>::empty()
        } else {
            seq![l]
        }),
{
    lemma_no_break(l, 0);
    if l.len() > 0 {
        assert(l.subrange(0, l.len() as int) =~= l);
    }
}

/// Numbers are written in one line, with nothing at its end to drop.
pub proof fn lemma_decimal_line(n: nat)
    ensures
        unbroken(decimal(n)),
        decimal(n).len() > 0,
        decimal(n).last() != '\r',
{
    lemma_decimal_round_trip(n);
    assert forall|k: int| 0 <= k < decimal(n).len() implies decimal(n)[k] != '\n' && decimal(n)[k]
        != '\r' by {
        assert(crate::number::is_digit(decimal(n)[k]));
    }
    assert(decimal(n).last() == decimal(n)[decimal(n).len() - 1]);
}

/// The first line of a text, and the lines behind it.
pub proof fn lemma_line_of(l: Seq<char>, rest: Seq<char>, n: int)
    requires
        unbroken(l),
        0 <= n,
    ensures
        line_or_empty(l + seq!['\n'] + rest, n + 1) == line_or_empty(rest, n),
        l.len() == 0 || l.last() != '\r' ==> line_or_empty(l + seq!['\n'] + rest, 0) == l,
{
    lemma_lines_come_apart(l, rest);
    let all = lines_of(l + seq!['\n'] + rest);
    assert(all.len() == 1 + lines_of(rest).len());
    if n < lines_of(rest).len() {
        assert(all[n + 1] == lines_of(rest)[n]);
    }
}

/// Four lines: a project, a process, a session and a time.
pub proof fn lemma_session_lines(
    project_dir: Seq<char>,
    pid: u32,
    session: Seq<char>,
    now: u64,
    content: Seq<char>,
)
    requires
        unbroken(project_dir),
        unbroken(session),
        project_dir.len() > 0 ==> project_dir.last() != '\r',
        session.len() > 0 ==> session.last() != '\r',
        content == project_dir + "\n"@ + decimal(pid as nat) + "\n"@ + session + "\n"@ + decimal(
            now as nat,
        ) + "\n"@,
    ensures
        line_or_empty(content, 0) == project_dir,
        line_or_empty(content, 1) == decimal(pid as nat),
        line_or_empty(content, 2) == session,
        line_or_empty(content, 3) == decimal(now as nat),
        lines_of(content).len() == 4,
{
    reveal_strlit("\n");
    assert("\n"@ =~= seq!['\n']);
    let t = decimal(now as nat);
    let p = decimal(pid as nat);
    let none = Seq::<char>::empty();
    let r3 = t + seq!['\n'] + none;
    let r2 = session + seq!['\n'] + r3;
    let r1 = p + seq!['\n'] + r2;
    assert(content =~= project_dir + seq!['\n'] + r1);
    lemma_decimal_line(now as nat);
    lemma_decimal_line(pid as nat);
    lemma_lone_line(none);
    lemma_line_of(project_dir, r1, 0);
    lemma_line_of(project_dir, r1, 1);
    lemma_line_of(project_dir, r1, 2);
    lemma_line_of(p, r2, 0);
    lemma_line_of(p, r2, 1);
    lemma_line_of(session, r3, 0);
    lemma_line_of(t, none, 0);
    lemma_lines_come_apart(project_dir, r1);
    lemma_lines_come_apart(p, r2);
    lemma_lines_come_apart(session, r3);
    lemma_lines_come_apart(t, none);
}

} // verus!

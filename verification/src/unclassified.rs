//! The lines of a boot that no stage explains: one to a line, in a file.
use crate::lines::{break_from, lines_from, lines_of, split_lines, without_return};
use crate::text::texts;
use vstd::prelude::*;

verus! {

/// The lines from `i` on, each with a line break behind it.
pub open spec fn ended_lines(lines: Seq<Seq<char>>, i: int) -> Seq<char>
    decreases lines.len() - i,
{
    if i < 0 || i >= lines.len() {
        Seq::empty()
    } else {
        lines[i] + seq!['\n'] + ended_lines(lines, i + 1)
    }
}

/// What is put behind the file for some lines.
pub fn unclassified_text(lines: &Vec<String>) -> (r: String)
    ensures
        r@ == ended_lines(texts(lines@), 0),
{
    let ghost all = texts(lines@);
    let mut out = String::new();
    let mut i: usize = 0;
    assert(out@ + ended_lines(all, 0) =~= ended_lines(all, 0));
    while i < lines.len()
        invariant
            i <= lines@.len(),
            all == texts(lines@),
            out@ + ended_lines(all, i as int) == ended_lines(all, 0),
        decreases lines@.len() - i,
    {
        let ghost before = out@;
        out.append(lines[i].as_str());
        out.push('\n');
        assert(before + (all[i as int] + seq!['\n'] + ended_lines(all, i + 1)) =~= out@
            + ended_lines(all, i + 1));
        i += 1;
    }
    assert(out@ + ended_lines(all, i as int) =~= out@);
    out
}

/// The lines that the file holds.
pub fn read_unclassified(content: &str) -> (r: Vec<String>)
    ensures
        texts(r@) == lines_of(content@),
{
    split_lines(content)
}

/// Whether a text can be one line of a file: it holds no line break, and ends
/// with no carriage return.
pub open spec fn one_line(s: Seq<char>) -> bool {
    &&& forall|k: int| 0 <= k < s.len() ==> s[k] != '\n'
    &&& s.len() > 0 ==> s.last() != '\r'
}

proof fn lemma_shift_break(x: Seq<char>, b: Seq<char>, k: int)
    requires
        0 <= k <= b.len(),
    ensures
        break_from(x + b, x.len() + k) == x.len() + break_from(b, k),
        k <= break_from(b, k) <= b.len(),
    decreases b.len() - k,
{
    if k < b.len() {
        assert((x + b)[x.len() + k] == b[k]);
        if b[k] != '\n' {
            lemma_shift_break(x, b, k + 1);
        }
    }
}

/// Lines further on in a text are those of the text that begins there.
pub proof fn lemma_shift_lines(x: Seq<char>, b: Seq<char>, k: int)
    requires
        0 <= k <= b.len(),
    ensures
        lines_from(x + b, x.len() + k) == lines_from(b, k),
    decreases b.len() - k,
{
    let s = x + b;
    if k < b.len() {
        lemma_shift_break(x, b, k);
        let e = break_from(b, k);
        if e >= b.len() {
            assert(s.subrange(x.len() + k, s.len() as int) =~= b.subrange(k, b.len() as int));
        } else {
            assert(s.subrange(x.len() + k, x.len() + e) =~= b.subrange(k, e));
            lemma_shift_lines(x, b, e + 1);
        }
    }
}

proof fn lemma_first_break(l: Seq<char>, rest: Seq<char>, i: int)
    requires
        0 <= i <= l.len(),
        one_line(l),
    ensures
        break_from(l + seq!['\n'] + rest, i) == l.len(),
    decreases l.len() - i,
{
    let s = l + seq!['\n'] + rest;
    if i < l.len() {
        assert(s[i] == l[i]);
        lemma_first_break(l, rest, i + 1);
    } else {
        assert(s[i] == '\n');
    }
}

/// A line with a break behind it is the first line of a text that goes on.
proof fn lemma_first_line(l: Seq<char>, rest: Seq<char>)
    requires
        one_line(l),
    ensures
        lines_of(l + seq!['\n'] + rest) == seq![l] + lines_of(rest),
{
    let s = l + seq!['\n'] + rest;
    lemma_first_break(l, rest, 0);
    assert(s.subrange(0, l.len() as int) =~= l);
    assert(without_return(l) == l);
    let front = l + seq!['\n'];
    lemma_shift_lines(front, rest, 0);
    assert(lines_from(s, l.len() as int + 1) == lines_from(rest, 0));
}

proof fn lemma_read_from(lines: Seq<Seq<char>>, i: int)
    requires
        0 <= i <= lines.len(),
        forall|k: int| 0 <= k < lines.len() ==> one_line(#[trigger] lines[k]),
    ensures
        lines_of(ended_lines(lines, i)) == lines.skip(i),
    decreases lines.len() - i,
{
    if i < lines.len() {
        lemma_read_from(lines, i + 1);
        lemma_first_line(lines[i], ended_lines(lines, i + 1));
        assert(lines.skip(i) =~= seq![lines[i]] + lines.skip(i + 1));
    } else {
        assert(lines.skip(i) =~= Seq::empty());
        assert(ended_lines(lines, i) == Seq::<char>::empty());
    }
}

proof fn lemma_ended_behind(a: Seq<Seq<char>>, b: Seq<Seq<char>>, i: int)
    requires
        0 <= i <= a.len(),
    ensures
        ended_lines(a + b, i) == ended_lines(a, i) + ended_lines(b, 0),
    decreases a.len() - i,
{
    if i < a.len() {
        lemma_ended_behind(a, b, i + 1);
        assert((a + b)[i] == a[i]);
        assert(ended_lines(a + b, i) =~= ended_lines(a, i) + ended_lines(b, 0));
    } else {
        lemma_ended_shift(a, b, 0);
        assert(ended_lines(a, i) + ended_lines(b, 0) =~= ended_lines(b, 0));
    }
}

proof fn lemma_ended_shift(a: Seq<Seq<char>>, b: Seq<Seq<char>>, k: int)
    requires
        0 <= k <= b.len(),
    ensures
        ended_lines(a + b, a.len() + k) == ended_lines(b, k),
    decreases b.len() - k,
{
    if k < b.len() {
        assert((a + b)[a.len() + k] == b[k]);
        lemma_ended_shift(a, b, k + 1);
    }
}

/// Reading gives back what was put into the file, in order, whatever was put
/// there before.
pub proof fn lemma_read_gives_back(before: Seq<Seq<char>>, lines: Seq<Seq<char>>)
    requires
        forall|k: int| 0 <= k < before.len() ==> one_line(#[trigger] before[k]),
        forall|k: int| 0 <= k < lines.len() ==> one_line(#[trigger] lines[k]),
    ensures
        lines_of(ended_lines(before, 0) + ended_lines(lines, 0)) == before + lines,
{
    lemma_ended_behind(before, lines, 0);
    lemma_read_from(before + lines, 0);
    assert((before + lines).skip(0) =~= before + lines);
}

} // verus!

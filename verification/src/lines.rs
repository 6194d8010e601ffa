//! The lines of a text.
use crate::text::{from_chars, owned, texts, to_chars};
use vstd::prelude::*;

verus! {

/// The position of the first line break from `i` on, or the end of the text.
pub open spec fn break_from(s: Seq<char>, i: int) -> int
    decreases s.len() - i,
{
    if i < 0 || i >= s.len() {
        s.len() as int
    } else if s[i] == '\n' {
        i
    } else {
        break_from(s, i + 1)
    }
}

/// A line without the carriage return at its end.
pub open spec fn without_return(s: Seq<char>) -> Seq<char> {
    if s.len() > 0 && s.last() == '\r' {
        s.drop_last()
    } else {
        s
    }
}

/// The lines of the text from `i` on. A line ends with a line break, which may
/// have a carriage return before it; the last line need not end with one.
pub open spec fn lines_from(s: Seq<char>, i: int) -> Seq<Seq<char>>
    decreases s.len() - i,
{
    if i < 0 || i >= s.len() {
        Seq::empty()
    } else {
        let e = break_from(s, i);
        if e < i || e >= s.len() {
            seq![s.subrange(i, s.len() as int)]
        } else {
            seq![without_return(s.subrange(i, e))] + lines_from(s, e + 1)
        }
    }
}

/// The lines of a text.
pub open spec fn lines_of(s: Seq<char>) -> Seq<Seq<char>> {
    lines_from(s, 0)
}

/// The position of the first line break from `from` on, or the end of the text.
pub fn find_break(chars: &Vec<char>, from: usize) -> (r: usize)
    requires
        from <= chars.len(),
    ensures
        r == break_from(chars@, from as int),
        from <= r <= chars.len(),
{
    let mut i: usize = from;
    while i < chars.len()
        invariant
            from <= i <= chars.len(),
            break_from(chars@, i as int) == break_from(chars@, from as int),
        decreases chars.len() - i,
    {
        if chars[i] == '\n' {
            return i;
        }
        i += 1;
    }
    i
}

/// The lines of a text.
pub fn split_lines(text: &str) -> (r: Vec<String>)
    ensures
        texts(r@) == lines_of(text@),
{
    let chars = to_chars(text);
    let ghost s = text@;
    let mut out: Vec<String> = Vec::new();
    let mut i: usize = 0;
    assert(texts(out@) + lines_from(s, 0) =~= lines_of(s));
    while i < chars.len()
        invariant
            i <= chars.len(),
            chars@ == s,
            texts(out@) + lines_from(s, i as int) == lines_of(s),
        decreases chars.len() - i,
    {
        let ghost before = texts(out@);
        let e: usize = find_break(&chars, i);
        if e >= chars.len() {
            out.push(from_chars(&chars, i, e));
            assert(texts(out@) =~= before + lines_from(s, i as int));
            i = e;
            assert(texts(out@) + lines_from(s, i as int) =~= texts(out@));
        } else {
            let end: usize = if e > i && chars[e - 1] == '\r' {
                e - 1
            } else {
                e
            };
            let line = from_chars(&chars, i, end);
            assert(line@ =~= without_return(s.subrange(i as int, e as int)));
            out.push(line);
            assert(texts(out@) =~= before + seq![line@]);
            assert(before + lines_from(s, i as int) =~= before + seq![line@] + lines_from(
                s,
                e + 1,
            ));
            i = e + 1;
        }
    }
    assert(texts(out@) =~= lines_of(s));
    out
}

/// The line of a number, counted from zero; empty where there is none.
pub open spec fn line_or_empty(s: Seq<char>, n: int) -> Seq<char> {
    if 0 <= n < lines_of(s).len() {
        lines_of(s)[n]
    } else {
        Seq::empty()
    }
}

/// The line of a number, counted from zero; empty where there is none.
pub fn nth_line(text: &str, n: usize) -> (r: String)
    ensures
        r@ == line_or_empty(text@, n as int),
{
    let lines = split_lines(text);
    if n < lines.len() {
        assert(texts(lines@)[n as int] == lines@[n as int]@);
        owned(lines[n].as_str())
    } else {
        String::new()
    }
}

} // verus!

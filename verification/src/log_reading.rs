//! What is read from a log: the last of the lines that match.
use crate::log_archive::{asked_for, content_of, kept_lines, pattern_compiles, pattern_matches};
use crate::text::{joined, lemma_joined_one};
use vstd::prelude::*;

verus! {

/// The lines with what is wanted of each.
pub open spec fn marked(lines: Seq<Seq<char>>, keep: Seq<bool>) -> Seq<(Seq<char>, bool)> {
    Seq::new(lines.len(), |i: int| (lines[i], keep[i]))
}

/// The lines that are wanted, in their order.
pub open spec fn wanted(lines: Seq<Seq<char>>, keep: Seq<bool>) -> Seq<Seq<char>> {
    marked(lines, keep).filter(|x: (Seq<char>, bool)| x.1).map_values(|x: (Seq<char>, bool)| x.0)
}

/// Which lines match a pattern: all of them where there is no pattern, or one
/// that is none.
pub open spec fn by_pattern(pattern: Option<Seq<char>>) -> spec_fn(Seq<char>) -> bool {
    |l: Seq<char>|
        match pattern {
            Some(p) => !pattern_compiles(p) || pattern_matches(p, l),
            None => true,
        }
}

/// The lines of a log that match a pattern, in their order.
pub open spec fn matching(lines: Seq<Seq<char>>, pattern: Option<Seq<char>>) -> Seq<Seq<char>> {
    lines.filter(by_pattern(pattern))
}

/// How many lines are shown of those that are wanted.
pub open spec fn shown_count(wanted: nat, limit: nat) -> nat {
    if limit > 0 && limit < wanted {
        limit
    } else {
        wanted
    }
}

proof fn lemma_kept_are_wanted(lines: Seq<Seq<char>>, keep: Seq<bool>, n: int)
    requires
        0 <= n <= lines.len(),
        keep.len() == lines.len(),
    ensures
        kept_lines(lines, keep, n) == wanted(lines.take(n), keep.take(n)),
    decreases n,
{
    reveal(Seq::filter);
    let here = marked(lines.take(n), keep.take(n));
    if n > 0 {
        lemma_kept_are_wanted(lines, keep, n - 1);
        assert(here.drop_last() =~= marked(lines.take(n - 1), keep.take(n - 1)));
        assert(here.last() == (lines[n - 1], keep[n - 1]));
    }
    assert(kept_lines(lines, keep, n) =~= wanted(lines.take(n), keep.take(n)));
}

/// What is read from a log is the last of the lines that are wanted: as many as
/// the limit says, or all of them where there are no more, or where there is no
/// limit. The lines are counted before anything is left out, and so are those
/// that are wanted.
pub proof fn lemma_last_wanted_are_shown(
    filename: Seq<char>,
    lines: Seq<Seq<char>>,
    keep: Seq<bool>,
    limit: nat,
)
    requires
        keep.len() == lines.len(),
    ensures
        ({
            let r = content_of(filename, lines, keep, limit);
            let all = wanted(lines, keep);
            let n = shown_count(all.len(), limit);
            &&& r.content == joined(all.skip(all.len() - n), "\n"@)
            &&& all.len() <= limit || limit == 0 ==> r.content == joined(all, "\n"@)
            &&& r.filtered_lines == all.len()
            &&& r.total_lines == lines.len()
            &&& r.filename == filename
        }),
{
    lemma_kept_are_wanted(lines, keep, lines.len() as int);
    assert(lines.take(lines.len() as int) =~= lines);
    assert(keep.take(lines.len() as int) =~= keep);
    let all = wanted(lines, keep);
    assert(all.skip(0) =~= all);
}

proof fn lemma_wanted_by_pattern(lines: Seq<Seq<char>>, pattern: Option<Seq<char>>)
    ensures
        wanted(lines, asked_for(lines, pattern)) == matching(lines, pattern),
    decreases lines.len(),
{
    reveal(Seq::filter);
    let keep = asked_for(lines, pattern);
    let here = marked(lines, keep);
    if lines.len() > 0 {
        let front = lines.drop_last();
        lemma_wanted_by_pattern(front, pattern);
        assert(here.drop_last() =~= marked(front, asked_for(front, pattern)));
        assert(here.last() == (lines.last(), keep.last()));
    }
    assert(wanted(lines, keep) =~= matching(lines, pattern));
}

/// Reading a log by a pattern shows the last of the matching lines: no more
/// than the limit, and every one of them where they are no more than that.
pub proof fn lemma_last_matches_are_shown(
    filename: Seq<char>,
    lines: Seq<Seq<char>>,
    pattern: Option<Seq<char>>,
    limit: nat,
)
    ensures
        ({
            let r = content_of(filename, lines, asked_for(lines, pattern), limit);
            let all = matching(lines, pattern);
            let n = shown_count(all.len(), limit);
            &&& r.content == joined(all.skip(all.len() - n), "\n"@)
            &&& all.len() <= limit || limit == 0 ==> r.content == joined(all, "\n"@)
            &&& r.filtered_lines == all.len()
            &&& r.total_lines == lines.len()
        }),
{
    lemma_wanted_by_pattern(lines, pattern);
    lemma_last_wanted_are_shown(filename, lines, asked_for(lines, pattern), limit);
}

/// A line that matches is shown wherever it stands in the log, if no more lines
/// match than the limit says.
pub proof fn lemma_lone_match_is_shown(
    filename: Seq<char>,
    before: Seq<Seq<char>>,
    line: Seq<char>,
    after: Seq<Seq<char>>,
    pattern: Seq<char>,
    limit: nat,
)
    requires
        pattern_compiles(pattern),
        pattern_matches(pattern, line),
        forall|i: int| 0 <= i < before.len() ==> !pattern_matches(pattern, #[trigger] before[i]),
        forall|i: int| 0 <= i < after.len() ==> !pattern_matches(pattern, #[trigger] after[i]),
    ensures
        ({
            let lines = before.push(line) + after;
            let r = content_of(filename, lines, asked_for(lines, Some(pattern)), limit);
            r.content == line && r.filtered_lines == 1 && r.total_lines == lines.len()
        }),
{
    let lines = before.push(line) + after;
    let f = by_pattern(Some(pattern));
    lemma_none_match(before, pattern);
    lemma_none_match(after, pattern);
    Seq::filter_distributes_over_add(before.push(line), after, f);
    assert(before.push(line).filter(f) =~= seq![line]) by {
        reveal(Seq::filter);
        assert(before.push(line).drop_last() =~= before);
    }
    assert(matching(lines, Some(pattern)) =~= seq![line]);
    lemma_last_matches_are_shown(filename, lines, Some(pattern), limit);
    let all = seq![line];
    assert(all.skip(0) =~= all);
    lemma_joined_one(line, "\n"@);
}

proof fn lemma_none_match(lines: Seq<Seq<char>>, pattern: Seq<char>)
    requires
        pattern_compiles(pattern),
        forall|i: int| 0 <= i < lines.len() ==> !pattern_matches(pattern, #[trigger] lines[i]),
    ensures
        lines.filter(by_pattern(Some(pattern))) == Seq::<Seq<char>>::empty(),
    decreases lines.len(),
{
    reveal(Seq::filter);
    if lines.len() > 0 {
        assert(!pattern_matches(pattern, lines.last()));
        lemma_none_match(lines.drop_last(), pattern);
    }
}

} // verus!

//! The archived logs: which files they are, in which order they are listed,
//! and what is read from one.
use crate::archive_order::{is_older, lemma_older_irreflexive, lemma_older_transitive, older};
use crate::path::{extension, extension_of, join_path, joined_path};
use crate::text::{join, joined, owned, same, texts};
use vstd::prelude::*;

verus! {

// ── Listing ──────────────────────────────────────────────────────────
/// A file among the logs: its name and its size.
#[derive(Clone, Debug)]
pub struct LogFileInfo {
    pub name: String,
    pub size: u64,
}

/// The name and the size of a file.
pub type FileFacts = (Seq<char>, u64);

/// The meaning of a list of files.
pub open spec fn files_view(v: Seq<LogFileInfo>) -> Seq<FileFacts> {
    Seq::new(v.len(), |i: int| (v[i].name@, v[i].size))
}

/// Whether a file is an archive: a log, and neither the one that is written
/// nor the one that is never cut.
pub open spec fn archive_file(name: Seq<char>) -> bool {
    extension_of(name) == Some("log"@) && name != "current.serial.log"@ && name
        != "full.serial.log"@
}

/// Whether a file is an archive.
pub fn is_archive(name: &str) -> (r: bool)
    ensures
        r == archive_file(name@),
{
    match extension(name) {
        Some(e) => same(e.as_str(), "log") && !same(name, "current.serial.log") && !same(
            name,
            "full.serial.log",
        ),
        None => false,
    }
}

/// Where a name belongs in a list whose newest names come first: behind every
/// name from `i` on that is not older.
pub open spec fn place_from(v: Seq<FileFacts>, name: Seq<char>, i: int) -> int
    decreases v.len() - i,
{
    if i < 0 || i >= v.len() {
        v.len() as int
    } else if older(v[i].0, name) {
        i
    } else {
        place_from(v, name, i + 1)
    }
}

/// The list with one file more, in its place.
pub open spec fn placed(v: Seq<FileFacts>, f: FileFacts) -> Seq<FileFacts> {
    v.insert(place_from(v, f.0, 0), f)
}

/// The archives among the first `n` files, the newest first.
pub open spec fn archives_of(files: Seq<FileFacts>, n: int) -> Seq<FileFacts>
    decreases n,
{
    if n <= 0 {
        Seq::empty()
    } else if archive_file(files[n - 1].0) {
        placed(archives_of(files, n - 1), files[n - 1])
    } else {
        archives_of(files, n - 1)
    }
}

/// The archives, the newest first.
pub open spec fn archive_list(files: Seq<FileFacts>) -> Seq<FileFacts> {
    archives_of(files, files.len() as int)
}

proof fn lemma_place(v: Seq<FileFacts>, name: Seq<char>, i: int)
    requires
        0 <= i <= v.len(),
    ensures
        i <= place_from(v, name, i) <= v.len(),
        forall|k: int|
            i <= k < place_from(v, name, i) ==> !older((#[trigger] v[k]).0, name),
        place_from(v, name, i) < v.len() ==> older(v[place_from(v, name, i)].0, name),
    decreases v.len() - i,
{
    if i < v.len() && !older(v[i].0, name) {
        lemma_place(v, name, i + 1);
    }
}

/// The archives in order, the newest first.
pub fn sorted_archives(files: &Vec<LogFileInfo>) -> (r: Vec<LogFileInfo>)
    ensures
        files_view(r@) == archive_list(files_view(files@)),
{
    let ghost all = files_view(files@);
    let mut out: Vec<LogFileInfo> = Vec::new();
    let mut n: usize = 0;
    assert(files_view(out@) =~= archives_of(all, 0));
    while n < files.len()
        invariant
            n <= files@.len(),
            all == files_view(files@),
            files_view(out@) == archives_of(all, n as int),
        decreases files@.len() - n,
    {
        let f = &files[n];
        assert(all[n as int] == (f.name@, f.size));
        if is_archive(f.name.as_str()) {
            let ghost v = files_view(out@);
            proof {
                lemma_place(v, f.name@, 0);
            }
            let mut p: usize = 0;
            while p < out.len() && !is_older(out[p].name.as_str(), f.name.as_str())
                invariant
                    p <= out@.len(),
                    v == files_view(out@),
                    place_from(v, f.name@, p as int) == place_from(v, f.name@, 0),
                decreases out@.len() - p,
            {
                p += 1;
            }
            assert(place_from(v, f.name@, 0) == p);
            out.insert(p, LogFileInfo { name: owned(f.name.as_str()), size: f.size });
            assert(files_view(out@) =~= placed(v, all[n as int]));
        }
        n += 1;
    }
    out
}

/// Whether no name is older than one behind it.
pub open spec fn newest_first(v: Seq<FileFacts>) -> bool {
    forall|i: int, j: int|
        0 <= i < j < v.len() ==> !older((#[trigger] v[i]).0, (#[trigger] v[j]).0)
}

proof fn lemma_placed_in_order(v: Seq<FileFacts>, f: FileFacts)
    requires
        newest_first(v),
    ensures
        newest_first(placed(v, f)),
        placed(v, f).to_multiset() == v.to_multiset().insert(f),
{
    let p = place_from(v, f.0, 0);
    lemma_place(v, f.0, 0);
    let w = placed(v, f);
    assert forall|i: int, j: int| 0 <= i < j < w.len() implies !older(
        (#[trigger] w[i]).0,
        (#[trigger] w[j]).0,
    ) by {
        if j < p {
            assert(w[i] == v[i] && w[j] == v[j]);
        } else if j == p {
            assert(w[i] == v[i]);
        } else if i == p {
            assert(w[j] == v[j - 1]);
            if older(f.0, v[j - 1].0) {
                if j - 1 == p {
                    lemma_older_transitive(f.0, v[p].0, f.0);
                } else {
                    lemma_older_transitive(v[p].0, f.0, v[j - 1].0);
                }
                lemma_older_irreflexive(f.0);
            }
        } else if i < p {
            assert(w[i] == v[i] && w[j] == v[j - 1]);
        } else {
            assert(w[i] == v[i - 1] && w[j] == v[j - 1]);
        }
    }
    broadcast use vstd::seq_lib::group_to_multiset_ensures;

}

/// The archives among some files, as they come.
pub open spec fn only_archives(files: Seq<FileFacts>) -> Seq<FileFacts> {
    files.filter(|f: FileFacts| archive_file(f.0))
}

proof fn lemma_archives_of(files: Seq<FileFacts>, n: int)
    requires
        0 <= n <= files.len(),
    ensures
        newest_first(archives_of(files, n)),
        archives_of(files, n).to_multiset() == only_archives(files.take(n)).to_multiset(),
    decreases n,
{
    broadcast use vstd::seq_lib::group_to_multiset_ensures;

    let keep = |f: FileFacts| archive_file(f.0);
    reveal(Seq::filter);
    if n > 0 {
        lemma_archives_of(files, n - 1);
        assert(files.take(n).drop_last() =~= files.take(n - 1));
        assert(files.take(n).last() == files[n - 1]);
        if archive_file(files[n - 1].0) {
            lemma_placed_in_order(archives_of(files, n - 1), files[n - 1]);
        }
    } else {
        assert(files.take(0) =~= Seq::empty());
        assert(only_archives(files.take(0)) =~= Seq::empty());
    }
}

/// The list holds every archive once, and nothing else, the newest first.
pub proof fn lemma_archive_list(files: Seq<FileFacts>)
    ensures
        newest_first(archive_list(files)),
        archive_list(files).to_multiset() == only_archives(files).to_multiset(),
{
    lemma_archives_of(files, files.len() as int);
    assert(files.take(files.len() as int) =~= files);
}

/// An archive in a list.
#[derive(Clone, Debug)]
pub struct ArchiveInfo {
    pub index: usize,
    pub filename: String,
    pub size_bytes: u64,
}

/// The archives, numbered from the newest on.
pub fn list_archives(files: &Vec<LogFileInfo>) -> (r: Vec<ArchiveInfo>)
    ensures
        r@.len() == archive_list(files_view(files@)).len(),
        forall|i: int|
            0 <= i < r@.len() ==> (#[trigger] r@[i]).index == i && (r@[i].filename@, r@[i].size_bytes)
                == archive_list(files_view(files@))[i],
{
    let sorted = sorted_archives(files);
    let mut out: Vec<ArchiveInfo> = Vec::new();
    let mut i: usize = 0;
    while i < sorted.len()
        invariant
            i <= sorted@.len(),
            out@.len() == i,
            files_view(sorted@) == archive_list(files_view(files@)),
            forall|k: int|
                0 <= k < i ==> (#[trigger] out@[k]).index == k && (
                out@[k].filename@,
                out@[k].size_bytes,
                ) == archive_list(files_view(files@))[k],
        decreases sorted@.len() - i,
    {
        assert(files_view(sorted@)[i as int] == (sorted@[i as int].name@, sorted@[i as int].size));
        out.push(
            ArchiveInfo {
                index: i,
                filename: owned(sorted[i].name.as_str()),
                size_bytes: sorted[i].size,
            },
        );
        i += 1;
    }
    out
}

/// The archives that are too many when `max` are kept, the oldest first.
pub open spec fn surplus(files: Seq<FileFacts>, max: nat) -> Seq<Seq<char>> {
    let list = archive_list(files);
    if list.len() > max {
        Seq::new((list.len() - max) as nat, |i: int| list[list.len() - 1 - i].0)
    } else {
        Seq::empty()
    }
}

/// The archives that are too many when `max_logs` are kept, the oldest first.
pub fn surplus_archives(files: &Vec<LogFileInfo>, max_logs: usize) -> (r: Vec<String>)
    ensures
        texts(r@) == surplus(files_view(files@), max_logs as nat),
{
    let sorted = sorted_archives(files);
    let ghost list = archive_list(files_view(files@));
    let mut out: Vec<String> = Vec::new();
    let mut n: usize = sorted.len();
    while n > max_logs
        invariant
            n <= sorted@.len(),
            list == archive_list(files_view(files@)),
            files_view(sorted@) == list,
            sorted@.len() > max_logs ==> n >= max_logs,
            sorted@.len() <= max_logs ==> n == sorted@.len(),
            out@.len() == sorted@.len() - n,
            forall|k: int| 0 <= k < out@.len() ==> (#[trigger] out@[k])@ == list[list.len() - 1 - k].0,
        decreases n,
    {
        n -= 1;
        assert(files_view(sorted@)[n as int].0 == sorted@[n as int].name@);
        out.push(owned(sorted[n].name.as_str()));
    }
    assert(texts(out@) =~= surplus(files_view(files@), max_logs as nat));
    out
}

/// When the surplus is removed, as many archives as may be kept are left, the
/// newest ones.
pub proof fn lemma_surplus_is_oldest(files: Seq<FileFacts>, max: nat)
    ensures
        ({
            let list = archive_list(files);
            let gone = surplus(files, max);
            &&& gone.len() == (if list.len() > max {
                list.len() - max
            } else {
                0
            })
            &&& forall|i: int, j: int|
                0 <= i < gone.len() && 0 <= j < list.len() - gone.len() ==> !older(
                    (#[trigger] list[j]).0,
                    #[trigger] gone[i],
                )
        }),
{
    lemma_archive_list(files);
    let list = archive_list(files);
    let gone = surplus(files, max);
    assert forall|i: int, j: int|
        0 <= i < gone.len() && 0 <= j < list.len() - gone.len() implies !older(
        (#[trigger] list[j]).0,
        #[trigger] gone[i],
    ) by {
        assert(gone[i] == list[list.len() - 1 - i].0);
    }
}

// ── What to read ─────────────────────────────────────────────────────
/// A log to be read: how it is called, and where it stands.
#[derive(Clone, Debug)]
pub struct LogReadTarget {
    pub filename: String,
    pub path: String,
}

/// The log that is being written.
pub fn live_read_target(current_path: &str) -> (r: LogReadTarget)
    ensures
        r.filename@ == "current.serial.log"@,
        r.path@ == current_path@,
{
    LogReadTarget { filename: owned("current.serial.log"), path: owned(current_path) }
}

/// The archive with a number, counted from the newest on.
pub fn read_target(files: &Vec<LogFileInfo>, log_dir: &str, archive_index: usize) -> (r: Option<
    LogReadTarget,
>)
    ensures
        match r {
            Some(t) => archive_index < archive_list(files_view(files@)).len() && t.filename@
                == archive_list(files_view(files@))[archive_index as int].0 && t.path@
                == joined_path(log_dir@, t.filename@),
            None => archive_index >= archive_list(files_view(files@)).len(),
        },
{
    let sorted = sorted_archives(files);
    assert(sorted@.len() == files_view(sorted@).len());
    if archive_index < sorted.len() {
        assert(files_view(sorted@)[archive_index as int].0 == sorted@[archive_index as int].name@);
        let name = owned(sorted[archive_index].name.as_str());
        let path = join_path(log_dir, name.as_str());
        Some(LogReadTarget { filename: name, path })
    } else {
        None
    }
}

// ── Reading ──────────────────────────────────────────────────────────
/// Whether a pattern can be compiled.
pub uninterp spec fn pattern_compiles(pattern: Seq<char>) -> bool;

/// Whether a pattern, in capital or small letters, matches in a line.
pub uninterp spec fn pattern_matches(pattern: Seq<char>, line: Seq<char>) -> bool;

/// `regex::Regex`, a compiled pattern.
#[verifier::external_type_specification]
#[verifier::external_body]
pub struct ExRegex(regex::Regex);

/// A compiled pattern, and the text that it was compiled from.
pub struct LineFilter {
    re: regex::Regex,
    source: Ghost<Seq<char>>,
}

impl View for LineFilter {
    type V = Seq<char>;

    closed spec fn view(&self) -> Seq<char> {
        self.source@
    }
}

/// `regex::RegexBuilder::build`, without regard to case: the compiled pattern,
/// where the pattern can be compiled. Which patterns can is not stated.
#[verifier::external_body]
fn compile(pattern: &str) -> (r: Option<LineFilter>)
    ensures
        r is Some <==> pattern_compiles(pattern@),
        match r {
            Some(f) => f@ == pattern@,
            None => true,
        },
{
    let re = regex::RegexBuilder::new(pattern).case_insensitive(true).build().ok()?;
    Some(LineFilter { re, source: Ghost(pattern@) })
}

/// `regex::Regex::is_match`: whether the pattern that was compiled matches in
/// a line. Which lines match is a matter of the pattern and the line alone,
/// and is not stated.
#[verifier::external_body]
fn line_matches(filter: &LineFilter, line: &str) -> (r: bool)
    ensures
        r == pattern_matches(filter@, line@),
{
    filter.re.is_match(line)
}

/// What was read from a log.
#[derive(Clone, Debug)]
pub struct LogContent {
    pub content: String,
    pub filename: String,
    pub total_lines: usize,
    pub filtered_lines: usize,
}

/// The meaning of a [`LogContent`].
#[verifier::ext_equal]
pub ghost struct ContentView {
    pub content: Seq<char>,
    pub filename: Seq<char>,
    pub total_lines: nat,
    pub filtered_lines: nat,
}

impl View for LogContent {
    type V = ContentView;

    open spec fn view(&self) -> ContentView {
        ContentView {
            content: self.content@,
            filename: self.filename@,
            total_lines: self.total_lines as nat,
            filtered_lines: self.filtered_lines as nat,
        }
    }
}

/// The lines that are asked for, of the first `n`: those for which `keep`
/// holds.
pub open spec fn kept_lines(lines: Seq<Seq<char>>, keep: Seq<bool>, n: int) -> Seq<Seq<char>>
    decreases n,
{
    if n <= 0 {
        Seq::empty()
    } else if keep[n - 1] {
        kept_lines(lines, keep, n - 1).push(lines[n - 1])
    } else {
        kept_lines(lines, keep, n - 1)
    }
}

/// The last `limit` lines; all of them where the limit is zero.
pub open spec fn last_lines(lines: Seq<Seq<char>>, limit: nat) -> Seq<Seq<char>> {
    if limit > 0 && lines.len() > limit {
        lines.skip(lines.len() - limit)
    } else {
        lines
    }
}

/// What is read from a log with these lines, given which of them are asked
/// for.
pub open spec fn content_of(
    filename: Seq<char>,
    lines: Seq<Seq<char>>,
    keep: Seq<bool>,
    limit: nat,
) -> ContentView {
    let kept = kept_lines(lines, keep, lines.len() as int);
    ContentView {
        content: joined(last_lines(kept, limit), "\n"@),
        filename,
        total_lines: lines.len(),
        filtered_lines: kept.len(),
    }
}

/// Which lines are asked for: those that a pattern matches, or all of them
/// where there is none or it cannot be compiled.
pub open spec fn asked_for(lines: Seq<Seq<char>>, pattern: Option<Seq<char>>) -> Seq<bool> {
    Seq::new(
        lines.len(),
        |i: int|
            match pattern {
                Some(p) => pattern_compiles(p) ==> pattern_matches(p, lines[i]),
                None => true,
            },
    )
}

/// What is read from a log, given which of its lines are asked for.
pub fn kept_content(filename: &str, lines: &Vec<String>, keep: &Vec<bool>, limit: usize) -> (r:
    LogContent)
    requires
        keep@.len() == lines@.len(),
    ensures
        r@ == content_of(filename@, texts(lines@), keep@, limit as nat),
{
    let ghost all = texts(lines@);
    let mut kept: Vec<String> = Vec::new();
    let mut n: usize = 0;
    assert(texts(kept@) =~= kept_lines(all, keep@, 0));
    while n < lines.len()
        invariant
            n <= lines@.len(),
            keep@.len() == lines@.len(),
            all == texts(lines@),
            texts(kept@) == kept_lines(all, keep@, n as int),
        decreases lines@.len() - n,
    {
        if keep[n] {
            let ghost before = kept@;
            kept.push(owned(lines[n].as_str()));
            assert(texts(kept@) =~= texts(before).push(all[n as int]));
        }
        n += 1;
    }
    let filtered: usize = kept.len();
    assert(filtered == kept_lines(all, keep@, all.len() as int).len());
    let mut shown: Vec<String> = Vec::new();
    let start: usize = if limit > 0 && filtered > limit {
        filtered - limit
    } else {
        0
    };
    let mut k: usize = start;
    while k < filtered
        invariant
            start <= k <= filtered,
            filtered == kept@.len(),
            texts(shown@) == texts(kept@).subrange(start as int, k as int),
        decreases filtered - k,
    {
        let ghost before = shown@;
        shown.push(owned(kept[k].as_str()));
        k += 1;
        assert(texts(shown@) =~= texts(before).push(texts(kept@)[k - 1]));
        assert(texts(shown@) =~= texts(kept@).subrange(start as int, k as int));
    }
    assert(texts(shown@) =~= last_lines(texts(kept@), limit as nat));
    let r = LogContent {
        content: join(&shown, "\n"),
        filename: owned(filename),
        total_lines: lines.len(),
        filtered_lines: filtered,
    };
    assert(r@ =~= content_of(filename@, all, keep@, limit as nat));
    r
}

/// The meaning of an optional pattern.
pub open spec fn pattern_view(p: Option<&str>) -> Option<Seq<char>> {
    match p {
        Some(s) => Some(s@),
        None => None,
    }
}

/// Reads the lines of a log: of those that the pattern matches, without
/// regard to case, the last `limit`. A pattern that cannot be compiled is as
/// good as none, and so is a limit of zero.
pub fn read_target_content(
    filename: &str,
    lines: &Vec<String>,
    limit: usize,
    pattern: Option<&str>,
) -> (r: LogContent)
    ensures
        r@ == content_of(
            filename@,
            texts(lines@),
            asked_for(texts(lines@), pattern_view(pattern)),
            limit as nat,
        ),
{
    let filter = match pattern {
        Some(p) => compile(p),
        None => None,
    };
    let mut keep: Vec<bool> = Vec::new();
    let mut i: usize = 0;
    while i < lines.len()
        invariant
            i <= lines@.len(),
            keep@.len() == i,
            match filter {
                Some(f) => pattern is Some && f@ == pattern.unwrap()@ && pattern_compiles(f@),
                None => match pattern {
                    Some(p) => !pattern_compiles(p@),
                    None => true,
                },
            },
            forall|k: int|
                0 <= k < i ==> (#[trigger] keep@[k]) == asked_for(
                    texts(lines@),
                    pattern_view(pattern),
                )[k],
        decreases lines@.len() - i,
    {
        let m = match &filter {
            Some(f) => line_matches(f, lines[i].as_str()),
            None => true,
        };
        keep.push(m);
        i += 1;
    }
    assert(keep@ =~= asked_for(texts(lines@), pattern_view(pattern)));
    kept_content(filename, lines, &keep, limit)
}

/// What is answered where there is nothing to read.
pub fn no_content(filename: &str) -> (r: LogContent)
    ensures
        r@ == (ContentView {
            content: Seq::empty(),
            filename: filename@,
            total_lines: 0,
            filtered_lines: 0,
        }),
{
    let r = LogContent {
        content: String::new(),
        filename: owned(filename),
        total_lines: 0,
        filtered_lines: 0,
    };
    assert(r@ =~= (ContentView {
        content: Seq::empty(),
        filename: filename@,
        total_lines: 0,
        filtered_lines: 0,
    }));
    r
}

} // verus!

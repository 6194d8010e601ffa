//! How paths are put together and taken apart.
use crate::inotify_watcher::{
    changed_state, state_path_from, taken_from, FileEvent, FileEventKind, NextEvent, QueueState,
};
use crate::path::{component_start, extension_of, file_name_of, joined_path, last_dot, path_end};
use crate::text::{begins_with, ends_with};
use vstd::prelude::*;

verus! {

/// Whether a text can be the name of a file.
pub open spec fn can_name(s: Seq<char>) -> bool {
    &&& s.len() > 0
    &&& forall|k: int| 0 <= k < s.len() ==> s[k] != '/'
    &&& s != seq!['.']
    &&& s != seq!['.', '.']
}

proof fn lemma_start_of_name(front: Seq<char>, name: Seq<char>, n: int)
    requires
        forall|k: int| 0 <= k < name.len() ==> name[k] != '/',
        front.len() == 0 || front.last() == '/',
        front.len() <= n <= front.len() + name.len(),
    ensures
        component_start(front + name, n) == front.len(),
    decreases n,
{
    let s = front + name;
    if n > front.len() {
        assert(s[n - 1] == name[n - 1 - front.len()]);
        lemma_start_of_name(front, name, n - 1);
    } else if n > 0 {
        assert(s[n - 1] == front.last());
    }
}

proof fn lemma_name_at_end(front: Seq<char>, name: Seq<char>)
    requires
        can_name(name),
        front.len() == 0 || front.last() == '/',
    ensures
        file_name_of(front + name) == Some(name),
{
    let s = front + name;
    let n = s.len() as int;
    assert(s[n - 1] == name.last());
    if name.last() == '.' && n >= 2 && s[n - 2] == '/' {
        if name.len() >= 2 {
            assert(s[n - 2] == name[name.len() - 2]);
        }
        assert(name.len() == 1);
        assert(name =~= seq!['.']);
    }
    assert(path_end(s, n) == n);
    lemma_start_of_name(front, name, n);
    assert(s.subrange(front.len() as int, n) =~= name);
}

/// A name put under a directory is the last component of the path, and the path
/// begins with the directory. The path of a file alone is its name.
pub proof fn lemma_joined_name(base: Seq<char>, name: Seq<char>)
    requires
        can_name(name),
    ensures
        file_name_of(joined_path(base, name)) == Some(name),
        file_name_of(name) == Some(name),
        begins_with(joined_path(base, name), base),
        ends_with(joined_path(base, name), name),
        joined_path(base, name).len() <= base.len() + 1 + name.len(),
        base.len() > 0 && base.last() != '/' ==> joined_path(base, name) == base + seq!['/'] + name,
{
    assert(name[0] != '/');
    let front = if base.len() == 0 || base.last() == '/' {
        base
    } else {
        base + seq!['/']
    };
    lemma_name_at_end(front, name);
    lemma_name_at_end(Seq::empty(), name);
    assert(Seq::<char>::empty() + name =~= name);
    let p = joined_path(base, name);
    assert(p =~= front + name);
    assert(p.take(base.len() as int) =~= base);
    assert(p.skip(p.len() - name.len()) =~= name);
}

/// A path from the root stands for itself under any directory.
pub proof fn lemma_root_stands_for_itself(base: Seq<char>, part: Seq<char>)
    requires
        part.len() > 0,
        part[0] == '/',
    ensures
        joined_path(base, part) == part,
{
}

/// Separators at the end of a path do not change its last component.
pub proof fn lemma_trailing_separator(s: Seq<char>)
    ensures
        file_name_of(s.push('/')) == file_name_of(s),
{
    let t = s.push('/');
    lemma_end_before(s, t, s.len() as int);
    let e = path_end(s, s.len() as int);
    lemma_start_before(s, t, e);
    assert(t.subrange(component_start(s, e), e) =~= s.subrange(component_start(s, e), e));
}

proof fn lemma_end_before(s: Seq<char>, t: Seq<char>, n: int)
    requires
        0 <= n <= s.len() <= t.len(),
        forall|k: int| 0 <= k < s.len() ==> s[k] == t[k],
    ensures
        path_end(t, n) == path_end(s, n),
        0 <= path_end(s, n) <= n,
    decreases n,
{
    if n > 0 {
        lemma_end_before(s, t, n - 1);
    }
}

proof fn lemma_start_before(s: Seq<char>, t: Seq<char>, n: int)
    requires
        0 <= n <= s.len() <= t.len(),
        forall|k: int| 0 <= k < s.len() ==> s[k] == t[k],
    ensures
        component_start(t, n) == component_start(s, n),
        0 <= component_start(s, n) <= n,
    decreases n,
{
    if n > 0 {
        lemma_start_before(s, t, n - 1);
    }
}

// ── Extensions ───────────────────────────────────────────────────────
proof fn lemma_dot_there(stem: Seq<char>, ext: Seq<char>, n: int)
    requires
        forall|k: int| 0 <= k < ext.len() ==> ext[k] != '.',
        stem.len() < n <= stem.len() + 1 + ext.len(),
    ensures
        last_dot(stem + seq!['.'] + ext, n) == Some(stem.len() as int),
    decreases n,
{
    let s = stem + seq!['.'] + ext;
    if n == stem.len() + 1 {
        assert(s[n - 1] == '.');
    } else {
        assert(s[n - 1] == ext[n - 2 - stem.len()]);
        lemma_dot_there(stem, ext, n - 1);
    }
}

proof fn lemma_no_dot(s: Seq<char>, n: int)
    requires
        0 <= n <= s.len(),
        forall|k: int| 0 <= k < s.len() ==> s[k] != '.',
    ensures
        last_dot(s, n) is None,
    decreases n,
{
    if n > 0 {
        lemma_no_dot(s, n - 1);
    }
}

/// What follows the last dot of a file name is its extension, unless nothing
/// stands before that dot. A name without a dot has none.
pub proof fn lemma_extension_is_behind(stem: Seq<char>, ext: Seq<char>)
    requires
        forall|k: int| 0 <= k < ext.len() ==> ext[k] != '.',
    ensures
        extension_of(stem + seq!['.'] + ext) == (if stem.len() > 0 {
            Some(ext)
        } else {
            None
        }),
        extension_of(ext) is None,
{
    let s = stem + seq!['.'] + ext;
    lemma_dot_there(stem, ext, s.len() as int);
    lemma_no_dot(ext, ext.len() as int);
    assert(s.subrange(stem.len() as int + 1, s.len() as int) =~= ext);
}

// ── Watching ─────────────────────────────────────────────────────────
proof fn lemma_first_state_file(paths: Seq<String>, i: int, k: int)
    requires
        0 <= i <= k < paths.len(),
        file_name_of(paths[k]@) == Some("target-state"@),
        forall|l: int|
            0 <= l < k ==> file_name_of((#[trigger] paths[l])@) != Some("target-state"@),
    ensures
        state_path_from(paths, i) == Some(paths[k]@),
    decreases k - i,
{
    if i < k {
        lemma_first_state_file(paths, i + 1, k);
    }
}

proof fn lemma_no_state_file(paths: Seq<String>, i: int)
    requires
        0 <= i <= paths.len(),
        forall|l: int|
            0 <= l < paths.len() ==> file_name_of((#[trigger] paths[l])@) != Some(
                "target-state"@,
            ),
    ensures
        state_path_from(paths, i) is None,
    decreases paths.len() - i,
{
    if i < paths.len() {
        lemma_no_state_file(paths, i + 1);
    }
}

/// When a board's state file is made, written or removed, that is told, with the
/// path of the file, whatever directory it is in and whatever other paths the
/// event names; the first state file counts.
pub proof fn lemma_state_file_is_told(event: FileEvent, k: int, dir: Seq<char>)
    requires
        event.kind == FileEventKind::Create || event.kind == FileEventKind::Modify || event.kind
            == FileEventKind::Remove || event.kind == FileEventKind::Any,
        0 <= k < event.paths@.len(),
        event.paths@[k]@ == joined_path(dir, "target-state"@),
        forall|l: int|
            0 <= l < k ==> file_name_of((#[trigger] event.paths@[l])@) != Some("target-state"@),
    ensures
        changed_state(event) == Some(joined_path(dir, "target-state"@)),
{
    reveal_strlit("target-state");
    let name = "target-state"@;
    assert(name.len() == 12);
    lemma_joined_name(dir, name);
    lemma_first_state_file(event.paths@, 0, k);
}

/// Nothing is told of an event that names no state file, nor of one that only
/// reads files.
pub proof fn lemma_other_files_are_not_told(event: FileEvent)
    requires
        event.kind == FileEventKind::Access || event.kind == FileEventKind::Other || forall|l: int|
            0 <= l < event.paths@.len() ==> file_name_of((#[trigger] event.paths@[l])@) != Some(
                "target-state"@,
            ),
    ensures
        changed_state(event) is None,
{
    if !(event.kind == FileEventKind::Access || event.kind == FileEventKind::Other) {
        lemma_no_state_file(event.paths@, 0);
    }
}

/// No event is lost: as long as one is queued or found the queue full, one is
/// taken, what is queued first; the end comes only when the queue is closed and
/// nothing is left.
pub proof fn lemma_no_event_is_lost(queue: QueueState, overflow: bool)
    ensures
        queue == QueueState::Ready ==> taken_from(queue, overflow) == NextEvent::Queued,
        queue != QueueState::Ready && overflow ==> taken_from(queue, overflow)
            == NextEvent::Overflowed,
        !overflow && queue == QueueState::Empty ==> taken_from(queue, overflow) == NextEvent::Wait,
        taken_from(queue, overflow) == NextEvent::End <==> queue == QueueState::Closed
            && !overflow,
{
}

} // verus!

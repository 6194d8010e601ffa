//! What lock files say, and which processes they and the system name.
use crate::file_paths::lemma_extension_is_behind;
use crate::line_texts::{lemma_decimal_line, lemma_line_of, lemma_lone_line, unbroken};
use crate::lines::line_or_empty;
use crate::lock_manager::{
    alive_of, can_clean, endpoint, entry_end, entry_values, holder_from, in_the_way, last_bracket,
    live_owner, lock_content_of, lock_left_by, may_steal, refused_owner, state_letter, Candidate,
    LockAttempt, SignalReply,
};
use crate::number::decimal;
use crate::occupancy::{conflict_of, foreign_of, HeldView};
use crate::text::{is_space, trim_front};
use vstd::prelude::*;

verus! {

// ── Lock files ───────────────────────────────────────────────────────
/// Whether a text stays as it is as a line of a file.
pub open spec fn fits_line(s: Seq<char>) -> bool {
    unbroken(s) && (s.len() > 0 ==> s.last() != '\r')
}

/// The lines of a lock file are the process that wrote it, the endpoint, the
/// machine and the time. Whoever finds the endpoint held learns that time.
pub proof fn lemma_lock_file_reads(
    pid: u32,
    host: Seq<char>,
    target: Seq<char>,
    machine: Seq<char>,
    time: Seq<char>,
    project: Option<Seq<char>>,
)
    requires
        fits_line(host),
        fits_line(target),
        fits_line(machine),
        unbroken(time),
    ensures
        ({
            let s = lock_content_of(pid, host, target, machine, time);
            &&& line_or_empty(s, 0) == decimal(pid as nat)
            &&& line_or_empty(s, 1) == host + seq![':'] + target
            &&& line_or_empty(s, 2) == machine
            &&& line_or_empty(s, 3) == time
            &&& conflict_of(host, target, pid, s, project).since == time
            &&& conflict_of(host, target, pid, s, project).host == host
            &&& conflict_of(host, target, pid, s, project).port == target
            &&& conflict_of(host, target, pid, s, project).pid == pid
            &&& conflict_of(host, target, pid, s, project).owner_project == project
        }),
{
    reveal_strlit("\n");
    reveal_strlit(":");
    assert("\n"@ =~= seq!['\n']);
    assert(":"@ =~= seq![':']);
    let p = decimal(pid as nat);
    let e = endpoint(host, target);
    let s = lock_content_of(pid, host, target, machine, time);
    let r2 = machine + seq!['\n'] + time;
    let r1 = e + seq!['\n'] + r2;
    assert(s =~= p + seq!['\n'] + r1);
    assert(e =~= host + seq![':'] + target);
    assert(unbroken(e)) by {
        assert forall|k: int| 0 <= k < e.len() implies e[k] != '\n' by {
            if k < host.len() {
                assert(e[k] == host[k]);
            } else if k > host.len() {
                assert(e[k] == target[k - host.len() - 1]);
            }
        }
    }
    assert(e.last() != '\r') by {
        if target.len() > 0 {
            assert(e.last() == target.last());
        } else {
            assert(e.last() == ':');
        }
    }
    lemma_decimal_line(pid as nat);
    lemma_line_of(p, r1, 0);
    lemma_line_of(p, r1, 1);
    lemma_line_of(p, r1, 2);
    lemma_line_of(e, r2, 0);
    lemma_line_of(e, r2, 1);
    lemma_line_of(machine, time, 0);
    lemma_lone_line(time);
    if time.len() == 0 {
        assert(line_or_empty(time, 0) =~= time);
    }
}

// ── Processes ────────────────────────────────────────────────────────
proof fn lemma_bracket_there(front: Seq<char>, rest: Seq<char>, n: int)
    requires
        forall|k: int| 0 <= k < rest.len() ==> rest[k] != ')',
        front.len() < n <= front.len() + 1 + rest.len(),
    ensures
        last_bracket(front + seq![')'] + rest, n) == Some(front.len() as int),
    decreases n,
{
    let s = front + seq![')'] + rest;
    if n == front.len() + 1 {
        assert(s[n - 1] == ')');
    } else {
        assert(s[n - 1] == rest[n - 2 - front.len()]);
        lemma_bracket_there(front, rest, n - 1);
    }
}

/// The state letter of a process is the one behind the bracket that closes its
/// name, whatever the name is; brackets in the name do not confuse.
pub proof fn lemma_state_letter_is_behind_name(front: Seq<char>, letter: char, rest: Seq<char>)
    requires
        !is_space(letter),
        letter != ')',
        forall|k: int| 0 <= k < rest.len() ==> rest[k] != ')',
    ensures
        state_letter(front + seq![')', ' ', letter] + rest) == Some(letter),
{
    let behind = seq![' ', letter] + rest;
    let s = front + seq![')', ' ', letter] + rest;
    assert(s =~= front + seq![')'] + behind);
    assert forall|k: int| 0 <= k < behind.len() implies behind[k] != ')' by {
        if k >= 2 {
            assert(behind[k] == rest[k - 2]);
        }
    }
    lemma_bracket_there(front, behind, s.len() as int);
    let t = s.skip(front.len() as int + 1);
    assert(t =~= behind);
    assert(is_space(' '));
    assert(t[0] == ' ');
    assert(t.drop_first()[0] == letter);
    reveal_with_fuel(trim_front, 3);
}

/// A process that cannot be found is dead, and so is one that has exited and was
/// not reaped; every other one is alive.
pub proof fn lemma_who_is_alive(reply: SignalReply, front: Seq<char>, letter: char, rest: Seq<char>)
    requires
        !is_space(letter),
        letter != ')',
        forall|k: int| 0 <= k < rest.len() ==> rest[k] != ')',
    ensures
        alive_of(reply, Some(front + seq![')', ' ', letter] + rest)) <==> match reply {
            SignalReply::NoProcess => false,
            SignalReply::NotPermitted => true,
            SignalReply::Delivered => letter != 'Z',
        },
        alive_of(reply, None) <==> reply != SignalReply::NoProcess,
{
    lemma_state_letter_is_behind_name(front, letter, rest);
}

/// Whoever is found to hold a project is one of the candidates, a live server at
/// work in the project and not the one that asks; the first of those counts, and
/// where there is one, one is found.
pub proof fn lemma_project_holder(v: Seq<Candidate>, own: u32, i: int) -> (k: int)
    requires
        0 <= i <= v.len(),
    ensures
        match holder_from(v, own, i) {
            Some(pid) => {
                &&& i <= k < v.len()
                &&& v[k].pid == pid
                &&& pid != own
                &&& v[k].live_server
                &&& v[k].in_project
                &&& forall|l: int|
                    i <= l < k ==> (#[trigger] v[l]).pid == own || !v[l].live_server
                        || !v[l].in_project
            },
            None => forall|l: int|
                i <= l < v.len() ==> (#[trigger] v[l]).pid == own || !v[l].live_server
                    || !v[l].in_project,
        },
    decreases v.len() - i,
{
    if i < v.len() {
        if v[i].pid != own && v[i].live_server && v[i].in_project {
            i
        } else {
            lemma_project_holder(v, own, i + 1)
        }
    } else {
        i
    }
}

// ── The environment of a process ─────────────────────────────────────
proof fn lemma_entry_there(entry: Seq<u8>, rest: Seq<u8>, i: int)
    requires
        0 <= i <= entry.len(),
        forall|k: int| 0 <= k < entry.len() ==> entry[k] != 0,
    ensures
        entry_end(entry + seq![0u8] + rest, i) == entry.len(),
    decreases entry.len() - i,
{
    let s = entry + seq![0u8] + rest;
    if i < entry.len() {
        assert(s[i] == entry[i]);
        lemma_entry_there(entry, rest, i + 1);
    } else {
        assert(s[i] == 0);
    }
}

proof fn lemma_shift_end(x: Seq<u8>, b: Seq<u8>, k: int)
    requires
        0 <= k <= b.len(),
    ensures
        entry_end(x + b, x.len() + k) == x.len() + entry_end(b, k),
        k <= entry_end(b, k) <= b.len(),
    decreases b.len() - k,
{
    if k < b.len() {
        assert((x + b)[x.len() + k] == b[k]);
        if b[k] != 0 {
            lemma_shift_end(x, b, k + 1);
        }
    }
}

proof fn lemma_shift_entries(x: Seq<u8>, b: Seq<u8>, name: Seq<u8>, k: int)
    requires
        0 <= k <= b.len(),
    ensures
        entry_values(x + b, name, x.len() + k) == entry_values(b, name, k),
    decreases b.len() - k,
{
    let s = x + b;
    lemma_shift_end(x, b, k);
    let e = entry_end(b, k);
    assert(s.subrange(x.len() + k, x.len() + e) =~= b.subrange(k, e));
    if e < b.len() {
        lemma_shift_entries(x, b, name, e + 1);
    }
}

/// An environment is read entry by entry: one that begins with the name gives
/// what follows the name, any other gives nothing, and the rest is read alike.
pub proof fn lemma_entries_in_turn(entry: Seq<u8>, rest: Seq<u8>, name: Seq<u8>, value: Seq<u8>)
    requires
        forall|k: int| 0 <= k < entry.len() ==> entry[k] != 0,
    ensures
        entry == name + value ==> entry_values(entry + seq![0u8] + rest, name, 0) == seq![value]
            + entry_values(rest, name, 0),
        !(entry.len() >= name.len() && entry.take(name.len() as int) == name) ==> entry_values(
            entry + seq![0u8] + rest,
            name,
            0,
        ) == entry_values(rest, name, 0),
{
    let s = entry + seq![0u8] + rest;
    let front = entry + seq![0u8];
    assert(front + rest =~= s);
    lemma_entry_there(entry, rest, 0);
    lemma_shift_entries(front, rest, name, 0);
    assert(s.subrange(0, entry.len() as int) =~= entry);
    if entry == name + value {
        assert(entry.take(name.len() as int) =~= name);
        assert(entry.skip(name.len() as int) =~= value);
    } else {
        assert(Seq::<Seq<u8>>::empty() + entry_values(rest, name, 0) =~= entry_values(
            rest,
            name,
            0,
        ));
    }
}

// ── Held endpoints ───────────────────────────────────────────────────
/// Those that others hold are all that this project does not hold itself, in
/// order: one more that it holds changes nothing, and any other comes last.
pub proof fn lemma_foreign_in_turn(v: Seq<HeldView>, h: HeldView)
    ensures
        foreign_of(v.push(h), v.len() as int + 1) == (if h.own {
            foreign_of(v, v.len() as int)
        } else {
            foreign_of(v, v.len() as int).push(h.conflict)
        }),
        foreign_of(v, 0) == Seq::<crate::prompt::ConflictView>::empty(),
{
    lemma_foreign_same(v, v.push(h), v.len() as int);
    assert(v.push(h)[v.len() as int] == h);
}

proof fn lemma_foreign_same(v: Seq<HeldView>, w: Seq<HeldView>, n: int)
    requires
        n <= v.len() <= w.len(),
        forall|k: int| 0 <= k < v.len() ==> v[k] == w[k],
    ensures
        foreign_of(v, n) == foreign_of(w, n),
    decreases n,
{
    if n > 0 {
        lemma_foreign_same(v, w, n - 1);
    }
}

// ── Who may do what ──────────────────────────────────────────────────
/// A process that holds the lock of an endpoint finds nobody in its way; one
/// that does not always finds somebody, and by name where the holder is known to
/// live.
pub proof fn lemma_who_is_in_the_way(attempt: LockAttempt, own: u32, pid: u32)
    ensures
        in_the_way(attempt, own) is None <==> attempt is Held || attempt is Taken,
        attempt == (LockAttempt::Refused { recorded: Some(pid), alive: true }) ==> in_the_way(
            attempt,
            own,
        ) == Some(pid),
        attempt == (LockAttempt::Refused { recorded: Some(pid), alive: false }) ==> in_the_way(
            attempt,
            own,
        ) == Some(own),
        live_owner(Some(pid), true) == Some(pid),
        live_owner(Some(pid), false) is None,
        live_owner(None, true) is None,
{
}

/// A lock is never taken away from another process that lives, nor when it names
/// another one than was expected; it is when it names a dead one that was.
pub proof fn lemma_locks_of_the_living_stay(
    recorded: Option<u32>,
    expected: u32,
    alive: bool,
    own: u32,
)
    ensures
        alive && expected != own ==> !may_steal(recorded, expected, alive, own),
        recorded != Some(expected) ==> !may_steal(recorded, expected, alive, own),
        may_steal(Some(expected), expected, false, own),
        may_steal(Some(own), own, alive, own),
        alive ==> !can_clean(expected, alive),
        expected > 0 ==> can_clean(expected, false),
{
}

/// A lock file that a process wrote is told to be its own by the name of the
/// file and its first line, and by nobody else's number.
pub proof fn lemma_left_locks_are_told(
    stem: Seq<char>,
    pid: u32,
    other: u32,
    host: Seq<char>,
    target: Seq<char>,
    machine: Seq<char>,
    time: Seq<char>,
)
    requires
        stem.len() > 0,
    ensures
        ({
            let content = lock_content_of(pid, host, target, machine, time);
            lock_left_by(stem + seq!['.'] + "lock"@, content, other) <==> other == pid
        }),
{
    reveal_strlit("lock");
    lemma_extension_is_behind(stem, "lock"@);
    crate::lock_manager::lemma_lock_names_its_writer(pid, host, target, machine, time);
}

/// Who holds a project whose lock was refused is the live server that the file
/// names; without one it is the one that the singleton check found, and without
/// that the one that was found at work.
pub proof fn lemma_refused_owner(
    recorded: Option<u32>,
    live: bool,
    singleton: Option<u32>,
    at_work: Option<u32>,
)
    ensures
        live && recorded is Some ==> Some(refused_owner(recorded, live, singleton, at_work))
            == recorded,
        !(live && recorded is Some) && singleton is Some ==> Some(
            refused_owner(recorded, live, singleton, at_work),
        ) == singleton,
        !(live && recorded is Some) && singleton is None && at_work is Some ==> Some(
            refused_owner(recorded, live, singleton, at_work),
        ) == at_work,
        !(live && recorded is Some) && singleton is None && at_work is None ==> refused_owner(
            recorded,
            live,
            singleton,
            at_work,
        ) == 0,
{
}

} // verus!

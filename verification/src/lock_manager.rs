//! The locks on serial endpoints and on a project: where they stand, what
//! they record, and who may take or remove them.
use crate::lines::{break_from, line_or_empty, lines_from, lines_of, nth_line, without_return};
use crate::number::{
    all_digits, decimal, decimal_text, is_digit, lemma_decimal_round_trip, parse_unsigned,
    unsigned,
};
use crate::path::{extension, extension_of, join_path, joined_path};
use crate::text::{
    opt_text, owned, same, space, stands_at, to_chars, trim, trim_back, trim_front, trimmed,
};
use vstd::prelude::*;
use vstd::utf8::encode_utf8;
use vstd::wrapping::u64_specs::wrapping_mul;

verus! {

// ── Where a lock stands ──────────────────────────────────────────────
/// The FNV-1a hash `h`, carried on over the bytes from `i` on.
pub open spec fn fnv_from(bytes: Seq<u8>, i: int, h: u64) -> u64
    decreases bytes.len() - i,
{
    if i < 0 || i >= bytes.len() {
        h
    } else {
        fnv_from(bytes, i + 1, wrapping_mul(h ^ (bytes[i] as u64), 0x100000001b3u64))
    }
}

/// The FNV-1a hash of 64 bits of a text, in UTF-8.
pub open spec fn fnv1a(s: Seq<char>) -> u64 {
    fnv_from(encode_utf8(s), 0, 0xcbf29ce484222325)
}

/// The FNV-1a hash of 64 bits of a text.
pub fn fnv1a_hash(input: &str) -> (r: u64)
    ensures
        r == fnv1a(input@),
{
    let bytes = input.as_bytes();
    let mut hash: u64 = 0xcbf29ce484222325;
    let mut i: usize = 0;
    while i < bytes.len()
        invariant
            i <= bytes@.len(),
            bytes@ == encode_utf8(input@),
            fnv_from(bytes@, i as int, hash) == fnv1a(input@),
        decreases bytes@.len() - i,
    {
        hash = hash ^ (bytes[i] as u64);
        hash = hash.wrapping_mul(0x100000001b3);
        i += 1;
    }
    hash
}

/// The hexadecimal digit of a number below 16.
pub open spec fn hex_char(d: nat) -> char {
    if d < 10 {
        (48 + d) as char
    } else {
        (87 + d) as char
    }
}

/// A number in hexadecimal, in small letters.
pub open spec fn hexadecimal(n: nat) -> Seq<char>
    decreases n,
{
    if n < 16 {
        seq![hex_char(n)]
    } else {
        hexadecimal(n / 16).push(hex_char(n % 16))
    }
}

/// A number in hexadecimal, in small letters.
pub fn hex_text(n: u64) -> (r: String)
    ensures
        r@ == hexadecimal(n as nat),
    decreases n,
{
    let d: u8 = (n % 16) as u8;
    let c: char = if d < 10 {
        (48u8 + d) as char
    } else {
        (87u8 + d) as char
    };
    if n < 16 {
        let mut s = String::new();
        s.push(c);
        assert(s@ =~= hexadecimal(n as nat));
        s
    } else {
        let mut s = hex_text(n / 16);
        s.push(c);
        s
    }
}

proof fn lemma_hex_len(n: nat)
    requires
        n >= 0x1000_0000,
    ensures
        hexadecimal(n).len() >= 8,
{
    reveal_with_fuel(hexadecimal, 9);
}

/// An endpoint, as it is written.
pub open spec fn endpoint(host: Seq<char>, target: Seq<char>) -> Seq<char> {
    host + ":"@ + target
}

/// Whether the hash of an endpoint has the digits that the name of its lock
/// is made of.
pub open spec fn has_lock_name(host: Seq<char>, target: Seq<char>) -> bool {
    fnv1a(endpoint(host, target)) >= 0x1000_0000
}

/// The lock of an endpoint: its name is the first eight digits of the hash.
pub open spec fn lock_path(host: Seq<char>, target: Seq<char>, lock_dir: Seq<char>) -> Seq<char> {
    joined_path(
        lock_dir,
        hexadecimal(fnv1a(endpoint(host, target)) as nat).take(8) + ".lock"@,
    )
}

fn endpoint_text(host: &str, target: &str) -> (r: String)
    ensures
        r@ == endpoint(host@, target@),
{
    let mut r = owned(host);
    r.append(":");
    r.append(target);
    r
}

/// Whether the hash of an endpoint has the digits that the name of its lock
/// is made of.
pub fn endpoint_has_lock(host: &str, target: &str) -> (r: bool)
    ensures
        r == has_lock_name(host@, target@),
{
    let e = endpoint_text(host, target);
    fnv1a_hash(e.as_str()) >= 0x1000_0000
}

/// The lock of an endpoint.
pub fn endpoint_lock_path(host: &str, target: &str, lock_dir: &str) -> (r: String)
    requires
        has_lock_name(host@, target@),
    ensures
        r@ == lock_path(host@, target@, lock_dir@),
{
    let e = endpoint_text(host, target);
    let hash = fnv1a_hash(e.as_str());
    let digits = hex_text(hash);
    proof {
        lemma_hex_len(hash as nat);
    }
    let chars = to_chars(digits.as_str());
    let mut name = crate::text::from_chars(&chars, 0, 8);
    assert(name@ =~= hexadecimal(hash as nat).take(8));
    name.append(".lock");
    join_path(lock_dir, name.as_str())
}

/// Where locks stand when nothing else is configured.
pub fn default_lock_dir() -> (r: String)
    ensures
        r@ == "/tmp/sermcp/locks"@,
{
    owned("/tmp/sermcp/locks")
}

// ── What a lock records ──────────────────────────────────────────────
/// A process number as a text.
pub open spec fn pid_of(text: Seq<char>) -> Option<u32> {
    match unsigned(trimmed(text), u32::MAX as nat) {
        Some(n) => Some(n as u32),
        None => None,
    }
}

/// The process number that a text holds, between white space.
pub fn parse_pid(text: &str) -> (r: Option<u32>)
    ensures
        r == pid_of(text@),
{
    match parse_unsigned(trim(text), u32::MAX as u64) {
        Some(n) => Some(n as u32),
        None => None,
    }
}

/// The process that a lock file names: on its first line.
pub open spec fn lock_pid_of(content: Seq<char>) -> Option<u32> {
    pid_of(line_or_empty(content, 0))
}

/// The process that a lock file names.
pub fn read_lock_pid(content: &str) -> (r: Option<u32>)
    ensures
        r == lock_pid_of(content@),
{
    let line = nth_line(content, 0);
    parse_pid(line.as_str())
}

/// What a lock file says: the process, the endpoint, the machine and the
/// time.
pub open spec fn lock_content_of(
    pid: u32,
    host: Seq<char>,
    target: Seq<char>,
    machine: Seq<char>,
    time: Seq<char>,
) -> Seq<char> {
    decimal(pid as nat) + "\n"@ + endpoint(host, target) + "\n"@ + machine + "\n"@ + time
}

/// What a lock file says.
pub fn lock_content(pid: u32, host: &str, target: &str, machine: &str, time: &str) -> (r: String)
    ensures
        r@ == lock_content_of(pid, host@, target@, machine@, time@),
{
    let mut r = decimal_text(pid as u64);
    r.append("\n");
    let e = endpoint_text(host, target);
    r.append(e.as_str());
    r.append("\n");
    r.append(machine);
    r.append("\n");
    r.append(time);
    r
}

proof fn lemma_break_at(s: Seq<char>, i: int, e: int)
    requires
        0 <= i <= e < s.len(),
        s[e] == '\n',
        forall|k: int| i <= k < e ==> s[k] != '\n',
    ensures
        break_from(s, i) == e,
    decreases e - i,
{
    if i < e {
        lemma_break_at(s, i + 1, e);
    }
}

proof fn lemma_digits_stay(s: Seq<char>)
    requires
        s.len() > 0,
        all_digits(s),
    ensures
        trimmed(s) == s,
        without_return(s) == s,
        forall|k: int| 0 <= k < s.len() ==> s[k] != '\n',
{
    assert(is_digit(s[0]));
    assert(is_digit(s.last()));
    assert(trim_front(s) == s);
    assert(trim_back(s) == s);
}

/// A process finds itself in the lock file that it wrote.
pub proof fn lemma_lock_names_its_writer(
    pid: u32,
    host: Seq<char>,
    target: Seq<char>,
    machine: Seq<char>,
    time: Seq<char>,
)
    ensures
        lock_pid_of(lock_content_of(pid, host, target, machine, time)) == Some(pid),
{
    reveal_strlit("\n");
    let d = decimal(pid as nat);
    lemma_decimal_round_trip(pid as nat);
    lemma_digits_stay(d);
    let s = lock_content_of(pid, host, target, machine, time);
    let rest = "\n"@ + endpoint(host, target) + "\n"@ + machine + "\n"@ + time;
    assert(s =~= d + rest);
    assert(s[d.len() as int] == '\n');
    assert forall|k: int| 0 <= k < d.len() implies s[k] != '\n' by {
        assert(s[k] == d[k]);
    }
    lemma_break_at(s, 0, d.len() as int);
    assert(s.subrange(0, d.len() as int) =~= d);
    assert(lines_of(s) == seq![d] + lines_from(s, d.len() as int + 1));
    assert(lines_of(s)[0] == d);
    assert(unsigned(d, u32::MAX as nat) == Some(pid as nat));
}

// ── Processes ────────────────────────────────────────────────────────
/// Where the last closing bracket of the first `n` characters stands.
pub open spec fn last_bracket(s: Seq<char>, n: int) -> Option<int>
    decreases n,
{
    if n <= 0 {
        None
    } else if s[n - 1] == ')' {
        Some(n - 1)
    } else {
        last_bracket(s, n - 1)
    }
}

/// The first character of a text that is not white space.
pub open spec fn first_solid(s: Seq<char>) -> Option<char> {
    let t = trim_front(s);
    if t.len() > 0 {
        Some(t[0])
    } else {
        None
    }
}

/// The state letter in the status of a process: the first character behind
/// its name, which stands in brackets and may hold brackets itself.
pub open spec fn state_letter(stat: Seq<char>) -> Option<char> {
    match last_bracket(stat, stat.len() as int) {
        Some(b) => first_solid(stat.skip(b + 1)),
        None => None,
    }
}

/// The state letter in the status of a process.
pub fn process_state_from_stat(stat: &str) -> (r: Option<char>)
    ensures
        r == state_letter(stat@),
{
    let s = to_chars(stat);
    let mut n: usize = s.len();
    while n > 0 && s[n - 1] != ')'
        invariant
            n <= s@.len(),
            last_bracket(s@, n as int) == last_bracket(s@, s@.len() as int),
        decreases n,
    {
        n -= 1;
    }
    if n == 0 {
        return None;
    }
    assert(last_bracket(s@, s@.len() as int) == Some(n - 1));
    let mut i: usize = n;
    while i < s.len()
        invariant
            0 < n <= i <= s@.len(),
            s@ == stat@,
            last_bracket(s@, s@.len() as int) == Some(n - 1),
            first_solid(s@.skip(i as int)) == first_solid(s@.skip(n as int)),
        decreases s@.len() - i,
    {
        let ghost t = s@.skip(i as int);
        assert(t[0] == s@[i as int]);
        if !space(s[i]) {
            return Some(s[i]);
        }
        assert(t.drop_first() =~= s@.skip(i + 1));
        i += 1;
    }
    assert(s@.skip(i as int).len() == 0);
    None
}

/// What asking for a process tells.
#[derive(Clone, Copy, Debug, PartialEq, Eq, Structural)]
pub enum SignalReply {
    /// It is there and can be signalled.
    Delivered,
    /// It is there, and belongs to someone else.
    NotPermitted,
    /// It is not there.
    NoProcess,
}

/// Whether a process is alive, given what asking for it told and its status,
/// where that can be read: one that has exited and was not reaped is not.
pub open spec fn alive_of(reply: SignalReply, stat: Option<Seq<char>>) -> bool {
    match reply {
        SignalReply::NoProcess => false,
        SignalReply::NotPermitted => true,
        SignalReply::Delivered => match stat {
            Some(s) => state_letter(s) != Some('Z'),
            None => true,
        },
    }
}

/// Whether a process is alive.
pub fn process_alive(reply: SignalReply, stat: &Option<String>) -> (r: bool)
    ensures
        r == alive_of(reply, opt_text(*stat)),
{
    match reply {
        SignalReply::NoProcess => false,
        SignalReply::NotPermitted => true,
        SignalReply::Delivered => match stat {
            Some(s) => match process_state_from_stat(s.as_str()) {
                Some(c) => c != 'Z',
                None => true,
            },
            None => true,
        },
    }
}

/// Whether a text holds another one.
pub open spec fn holds_text(s: Seq<char>, part: Seq<char>) -> bool {
    exists|i: int| 0 <= i && #[trigger] stands_at(s, part, i)
}

/// Whether a text holds another one.
pub fn holds(text: &str, part: &str) -> (r: bool)
    ensures
        r == holds_text(text@, part@),
{
    let s = to_chars(text);
    let p = to_chars(part);
    if p.len() > s.len() {
        return false;
    }
    let n: usize = s.len();
    let last: usize = n - p.len();
    let mut i: usize = 0;
    loop
        invariant
            i <= last,
            n == s@.len(),
            last == n - p@.len(),
            s@ == text@,
            p@ == part@,
            forall|k: int| 0 <= k < i ==> !#[trigger] stands_at(s@, p@, k),
        decreases last - i,
    {
        let mut k: usize = 0;
        while k < p.len() && s[i + k] == p[k]
            invariant
                i <= last,
                n == s@.len(),
                last == n - p@.len(),
                k <= p@.len(),
                forall|j: int| 0 <= j < k ==> s@[i + j] == p@[j],
            decreases p@.len() - k,
        {
            k += 1;
        }
        if k == p.len() {
            assert(s@.subrange(i as int, i + p@.len()) =~= p@);
            assert(stands_at(s@, p@, i as int));
            return true;
        }
        assert(!stands_at(s@, p@, i as int)) by {
            if stands_at(s@, p@, i as int) {
                assert(s@.subrange(i as int, i + p@.len())[k as int] == s@[i + k]);
            }
        }
        if i == last {
            return false;
        }
        i += 1;
    }
}

/// Whether the process with this name, if it has one, is a live server.
pub fn is_live_server_holder(alive: bool, comm: &Option<String>) -> (r: bool)
    ensures
        r == (alive && match opt_text(*comm) {
            Some(c) => holds_text(c, "sermcp"@),
            None => false,
        }),
{
    if !alive {
        return false;
    }
    match comm {
        Some(c) => holds(c.as_str(), "sermcp"),
        None => false,
    }
}

// ── Endpoint locks ───────────────────────────────────────────────────
/// How far a process came with the lock of an endpoint.
#[derive(Clone, Copy, Debug, PartialEq, Eq, Structural)]
pub enum LockAttempt {
    /// It holds the lock already.
    Held,
    /// The file cannot be opened.
    Unopened,
    /// The lock was free, and now it is taken.
    Taken,
    /// Another process holds the lock: the one that the file names, and
    /// whether that one is alive.
    Refused { recorded: Option<u32>, alive: bool },
}

/// Who is in the way of a process that wants the lock of an endpoint.
pub open spec fn in_the_way(attempt: LockAttempt, own: u32) -> Option<u32> {
    match attempt {
        LockAttempt::Held => None,
        LockAttempt::Taken => None,
        LockAttempt::Unopened => Some(own),
        LockAttempt::Refused { recorded, alive } => match recorded {
            Some(pid) => if alive {
                Some(pid)
            } else {
                Some(own)
            },
            None => Some(own),
        },
    }
}

/// Who is in the way of a process that wants the lock of an endpoint, given
/// how far it came. A holder that cannot be named goes by the own number.
pub fn lock_conflict(attempt: LockAttempt, own: u32) -> (r: Option<u32>)
    ensures
        r == in_the_way(attempt, own),
        r == (match attempt {
            LockAttempt::Held => None,
            LockAttempt::Taken => None,
            LockAttempt::Unopened => Some(own),
            LockAttempt::Refused { recorded, alive } => match recorded {
                Some(pid) => if alive {
                    Some(pid)
                } else {
                    Some(own)
                },
                None => Some(own),
            },
        }),
{
    match attempt {
        LockAttempt::Held => None,
        LockAttempt::Taken => None,
        LockAttempt::Unopened => Some(own),
        LockAttempt::Refused { recorded, alive } => match recorded {
            Some(pid) => if alive {
                Some(pid)
            } else {
                Some(own)
            },
            None => Some(own),
        },
    }
}

/// The live process that a lock file names.
pub open spec fn live_owner(recorded: Option<u32>, alive: bool) -> Option<u32> {
    if alive {
        recorded
    } else {
        None
    }
}

/// The live process that a lock file names, given whether it is alive.
pub fn endpoint_lock_owner(recorded: Option<u32>, alive: bool) -> (r: Option<u32>)
    ensures
        r == live_owner(recorded, alive),
        r == (if alive {
            recorded
        } else {
            None
        }),
{
    if alive {
        recorded
    } else {
        None
    }
}

/// Whether a lock may be taken away from the process that was expected to
/// hold it.
pub open spec fn may_steal(
    recorded: Option<u32>,
    expected_owner: u32,
    alive: bool,
    own: u32,
) -> bool {
    recorded == Some(expected_owner) && (!alive || expected_owner == own)
}

/// Whether a lock may be taken away from the process that was expected to
/// hold it: it still has to name that process, which has to be dead or the
/// asking one.
pub fn steal_lock(recorded: Option<u32>, expected_owner: u32, alive: bool, own: u32) -> (r: bool)
    ensures
        r == may_steal(recorded, expected_owner, alive, own),
        r == (recorded == Some(expected_owner) && (!alive || expected_owner == own)),
{
    match recorded {
        Some(pid) => pid == expected_owner && (!alive || expected_owner == own),
        None => false,
    }
}

/// Whether the locks of a process may be cleaned up.
pub open spec fn can_clean(pid: u32, alive: bool) -> bool {
    pid != 0 && !alive
}

/// Whether the locks of a process may be cleaned up: it has to be dead.
pub fn may_clean_locks(pid: u32, alive: bool) -> (r: bool)
    ensures
        r == can_clean(pid, alive),
        r == (pid != 0 && !alive),
{
    pid != 0 && !alive
}

/// Whether a file is a lock that a process left behind.
pub open spec fn lock_left_by(name: Seq<char>, content: Seq<char>, pid: u32) -> bool {
    extension_of(name) == Some("lock"@) && lock_pid_of(content) == Some(pid)
}

/// Whether a file is a lock that a process left behind.
pub fn is_lock_of(name: &str, content: &str, pid: u32) -> (r: bool)
    ensures
        r == lock_left_by(name@, content@, pid),
        r == (extension_of(name@) == Some("lock"@) && lock_pid_of(content@) == Some(pid)),
{
    let locked = match extension(name) {
        Some(e) => same(e.as_str(), "lock"),
        None => false,
    };
    if !locked {
        return false;
    }
    match read_lock_pid(content) {
        Some(p) => p == pid,
        None => false,
    }
}

// ── The lock of a project ────────────────────────────────────────────
/// A process that may hold a project: its number, and whether it is a live
/// server and works in the project.
#[derive(Clone, Copy, Debug, PartialEq, Eq, Structural)]
pub struct Candidate {
    pub pid: u32,
    pub live_server: bool,
    pub in_project: bool,
}

/// Whether a candidate holds the project against the process `own`.
pub open spec fn holds_project(c: Candidate, own: u32) -> bool {
    c.pid != own && c.live_server && c.in_project
}

/// The first candidate from `i` on that holds the project.
pub open spec fn holder_from(v: Seq<Candidate>, own: u32, i: int) -> Option<u32>
    decreases v.len() - i,
{
    if i < 0 || i >= v.len() {
        None
    } else if holds_project(v[i], own) {
        Some(v[i].pid)
    } else {
        holder_from(v, own, i + 1)
    }
}

/// The first candidate that holds the project against the process `own`.
pub fn find_project_holder(candidates: &Vec<Candidate>, own: u32) -> (r: Option<u32>)
    ensures
        r == holder_from(candidates@, own, 0),
{
    let mut i: usize = 0;
    while i < candidates.len()
        invariant
            i <= candidates@.len(),
            holder_from(candidates@, own, i as int) == holder_from(candidates@, own, 0),
        decreases candidates@.len() - i,
    {
        let c = candidates[i];
        if c.pid != own && c.live_server && c.in_project {
            return Some(c.pid);
        }
        i += 1;
    }
    None
}

/// Who holds a project whose lock was refused.
pub open spec fn refused_owner(
    recorded: Option<u32>,
    recorded_live: bool,
    singleton: Option<u32>,
    at_work: Option<u32>,
) -> u32 {
    match (recorded, recorded_live, singleton, at_work) {
        (Some(p), true, _, _) => p,
        (_, _, Some(p), _) => p,
        (_, _, None, Some(p)) => p,
        (_, _, None, None) => 0,
    }
}

/// Who holds a project whose lock was refused: the process that its file
/// names and that is a live server, else the one that the singleton check
/// found, else the one that was found at work in the project, else nobody
/// known.
pub fn refused_project_owner(
    recorded: Option<u32>,
    recorded_live: bool,
    singleton: Option<u32>,
    at_work: Option<u32>,
) -> (r: u32)
    ensures
        r == refused_owner(recorded, recorded_live, singleton, at_work),
        r == (match (recorded, recorded_live, singleton, at_work) {
            (Some(p), true, _, _) => p,
            (_, _, Some(p), _) => p,
            (_, _, None, Some(p)) => p,
            (_, _, None, None) => 0,
        }),
{
    if recorded_live {
        if let Some(p) = recorded {
            return p;
        }
    }
    if let Some(p) = singleton {
        return p;
    }
    match at_work {
        Some(p) => p,
        None => 0,
    }
}

/// Whether the process that the singleton file of a project names holds it.
/// Where it does not, the file is stale.
pub fn check_project_singleton(recorded: Option<u32>, live_server: bool, in_project: bool) -> (r:
    Option<u32>)
    ensures
        r == (if live_server && in_project {
            recorded
        } else {
            None
        }),
{
    if live_server && in_project {
        recorded
    } else {
        None
    }
}

/// The number of another process that may be a server, given the name of its
/// directory and its own name.
pub fn other_server(dir_name: &str, comm: &str, own: u32) -> (r: Option<u32>)
    ensures
        r == (match unsigned(dir_name@, u32::MAX as nat) {
            Some(n) => if n != own && holds_text(comm@, "sermcp"@) {
                Some(n as u32)
            } else {
                None
            },
            None => None,
        }),
{
    match parse_unsigned(dir_name, u32::MAX as u64) {
        Some(n) => {
            let pid: u32 = n as u32;
            if pid != own && holds(comm, "sermcp") {
                Some(pid)
            } else {
                None
            }
        },
        None => None,
    }
}

/// What a process has in its environment under a name: the bytes behind
/// `name=`, if an entry begins with them.
pub open spec fn entry_value(entry: Seq<u8>, name: Seq<u8>) -> Option<Seq<u8>> {
    if entry.len() >= name.len() && entry.take(name.len() as int) == name {
        Some(entry.skip(name.len() as int))
    } else {
        None
    }
}

/// Where the entry that goes on at `i` ends.
pub open spec fn entry_end(s: Seq<u8>, i: int) -> int
    decreases s.len() - i,
{
    if i < 0 || i >= s.len() || s[i] == 0 {
        i
    } else {
        entry_end(s, i + 1)
    }
}

proof fn lemma_entry_end(s: Seq<u8>, i: int)
    requires
        0 <= i <= s.len(),
    ensures
        i <= entry_end(s, i) <= s.len(),
    decreases s.len() - i,
{
    if i < s.len() && s[i] != 0 {
        lemma_entry_end(s, i + 1);
    }
}

/// The values under a name in the environment from `i` on, in order.
pub open spec fn entry_values(s: Seq<u8>, name: Seq<u8>, i: int) -> Seq<Seq<u8>>
    decreases s.len() - i,
{
    let e = entry_end(s, i);
    if i < 0 || i > s.len() || e < i || e > s.len() {
        Seq::empty()
    } else {
        let one = match entry_value(s.subrange(i, e), name) {
            Some(v) => seq![v],
            None => Seq::empty(),
        };
        if e >= s.len() {
            one
        } else {
            one + entry_values(s, name, e + 1)
        }
    }
}

/// The meaning of a list of byte strings.
pub open spec fn byte_strings(v: Seq<Vec<u8>>) -> Seq<Seq<u8>> {
    Seq::new(v.len(), |i: int| v[i]@)
}

fn copy_bytes(s: &[u8], from: usize, to: usize) -> (r: Vec<u8>)
    requires
        from <= to <= s@.len(),
    ensures
        r@ == s@.subrange(from as int, to as int),
{
    let mut r: Vec<u8> = Vec::new();
    let mut i: usize = from;
    while i < to
        invariant
            from <= i <= to <= s@.len(),
            r@ == s@.subrange(from as int, i as int),
        decreases to - i,
    {
        r.push(s[i]);
        i += 1;
        assert(r@ =~= s@.subrange(from as int, i as int));
    }
    r
}

/// The values under a name in an environment, in order. `name` ends with the
/// equals sign.
pub fn environment_values(environ: &[u8], name: &[u8]) -> (r: Vec<Vec<u8>>)
    ensures
        byte_strings(r@) == entry_values(environ@, name@, 0),
{
    let mut out: Vec<Vec<u8>> = Vec::new();
    let mut i: usize = 0;
    assert(byte_strings(out@) + entry_values(environ@, name@, 0) =~= entry_values(
        environ@,
        name@,
        0,
    ));
    loop
        invariant
            i <= environ@.len(),
            byte_strings(out@) + entry_values(environ@, name@, i as int) == entry_values(
                environ@,
                name@,
                0,
            ),
        decreases environ@.len() - i,
    {
        proof {
            lemma_entry_end(environ@, i as int);
        }
        let mut e: usize = i;
        while e < environ.len() && environ[e] != 0
            invariant
                i <= e <= environ@.len(),
                entry_end(environ@, e as int) == entry_end(environ@, i as int),
            decreases environ@.len() - e,
        {
            e += 1;
        }
        assert(entry_end(environ@, i as int) == e);
        let ghost entry = environ@.subrange(i as int, e as int);
        let mut k: usize = 0;
        while k < name.len() && k < e - i && environ[i + k] == name[k]
            invariant
                i <= e <= environ@.len(),
                k <= name@.len(),
                k <= e - i,
                forall|j: int| 0 <= j < k ==> environ@[i + j] == name@[j],
            decreases name@.len() - k,
        {
            k += 1;
        }
        let ghost before = byte_strings(out@);
        if k == name.len() {
            assert(entry.take(name@.len() as int) =~= name@);
            let v = copy_bytes(environ, i + k, e);
            assert(v@ =~= entry.skip(name@.len() as int));
            out.push(v);
            assert(byte_strings(out@) =~= before + seq![v@]);
        } else {
            assert(entry_value(entry, name@) is None) by {
                if entry.len() >= name@.len() && entry.take(name@.len() as int) == name@ {
                    assert(entry.take(name@.len() as int)[k as int] == environ@[i + k]);
                }
            }
            assert(byte_strings(out@) =~= before + Seq::<Seq<u8>>::empty());
        }
        if e >= environ.len() {
            assert(byte_strings(out@) =~= entry_values(environ@, name@, 0));
            return out;
        }
        assert(byte_strings(out@) + entry_values(environ@, name@, e + 1) =~= before
            + entry_values(environ@, name@, i as int));
        i = e + 1;
    }
}

} // verus!

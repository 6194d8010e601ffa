//! The temporary files that a file is written to before it takes its place,
//! and which of them were left behind; and the renames of the server's log.
use crate::number::{
    all_digits, decimal, decimal_text, is_digit, lemma_decimal_round_trip, parse_unsigned,
    unsigned,
};
use crate::text::{from_chars, owned, to_chars};
use vstd::prelude::*;

verus! {

/// A counter for the names of temporary files.
#[derive(Debug)]
pub struct TmpSequence {
    pub next: u64,
}

impl TmpSequence {
    /// The counter at its beginning.
    pub fn new() -> (r: Self)
        ensures
            r.next == 0,
    {
        TmpSequence { next: 0 }
    }

    /// The next number. Behind the last one the count begins again.
    pub fn tmp_sequence(&mut self) -> (r: u64)
        ensures
            r == old(self).next,
            final(self).next == (if r == u64::MAX {
                0
            } else {
                (r + 1) as u64
            }),
            final(self).next != r,
    {
        let r = self.next;
        self.next = if r == u64::MAX {
            0
        } else {
            r + 1
        };
        r
    }
}

/// What temporary files of the inventory are called.
pub const INVENTORY_TMP: &'static str = ".inventory.json.tmp-";

/// What temporary files of the owner's record are called.
pub const OWNER_TMP: &'static str = ".owner.json.tmp-";

/// The name of a temporary file: what it is for, who writes it, and which of
/// the writer's files it is.
pub open spec fn tmp_name_of(front: Seq<char>, pid: u32, n: u64) -> Seq<char> {
    front + decimal(pid as nat) + "-"@ + decimal(n as nat)
}

/// The name of a temporary file.
pub fn tmp_name(front: &str, pid: u32, n: u64) -> (r: String)
    ensures
        r@ == tmp_name_of(front@, pid, n),
{
    let mut r = owned(front);
    let p = decimal_text(pid as u64);
    r.append(p.as_str());
    r.append("-");
    let k = decimal_text(n);
    r.append(k.as_str());
    r
}

/// Who writes a file, as its name tells.
#[derive(Clone, Copy, Debug, PartialEq, Eq, Structural)]
pub enum TmpFile {
    /// It is no temporary file.
    Other,
    /// A temporary file that no live process can be writing.
    Nobody,
    /// A temporary file of a process.
    Process(u32),
}

/// Where the first dash at or after `i` stands.
pub open spec fn dash_from(s: Seq<char>, i: int) -> Option<int>
    decreases s.len() - i,
{
    if i < 0 || i >= s.len() {
        None
    } else if s[i] == '-' {
        Some(i)
    } else {
        dash_from(s, i + 1)
    }
}

/// Who writes a temporary file, from what stands behind the front of its
/// name: a process number, a dash, and more.
pub open spec fn writer_of(rest: Seq<char>) -> TmpFile {
    match dash_from(rest, 0) {
        Some(d) => match unsigned(rest.take(d), u32::MAX as nat) {
            Some(n) => TmpFile::Process(n as u32),
            None => TmpFile::Nobody,
        },
        None => TmpFile::Nobody,
    }
}

/// Whether a text begins with another one.
pub open spec fn begins(s: Seq<char>, front: Seq<char>) -> bool {
    s.len() >= front.len() && s.take(front.len() as int) == front
}

/// Who writes a file, as its name tells.
pub open spec fn tmp_file(name: Seq<char>) -> TmpFile {
    if begins(name, INVENTORY_TMP@) {
        writer_of(name.skip(INVENTORY_TMP@.len() as int))
    } else if begins(name, OWNER_TMP@) {
        writer_of(name.skip(OWNER_TMP@.len() as int))
    } else {
        TmpFile::Other
    }
}

fn without_front(name: &str, front: &str) -> (r: Option<String>)
    ensures
        match r {
            Some(rest) => begins(name@, front@) && rest@ == name@.skip(front@.len() as int),
            None => !begins(name@, front@),
        },
{
    let s = to_chars(name);
    let f = to_chars(front);
    if s.len() < f.len() {
        return None;
    }
    let mut k: usize = 0;
    while k < f.len() && s[k] == f[k]
        invariant
            k <= f@.len() <= s@.len(),
            forall|j: int| 0 <= j < k ==> s@[j] == f@[j],
        decreases f@.len() - k,
    {
        k += 1;
    }
    if k < f.len() {
        assert(s@.take(f@.len() as int)[k as int] != f@[k as int]);
        return None;
    }
    assert(s@.take(f@.len() as int) =~= f@);
    let rest = from_chars(&s, k, s.len());
    assert(rest@ =~= name@.skip(front@.len() as int));
    Some(rest)
}

fn find_writer(rest: &str) -> (r: TmpFile)
    ensures
        r == writer_of(rest@),
{
    let s = to_chars(rest);
    let mut d: usize = 0;
    while d < s.len() && s[d] != '-'
        invariant
            d <= s@.len(),
            dash_from(s@, d as int) == dash_from(s@, 0),
        decreases s@.len() - d,
    {
        d += 1;
    }
    if d == s.len() {
        return TmpFile::Nobody;
    }
    let pid = from_chars(&s, 0, d);
    assert(pid@ =~= rest@.take(d as int));
    match parse_unsigned(pid.as_str(), u32::MAX as u64) {
        Some(n) => TmpFile::Process(n as u32),
        None => TmpFile::Nobody,
    }
}

/// Who writes a file, as its name tells.
pub fn tmp_file_of(name: &str) -> (r: TmpFile)
    ensures
        r == tmp_file(name@),
{
    if let Some(rest) = without_front(name, INVENTORY_TMP) {
        return find_writer(rest.as_str());
    }
    if let Some(rest) = without_front(name, OWNER_TMP) {
        return find_writer(rest.as_str());
    }
    TmpFile::Other
}

/// Whether a file is removed when the server starts, given whether the
/// process that writes it is alive.
pub fn is_left_behind(file: TmpFile, alive: bool) -> (r: bool)
    ensures
        r == (match file {
            TmpFile::Other => false,
            TmpFile::Nobody => true,
            TmpFile::Process(_) => !alive,
        }),
{
    match file {
        TmpFile::Other => false,
        TmpFile::Nobody => true,
        TmpFile::Process(_) => !alive,
    }
}

proof fn lemma_dash_behind_digits(d: Seq<char>, rest: Seq<char>, i: int)
    requires
        all_digits(d),
        0 <= i <= d.len(),
    ensures
        dash_from(d + "-"@ + rest, i) == Some(d.len() as int),
    decreases d.len() - i,
{
    reveal_strlit("-");
    let s = d + "-"@ + rest;
    if i < d.len() {
        assert(s[i] == d[i]);
        assert(is_digit(d[i]));
        lemma_dash_behind_digits(d, rest, i + 1);
    } else {
        assert(s[i] == "-"@[0]);
    }
}

/// The writer of a temporary file is told from its name, so that the files of
/// a live process are not removed.
pub proof fn lemma_writer_is_told(pid: u32, n: u64)
    ensures
        tmp_file(tmp_name_of(INVENTORY_TMP@, pid, n)) == TmpFile::Process(pid),
        tmp_file(tmp_name_of(OWNER_TMP@, pid, n)) == TmpFile::Process(pid),
{
    reveal_strlit(".inventory.json.tmp-");
    reveal_strlit(".owner.json.tmp-");
    let d = decimal(pid as nat);
    let rest = d + "-"@ + decimal(n as nat);
    lemma_decimal_round_trip(pid as nat);
    lemma_dash_behind_digits(d, decimal(n as nat), 0);
    assert(rest.take(d.len() as int) =~= d);
    assert(writer_of(rest) == TmpFile::Process(pid));
    let a = tmp_name_of(INVENTORY_TMP@, pid, n);
    assert(a =~= INVENTORY_TMP@ + rest);
    assert(a.take(INVENTORY_TMP@.len() as int) =~= INVENTORY_TMP@);
    assert(a.skip(INVENTORY_TMP@.len() as int) =~= rest);
    let b = tmp_name_of(OWNER_TMP@, pid, n);
    assert(b =~= OWNER_TMP@ + rest);
    assert(b.take(OWNER_TMP@.len() as int) =~= OWNER_TMP@);
    assert(b.skip(OWNER_TMP@.len() as int) =~= rest);
    assert(!begins(b, INVENTORY_TMP@)) by {
        if begins(b, INVENTORY_TMP@) {
            assert(b.take(INVENTORY_TMP@.len() as int)[1] == 'i');
            assert(b[1] == 'o');
        }
    }
}

// ── The server's log ─────────────────────────────────────────────────
/// How large the server's log may become, in bytes.
pub const MAX_LOG_BYTES: u64 = 10_485_760;

/// The renames that make room for a new log, in order: the fourth becomes the
/// fifth, and so on, and the log becomes the first.
pub open spec fn log_renames() -> Seq<(Seq<char>, Seq<char>)> {
    seq![
        ("mcp.log.4"@, "mcp.log.5"@),
        ("mcp.log.3"@, "mcp.log.4"@),
        ("mcp.log.2"@, "mcp.log.3"@),
        ("mcp.log.1"@, "mcp.log.2"@),
        ("mcp.log"@, "mcp.log.1"@),
    ]
}

/// The meaning of a list of renames.
pub open spec fn renames_view(v: Seq<(&'static str, &'static str)>) -> Seq<(Seq<char>, Seq<char>)> {
    Seq::new(v.len(), |i: int| (v[i].0@, v[i].1@))
}

/// The renames that the server's log needs, given its size.
pub fn rotate_mcp_log(size: u64) -> (r: Vec<(&'static str, &'static str)>)
    ensures
        renames_view(r@) == (if size > MAX_LOG_BYTES {
            log_renames()
        } else {
            Seq::empty()
        }),
{
    let mut r: Vec<(&'static str, &'static str)> = Vec::new();
    if size > MAX_LOG_BYTES {
        r.push(("mcp.log.4", "mcp.log.5"));
        r.push(("mcp.log.3", "mcp.log.4"));
        r.push(("mcp.log.2", "mcp.log.3"));
        r.push(("mcp.log.1", "mcp.log.2"));
        r.push(("mcp.log", "mcp.log.1"));
        assert(renames_view(r@) =~= log_renames());
    } else {
        assert(renames_view(r@) =~= Seq::empty());
    }
    r
}

} // verus!

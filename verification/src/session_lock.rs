//! The lock that ties a project to the session that works in it.
use crate::lock_manager::hex_char;
use crate::number::{decimal, decimal_text};
use crate::text::{opt_text, owned, trim, trimmed};
use vstd::prelude::*;
use vstd::utf8::encode_utf8;

verus! {

/// The MD5 digest of some bytes.
pub uninterp spec fn md5_digest(data: Seq<u8>) -> Seq<u8>;

/// `md5::Md5::digest`: the digest, which has sixteen bytes and which the
/// bytes alone determine. What it is, is not stated.
#[verifier::external_body]
fn md5_of(data: &[u8]) -> (r: Vec<u8>)
    ensures
        r@ == md5_digest(data@),
        r@.len() == 16,
{
    <md5::Md5 as md5::Digest>::digest(data).to_vec()
}

/// The two hexadecimal digits of a byte.
pub open spec fn hex_pair(b: u8) -> Seq<char> {
    seq![hex_char((b / 16) as nat), hex_char((b % 16) as nat)]
}

/// The hexadecimal digits of the first `n` bytes.
pub open spec fn hex_of(bytes: Seq<u8>, n: int) -> Seq<char>
    decreases n,
{
    if n <= 0 {
        Seq::empty()
    } else {
        hex_of(bytes, n - 1) + hex_pair(bytes[n - 1])
    }
}

fn hex_digit(d: u8) -> (r: char)
    requires
        d < 16,
    ensures
        r == hex_char(d as nat),
{
    if d < 10 {
        (48u8 + d) as char
    } else {
        (87u8 + d) as char
    }
}

/// The name of the lock that a client takes for a project whose path has this
/// digest: the client's name and eight digits of the digest.
pub open spec fn lock_name(client: Seq<char>, digest: Seq<u8>) -> Seq<char> {
    "/dev/shm/"@ + client + "-serial-"@ + hex_of(digest, 4) + ".lock"@
}

/// The lock that a client takes for a project whose path has this digest.
pub fn session_lock_for(client: &str, digest: &Vec<u8>) -> (r: String)
    requires
        digest@.len() >= 4,
    ensures
        r@ == lock_name(client@, digest@),
{
    let ghost front = "/dev/shm/"@ + client@ + "-serial-"@;
    let mut r = owned("/dev/shm/");
    r.append(client);
    r.append("-serial-");
    let mut i: usize = 0;
    assert(r@ =~= front + hex_of(digest@, 0));
    while i < 4
        invariant
            i <= 4,
            digest@.len() >= 4,
            r@ == front + hex_of(digest@, i as int),
        decreases 4 - i,
    {
        let b = digest[i];
        r.push(hex_digit(b / 16));
        r.push(hex_digit(b % 16));
        i += 1;
        assert(r@ =~= front + hex_of(digest@, i as int));
    }
    r.append(".lock");
    r
}

/// The lock that a client takes for a project.
pub fn session_lock_path_for(client: &str, project_dir: &str) -> (r: String)
    ensures
        r@ == lock_name(client@, md5_digest(encode_utf8(project_dir@))),
{
    let digest = md5_of(project_dir.as_bytes());
    session_lock_for(client, &digest)
}

/// The session that a process works for: what the first variable says, or the
/// second where there is no first; `-` where nothing is said.
pub open spec fn session_of(first: Option<Seq<char>>, second: Option<Seq<char>>) -> Seq<char> {
    let said = if first is Some {
        first
    } else {
        second
    };
    match said {
        Some(s) => if trimmed(s).len() == 0 {
            "-"@
        } else {
            s
        },
        None => "-"@,
    }
}

/// The session that a process works for.
pub fn session_id(first: &Option<String>, second: &Option<String>) -> (r: String)
    ensures
        r@ == session_of(opt_text(*first), opt_text(*second)),
{
    let said = if first.is_some() {
        first
    } else {
        second
    };
    match said {
        Some(s) => if trim(s.as_str()).unicode_len() == 0 {
            owned("-")
        } else {
            owned(s.as_str())
        },
        None => owned("-"),
    }
}

/// What the lock says: the project, the process, the session and the time.
pub open spec fn session_lock_text(
    project_dir: Seq<char>,
    pid: u32,
    session: Seq<char>,
    now: u64,
) -> Seq<char> {
    project_dir + "\n"@ + decimal(pid as nat) + "\n"@ + session + "\n"@ + decimal(now as nat)
        + "\n"@
}

/// What the lock says: the project, the process, the session and the time.
pub fn session_lock_content(project_dir: &str, pid: u32, session: &str, now: u64) -> (r: String)
    ensures
        r@ == session_lock_text(project_dir@, pid, session@, now),
        r@ == project_dir@ + "\n"@ + decimal(pid as nat) + "\n"@ + session@ + "\n"@ + decimal(
            now as nat,
        ) + "\n"@,
{
    let mut r = owned(project_dir);
    r.append("\n");
    let p = decimal_text(pid as u64);
    r.append(p.as_str());
    r.append("\n");
    r.append(session);
    r.append("\n");
    let t = decimal_text(now);
    r.append(t.as_str());
    r.append("\n");
    r
}

} // verus!

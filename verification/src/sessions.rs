//! What the lock of a client's session is called and what it says.
use crate::jsonc::hex_char;
use crate::line_texts::{lemma_session_lines, unbroken};
use crate::lines::{line_or_empty, lines_of};
use crate::lock_names::{all_hex, hex_digit};
use crate::number::decimal;
use crate::session_lock::{hex_of, lock_name, session_lock_text, session_of};
use crate::text::trimmed;
use vstd::prelude::*;

verus! {

proof fn lemma_hex_bytes(bytes: Seq<u8>, n: int)
    requires
        0 <= n <= bytes.len(),
    ensures
        hex_of(bytes, n).len() == 2 * n,
        all_hex(hex_of(bytes, n)),
        forall|k: int|
            #![trigger bytes[k]]
            0 <= k < n ==> hex_digit(hex_of(bytes, n)[2 * k]) * 16 + hex_digit(
                hex_of(bytes, n)[2 * k + 1],
            ) == bytes[k],
    decreases n,
{
    assert forall|d: nat| d < 16 implies hex_digit(#[trigger] hex_char(d)) == d by {}
    if n > 0 {
        lemma_hex_bytes(bytes, n - 1);
        let before = hex_of(bytes, n - 1);
        let b = bytes[n - 1];
        let all = hex_of(bytes, n);
        let hi = (b / 16) as nat;
        let lo = (b % 16) as nat;
        assert(hi < 16 && lo < 16 && hi * 16 + lo == b);
        assert(all =~= before.push(hex_char(hi)).push(hex_char(lo)));
        assert(hex_digit(hex_char(hi)) == hi);
        assert(hex_digit(hex_char(lo)) == lo);
        assert forall|i: int| 0 <= i < all.len() implies 0 <= hex_digit(#[trigger] all[i]) < 16 by {
            if i < before.len() {
                assert(all[i] == before[i]);
            }
        }
        assert forall|k: int|
            #![trigger bytes[k]]
            0 <= k < n implies hex_digit(all[2 * k]) * 16 + hex_digit(all[2 * k + 1])
            == bytes[k] by {
            if k < n - 1 {
                assert(all[2 * k] == before[2 * k]);
                assert(all[2 * k + 1] == before[2 * k + 1]);
            }
        }
    }
}

/// The name of a session's lock holds the client's name and the first four bytes
/// of the digest, two hexadecimal digits to a byte.
pub proof fn lemma_session_lock_name(client: Seq<char>, digest: Seq<u8>) -> (digits: Seq<char>)
    requires
        digest.len() >= 4,
    ensures
        digits.len() == 8,
        all_hex(digits),
        forall|k: int|
            #![trigger digest[k]]
            0 <= k < 4 ==> hex_digit(digits[2 * k]) * 16 + hex_digit(digits[2 * k + 1])
                == digest[k],
        lock_name(client, digest) == "/dev/shm/"@ + client + "-serial-"@ + digits + ".lock"@,
{
    lemma_hex_bytes(digest, 4);
    hex_of(digest, 4)
}

/// Two projects whose digests differ in the first four bytes have different
/// locks, and so have two clients of one project.
pub proof fn lemma_session_locks_differ(
    client: Seq<char>,
    other: Seq<char>,
    digest: Seq<u8>,
    second: Seq<u8>,
    k: int,
)
    requires
        digest.len() >= 4,
        second.len() >= 4,
        0 <= k < 4,
        digest[k] != second[k],
    ensures
        lock_name(client, digest) != lock_name(client, second),
        client != other ==> lock_name(client, digest) != lock_name(other, digest),
{
    let a = lemma_session_lock_name(client, digest);
    let b = lemma_session_lock_name(client, second);
    let c = lemma_session_lock_name(other, digest);
    let front = "/dev/shm/"@ + client + "-serial-"@;
    let x = lock_name(client, digest);
    let y = lock_name(client, second);
    let z = lock_name(other, digest);
    let n = front.len() as int;
    if x == y {
        assert(x.subrange(n, n + 8) =~= a);
        assert(y.subrange(n, n + 8) =~= b);
        assert(a[2 * k] == b[2 * k] && a[2 * k + 1] == b[2 * k + 1]);
        assert(digest[k] == second[k]);
    }
    if client != other && x == z {
        let m = "/dev/shm/"@.len() as int;
        assert(x.len() == z.len());
        assert(client.len() == other.len());
        assert(x.subrange(m, m + client.len()) =~= client);
        assert(z.subrange(m, m + client.len()) =~= other);
    }
}

/// The session is what the first variable says, and what the second says where
/// the first is not set. A variable that is set to nothing but spaces, or none
/// at all, gives a dash.
pub proof fn lemma_session_is_said(said: Seq<char>, second: Option<Seq<char>>)
    ensures
        trimmed(said).len() > 0 ==> session_of(Some(said), second) == said,
        trimmed(said).len() > 0 ==> session_of(None, Some(said)) == said,
        trimmed(said).len() == 0 ==> session_of(Some(said), second) == seq!['-'],
        trimmed(said).len() == 0 ==> session_of(None, Some(said)) == seq!['-'],
        session_of(None, None) == seq!['-'],
{
    reveal_strlit("-");
    assert("-"@ =~= seq!['-']);
}

/// The lines of what a session's lock says are the project, the process, the
/// session and the time, in this order.
pub proof fn lemma_session_lock_reads(
    project_dir: Seq<char>,
    pid: u32,
    session: Seq<char>,
    now: u64,
)
    requires
        unbroken(project_dir),
        unbroken(session),
        project_dir.len() > 0 ==> project_dir.last() != '\r',
        session.len() > 0 ==> session.last() != '\r',
    ensures
        ({
            let content = session_lock_text(project_dir, pid, session, now);
            &&& line_or_empty(content, 0) == project_dir
            &&& line_or_empty(content, 1) == decimal(pid as nat)
            &&& line_or_empty(content, 2) == session
            &&& line_or_empty(content, 3) == decimal(now as nat)
            &&& lines_of(content).len() == 4
        }),
{
    lemma_session_lines(
        project_dir,
        pid,
        session,
        now,
        session_lock_text(project_dir, pid, session, now),
    );
}

} // verus!

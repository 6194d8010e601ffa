//! What replies to questions are taken for, and which endpoints answers name.
use crate::advanced::{literal_of, EmptyMeans};
use crate::answers::HostAnswersView;
use crate::ask::{
    asked_advanced, asked_count, asked_optional, asked_port, asked_relay, asked_required,
    not_zero_port,
};
use crate::kept::lemma_unsigned_decimal;
use crate::number::{decimal, lemma_decimal_round_trip};
use crate::occupancy::{endpoints_of, with_duts, Endpoint};
use crate::prompt::{asked, noted, NoteKind, Talk};
use crate::text::{or_empty, trimmed};
use vstd::prelude::*;

verus! {

/// Whether the next reply of a conversation is a line.
pub open spec fn replies(k: Talk, prompt: Seq<char>, default: Option<Seq<char>>, line: Seq<char>) -> bool {
    &&& asked(k, prompt, default).1.1 is None
    &&& asked(k, prompt, default).0 == line
}

/// A reply that spells a number is taken for that count, and an empty one for
/// the default.
pub proof fn lemma_count_is_taken(k: Talk, prompt: Seq<char>, default: usize, line: Seq<char>, n: nat)
    requires
        replies(k, prompt, Some(decimal(default as nat)), line),
    ensures
        trimmed(line) == decimal(n) && n <= usize::MAX ==> asked_count(k, prompt, default).0 == n,
        trimmed(line).len() == 0 ==> asked_count(k, prompt, default).0 == default,
{
    if n <= usize::MAX {
        lemma_unsigned_decimal(n, usize::MAX as nat);
        lemma_decimal_round_trip(n);
    }
}

/// A reply that says something is the text that was asked for, without the white
/// space around it; an empty one means the default.
pub proof fn lemma_text_is_taken(k: Talk, prompt: Seq<char>, default: Seq<char>, line: Seq<char>)
    ensures
        replies(k, prompt, Some(default), line) ==> asked_optional(k, prompt, default).0 == (
        if trimmed(line).len() > 0 {
            trimmed(line)
        } else {
            default
        }),
        replies(k, prompt + " (required)"@, Some(default), line) && trimmed(line).len() > 0
            ==> asked_required(k, prompt, default).0 == trimmed(line),
        replies(k, prompt + " (required)"@, Some(default), line) && trimmed(line).len() == 0
            && default.len() > 0 ==> asked_required(k, prompt, default).0 == default,
{
}

/// A text that must be there is there once the question is answered.
pub proof fn lemma_required_is_there(k: Talk, prompt: Seq<char>, default: Seq<char>)
    requires
        asked_required(k, prompt, default).1.1 is None,
    ensures
        asked_required(k, prompt, default).0.len() > 0,
    decreases k.0.lines.len(),
{
    let (raw, k1) = asked(k, prompt + " (required)"@, Some(default));
    if k1.1 is None && trimmed(raw).len() == 0 && default.len() == 0 {
        lemma_required_is_there(
            noted(k1, NoteKind::Error, "value is required"@),
            prompt,
            default,
        );
    }
}

proof fn lemma_port_is_not_zero(k: Talk, port: Seq<char>)
    requires
        not_zero_port(k, port).1.1 is None,
        port.len() > 0,
    ensures
        trimmed(not_zero_port(k, port).0) != "0"@,
        not_zero_port(k, port).0.len() > 0,
    decreases k.0.lines.len(),
{
    if k.1 is None && trimmed(port) == "0"@ {
        let k1 = noted(k, NoteKind::Error, "serial.port cannot be 0"@);
        let (again, k2) = asked_required(k1, "Serial port must be non-zero"@, Seq::empty());
        if k2.1 is None {
            lemma_required_is_there(k1, "Serial port must be non-zero"@, Seq::empty());
            crate::ask::lemma_required_takes_a_line(
                k1,
                "Serial port must be non-zero"@,
                Seq::empty(),
            );
        }
        if k2.0.lines.len() < k.0.lines.len() && k2.1 is None {
            lemma_port_is_not_zero(k2, again);
        }
    }
}

/// A serial port that was asked for is there and is not zero.
pub proof fn lemma_asked_port_can_be_used(k: Talk, prompt: Seq<char>, default: Seq<char>)
    requires
        asked_port(k, prompt, default).1.1 is None,
    ensures
        asked_port(k, prompt, default).0.len() > 0,
        trimmed(asked_port(k, prompt, default).0) != "0"@,
{
    let (port, k1) = asked_required(k, prompt, default);
    if k1.1 is None {
        lemma_required_is_there(k, prompt, default);
        lemma_port_is_not_zero(k1, port);
    }
}

/// A value that was asked for can be taken, or is the default or nothing.
pub proof fn lemma_asked_value_can_be_taken(
    k: Talk,
    label: Seq<char>,
    empty: EmptyMeans,
    key: Seq<char>,
    default: Seq<char>,
)
    requires
        asked_advanced(k, label, empty, key, default).1.1 is None,
    ensures
        ({
            let x = asked_advanced(k, label, empty, key, default).0;
            literal_of(key, x) is Ok || (x == default && empty == EmptyMeans::AcceptDefault)
        }),
    decreases k.0.lines.len(),
{
    let (raw, k1) = asked(k, label, Some(default));
    if k1.1 is None && trimmed(raw).len() > 0 {
        if let Err(e) = literal_of(key, trimmed(raw)) {
            lemma_asked_value_can_be_taken(
                noted(k1, NoteKind::Error, e),
                label,
                empty,
                key,
                default,
            );
        }
    } else if k1.1 is None && empty != EmptyMeans::AcceptDefault {
        assert(trimmed(Seq::<char>::empty()) =~= Seq::<char>::empty());
    }
}

/// A number of the relay that was asked for can be taken, or is the default or
/// nothing.
pub proof fn lemma_asked_relay_can_be_taken(
    k: Talk,
    label: Seq<char>,
    default: Option<Seq<char>>,
    empty: EmptyMeans,
    key: Seq<char>,
)
    requires
        asked_relay(k, label, default, empty, key).1.1 is None,
    ensures
        ({
            let x = asked_relay(k, label, default, empty, key).0;
            literal_of(key, x) is Ok || (x == or_empty(default) && empty
                == EmptyMeans::AcceptDefault)
        }),
    decreases k.0.lines.len(),
{
    let (raw, k1) = asked(k, label, default);
    if k1.1 is None && trimmed(raw).len() > 0 {
        if let Err(e) = literal_of(key, trimmed(raw)) {
            lemma_asked_relay_can_be_taken(
                noted(k1, NoteKind::Error, e),
                label,
                default,
                empty,
                key,
            );
        }
    } else if k1.1 is None && empty != EmptyMeans::AcceptDefault {
        assert(trimmed(Seq::<char>::empty()) =~= Seq::<char>::empty());
    }
}

// ── Endpoints ────────────────────────────────────────────────────────
/// Whether an endpoint is that of a board of one of the first `n` hosts.
pub open spec fn of_a_board(hosts: Seq<HostAnswersView>, n: int, e: Endpoint) -> bool {
    exists|i: int, d: int|
        0 <= i < n && 0 <= d < hosts[i].duts.len() && e == (
            hosts[i].ip,
            (#[trigger] hosts[i].duts[d]).serial_port,
        )
}

proof fn lemma_only_duts(hosts: Seq<HostAnswersView>, i: int, seen: Seq<Endpoint>, n: int, e: Endpoint)
    requires
        0 <= i < hosts.len(),
        0 <= n <= hosts[i].duts.len(),
        with_duts(seen, hosts[i], n).contains(e),
    ensures
        seen.contains(e) || of_a_board(hosts, i + 1, e),
    decreases n,
{
    if n > 0 {
        let before = with_duts(seen, hosts[i], n - 1);
        let x = (hosts[i].ip, hosts[i].duts[n - 1].serial_port);
        if before.contains(e) {
            lemma_only_duts(hosts, i, seen, n - 1, e);
        } else {
            let k = choose|k: int|
                0 <= k < with_duts(seen, hosts[i], n).len() && with_duts(seen, hosts[i], n)[k] == e;
            if k < before.len() {
                assert(before[k] == e);
            }
            assert(e == x);
            assert(hosts[i].duts[n - 1].serial_port == e.1);
        }
    }
}

/// The endpoints that answers name are those of their boards, and no others.
pub proof fn lemma_only_endpoints_of_boards(hosts: Seq<HostAnswersView>, n: int, e: Endpoint)
    requires
        0 <= n <= hosts.len(),
        endpoints_of(hosts, n).contains(e),
    ensures
        of_a_board(hosts, n, e),
    decreases n,
{
    if n > 0 {
        lemma_only_duts(
            hosts,
            n - 1,
            endpoints_of(hosts, n - 1),
            hosts[n - 1].duts.len() as int,
            e,
        );
        if endpoints_of(hosts, n - 1).contains(e) {
            lemma_only_endpoints_of_boards(hosts, n - 1, e);
            let (i, d) = choose|i: int, d: int|
                0 <= i < n - 1 && 0 <= d < hosts[i].duts.len() && e == (
                    hosts[i].ip,
                    (#[trigger] hosts[i].duts[d]).serial_port,
                );
            assert(hosts[i].duts[d].serial_port == e.1);
        }
    }
}

} // verus!

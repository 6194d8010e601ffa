//! The record of who owns a board's display: what it says, when it still
//! counts, and how the server puts itself into it.
use crate::jsonc::{lemma_members_view, lemma_object, members_view, Json, JsonView};
use crate::mcp_json::{find_last, lemma_last_member, member_index, member_of, Members};
use crate::number::{
    all_digits, decimal, decimal_text, digits_value, is_digit, lemma_decimal_round_trip,
    parse_unsigned,
};
use crate::text::{opt_text, owned, to_chars};
use vstd::prelude::*;

verus! {

// ── Numbers and texts in a value ─────────────────────────────────────
/// The number without a sign that a value is.
pub open spec fn as_number(j: JsonView) -> Option<u64> {
    match j {
        JsonView::Number(t) => if t.len() > 0 && all_digits(t) && digits_value(t) <= u64::MAX {
            Some(digits_value(t) as u64)
        } else {
            None
        },
        _ => None,
    }
}

/// The number, with or without a sign, that a value is. Zero has no sign.
pub open spec fn as_signed(j: JsonView) -> Option<int> {
    match j {
        JsonView::Number(t) => if t.len() > 1 && t[0] == '-' && all_digits(t.skip(1)) && 0
            < digits_value(t.skip(1)) <= 0x8000_0000_0000_0000 {
            Some(-(digits_value(t.skip(1)) as int))
        } else if t.len() > 0 && all_digits(t) && digits_value(t) <= i64::MAX {
            Some(digits_value(t) as int)
        } else {
            None
        },
        _ => None,
    }
}

/// The text that a value is.
pub open spec fn as_text(j: JsonView) -> Option<Seq<char>> {
    match j {
        JsonView::Text(t) => Some(t),
        _ => None,
    }
}

fn plain_digits(t: &str, max: u64) -> (r: Option<u64>)
    ensures
        r == (if t@.len() > 0 && all_digits(t@) && digits_value(t@) <= max {
            Some(digits_value(t@) as u64)
        } else {
            None
        }),
{
    let c = to_chars(t);
    if c.len() > 0 && c[0] == '+' {
        assert(!is_digit(t@[0]));
        return None;
    }
    parse_unsigned(t, max)
}

/// The number without a sign that a value is.
pub fn number_in(j: &Json) -> (r: Option<u64>)
    ensures
        r == as_number(j@),
{
    match j {
        Json::Number(t) => plain_digits(t.as_str(), u64::MAX),
        _ => None,
    }
}

/// The number, with or without a sign, that a value is.
pub fn signed_in(j: &Json) -> (r: Option<i64>)
    ensures
        match r {
            Some(n) => as_signed(j@) == Some(n as int),
            None => as_signed(j@) is None,
        },
{
    match j {
        Json::Number(t) => {
            let c = to_chars(t.as_str());
            if c.len() > 0 && c[0] == '-' {
                assert(!is_digit(t@[0]));
                let rest = crate::text::from_chars(&c, 1, c.len());
                assert(rest@ =~= t@.skip(1));
                return match plain_digits(rest.as_str(), 0x8000_0000_0000_0000) {
                    Some(n) => if n == 0 {
                        None
                    } else if n == 0x8000_0000_0000_0000 {
                        Some(i64::MIN)
                    } else {
                        Some(-(n as i64))
                    },
                    None => None,
                };
            }
            match plain_digits(t.as_str(), i64::MAX as u64) {
                Some(n) => Some(n as i64),
                None => None,
            }
        },
        _ => None,
    }
}

/// The text that a value is.
pub fn text_in(j: &Json) -> (r: Option<String>)
    ensures
        opt_text(r) == as_text(j@),
{
    match j {
        Json::Text(t) => Some(owned(t.as_str())),
        _ => None,
    }
}

/// A member of a value, read as a number.
pub open spec fn number_member(j: JsonView, name: Seq<char>) -> Option<u64> {
    match member_of(j, name) {
        Some(v) => as_number(v),
        None => None,
    }
}

/// A member of a value, read as a number with or without a sign.
pub open spec fn signed_member(j: JsonView, name: Seq<char>) -> Option<int> {
    match member_of(j, name) {
        Some(v) => as_signed(v),
        None => None,
    }
}

/// A member of a value, read as a text.
pub open spec fn text_member(j: JsonView, name: Seq<char>) -> Option<Seq<char>> {
    match member_of(j, name) {
        Some(v) => as_text(v),
        None => None,
    }
}

fn get_number(j: &Json, name: &str) -> (r: Option<u64>)
    ensures
        r == number_member(j@, name@),
{
    match j.get(name) {
        Some(v) => number_in(v),
        None => None,
    }
}

fn get_signed(j: &Json, name: &str) -> (r: Option<i64>)
    ensures
        match r {
            Some(n) => signed_member(j@, name@) == Some(n as int),
            None => signed_member(j@, name@) is None,
        },
{
    match j.get(name) {
        Some(v) => signed_in(v),
        None => None,
    }
}

fn get_text(j: &Json, name: &str) -> (r: Option<String>)
    ensures
        opt_text(r) == text_member(j@, name@),
{
    match j.get(name) {
        Some(v) => text_in(v),
        None => None,
    }
}

// ── The record ───────────────────────────────────────────────────────
/// Who owns a board's display.
#[derive(Clone, Debug)]
pub struct InventoryOwner {
    pub owner_kind: String,
    pub owner_session_id: Option<String>,
    pub owner_mcp_pid: Option<u32>,
    pub claimed_at_unix: Option<i64>,
}

/// Whether a record has the form that is understood.
pub open spec fn known_schema(j: JsonView) -> bool {
    number_member(j, "schema_version"@) == Some(1u64)
}

fn has_known_schema(j: &Json) -> (r: bool)
    ensures
        r == known_schema(j@),
{
    match get_number(j, "schema_version") {
        Some(n) => n == 1,
        None => false,
    }
}

/// The meaning of an [`InventoryOwner`].
#[verifier::ext_equal]
pub ghost struct OwnerView {
    pub kind: Seq<char>,
    pub session: Option<Seq<char>>,
    pub pid: Option<u32>,
    pub since: Option<int>,
}

impl View for InventoryOwner {
    type V = OwnerView;

    open spec fn view(&self) -> OwnerView {
        OwnerView {
            kind: self.owner_kind@,
            session: opt_text(self.owner_session_id),
            pid: self.owner_mcp_pid,
            since: match self.claimed_at_unix {
                Some(t) => Some(t as int),
                None => None,
            },
        }
    }
}

/// Who owns a board's display, as a record says.
pub open spec fn owner_in(j: JsonView) -> Option<OwnerView> {
    if !known_schema(j) {
        None
    } else {
        Some(
            OwnerView {
                kind: match text_member(j, "owner_kind"@) {
                    Some(k) => k,
                    None => "agent"@,
                },
                session: text_member(j, "owner_session_id"@),
                pid: match number_member(j, "owner_mcp_pid"@) {
                    Some(n) => Some(n as u32),
                    None => None,
                },
                since: signed_member(j, "claimed_at_unix"@),
            },
        )
    }
}

/// Who owns a board's display, as a record says; nobody where its form is not
/// understood. An owner without a kind is an agent.
pub fn read_owner_record(record: &Json) -> (r: Option<InventoryOwner>)
    ensures
        match r {
            Some(o) => owner_in(record@) == Some(o@),
            None => owner_in(record@) is None,
        },
        r is Some <==> known_schema(record@),
        match r {
            Some(o) => {
                &&& o.owner_kind@ == (match text_member(record@, "owner_kind"@) {
                    Some(k) => k,
                    None => "agent"@,
                })
                &&& opt_text(o.owner_session_id) == text_member(record@, "owner_session_id"@)
                &&& o.owner_mcp_pid == (match number_member(record@, "owner_mcp_pid"@) {
                    Some(n) => Some(n as u32),
                    None => None,
                })
                &&& match o.claimed_at_unix {
                    Some(t) => signed_member(record@, "claimed_at_unix"@) == Some(t as int),
                    None => signed_member(record@, "claimed_at_unix"@) is None,
                }
            },
            None => true,
        },
{
    if !has_known_schema(record) {
        return None;
    }
    let owner_kind = match get_text(record, "owner_kind") {
        Some(k) => k,
        None => owned("agent"),
    };
    let owner_mcp_pid = match get_number(record, "owner_mcp_pid") {
        Some(n) => Some(
            #[verifier::truncate]
            (n as u32),
        ),
        None => None,
    };
    Some(
        InventoryOwner {
            owner_kind,
            owner_session_id: get_text(record, "owner_session_id"),
            owner_mcp_pid,
            claimed_at_unix: get_signed(record, "claimed_at_unix"),
        },
    )
}

/// The process whose life the claim of a record hangs on, if it names one.
pub fn record_pid(record: &Json) -> (r: Option<u64>)
    ensures
        r == number_member(record@, "owner_mcp_pid"@),
{
    get_number(record, "owner_mcp_pid")
}

/// How long a claim counts that no process backs, in seconds.
pub const UNBACKED_CLAIM_SECS: i64 = 60;

/// Whether the claim of a record still counts: while its process lives, or,
/// where it names none, for a minute.
pub open spec fn claim_counts(j: JsonView, pid_lives: bool, now: int) -> bool {
    match number_member(j, "owner_mcp_pid"@) {
        Some(pid) => 0 < pid <= i32::MAX && pid_lives,
        None => match signed_member(j, "claimed_at_unix"@) {
            Some(t) => now - t < UNBACKED_CLAIM_SECS,
            None => false,
        },
    }
}

/// Whether the claim of a record still counts, given whether the process that
/// it names lives.
pub fn owner_is_live(record: &Json, pid_lives: bool, now: i64) -> (r: bool)
    ensures
        r == claim_counts(record@, pid_lives, now as int),
{
    match get_number(record, "owner_mcp_pid") {
        Some(pid) => 0 < pid && pid <= i32::MAX as u64 && pid_lives,
        None => match get_signed(record, "claimed_at_unix") {
            Some(t) => (now as i128) - (t as i128) < UNBACKED_CLAIM_SECS as i128,
            None => false,
        },
    }
}

/// The text of a number with a sign.
pub open spec fn signed_text(n: int) -> Seq<char> {
    if n < 0 {
        "-"@ + decimal((-n) as nat)
    } else {
        decimal(n as nat)
    }
}

fn signed_decimal(n: i64) -> (r: String)
    ensures
        r@ == signed_text(n as int),
{
    if n < 0 {
        let mut s = owned("-");
        let d = crate::number::wide_decimal_text((-(n as i128)) as u128);
        s.append(d.as_str());
        s
    } else {
        decimal_text(n as u64)
    }
}

/// The record of a server that its client talks to directly.
pub open spec fn stdio_record(
    pid: u32,
    session: Option<Seq<char>>,
    project_dir: Seq<char>,
    now: int,
) -> JsonView {
    let number = JsonView::Number(decimal(pid as nat));
    JsonView::Object(
        seq![
            ("schema_version"@, JsonView::Number("1"@)),
            ("owner_kind"@, JsonView::Text("stdio"@)),
            ("owner_pid"@, number),
            (
                "owner_session_id"@,
                match session {
                    Some(s) => JsonView::Text(s),
                    None => JsonView::Null,
                },
            ),
            ("owner_mcp_pid"@, number),
            ("owner_cwd"@, JsonView::Text(project_dir)),
            ("claimed_at_unix"@, JsonView::Number(signed_text(now))),
        ],
    )
}

/// The record of a server that its client talks to directly.
pub fn stdio_owner_record(pid: u32, session: &Option<String>, project_dir: &str, now: i64) -> (r:
    Json)
    ensures
        r@ == stdio_record(pid, opt_text(*session), project_dir@, now as int),
{
    let mut m: Vec<(String, Json)> = Vec::new();
    m.push((owned("schema_version"), Json::Number(owned("1"))));
    m.push((owned("owner_kind"), Json::Text(owned("stdio"))));
    m.push((owned("owner_pid"), Json::Number(decimal_text(pid as u64))));
    let id = match session {
        Some(s) => Json::Text(owned(s.as_str())),
        None => Json::Null,
    };
    m.push((owned("owner_session_id"), id));
    m.push((owned("owner_mcp_pid"), Json::Number(decimal_text(pid as u64))));
    m.push((owned("owner_cwd"), Json::Text(owned(project_dir))));
    m.push((owned("claimed_at_unix"), Json::Number(signed_decimal(now))));
    proof {
        lemma_object(
            m@,
            stdio_record(pid, opt_text(*session), project_dir@, now as int)->Object_0,
        );
    }
    Json::Object(m)
}

// ── The server in the record ─────────────────────────────────────────
/// An object with a member set: in its place, or behind the others.
pub open spec fn with_member(m: Members, name: Seq<char>, value: JsonView) -> Members {
    match member_index(m, name) {
        Some(i) => m.update(i, (m[i].0, value)),
        None => m.push((name, value)),
    }
}

/// A record with the server's process in it; nothing where there is nothing
/// to write: its form is not understood, or the process is in it already.
pub open spec fn anchored(j: JsonView, pid: u32) -> Option<JsonView> {
    if !known_schema(j) || number_member(j, "owner_mcp_pid"@) == Some(pid as u64) {
        None
    } else {
        Some(
            JsonView::Object(
                with_member(
                    j->Object_0,
                    "owner_mcp_pid"@,
                    JsonView::Number(decimal(pid as nat)),
                ),
            ),
        )
    }
}

/// A record with the server's process in it; nothing where there is nothing
/// to write.
pub fn backfill_owner_anchor(record: Json, pid: u32) -> (r: Option<Json>)
    ensures
        match r {
            Some(j) => anchored(record@, pid) == Some(j@),
            None => anchored(record@, pid) is None,
        },
{
    if !has_known_schema(&record) {
        return None;
    }
    if let Some(n) = get_number(&record, "owner_mcp_pid") {
        if n == pid as u64 {
            return None;
        }
    }
    let value = Json::Number(decimal_text(pid as u64));
    match record {
        Json::Object(members) => {
            let mut m = members;
            let ghost m0 = m@;
            let ghost mv = members_view(m0);
            let ghost vv = value@;
            proof {
                lemma_members_view(m0);
                lemma_last_member(mv, "owner_mcp_pid"@, mv.len() as int);
            }
            match find_last(&m, "owner_mcp_pid") {
                Some(i) => {
                    let (name, _) = m.remove(i);
                    m.insert(i, (name, value));
                    proof {
                        lemma_object(m@, mv.update(i as int, (mv[i as int].0, vv)));
                    }
                },
                None => {
                    m.push((owned("owner_mcp_pid"), value));
                    proof {
                        lemma_object(m@, mv.push(("owner_mcp_pid"@, vv)));
                    }
                },
            }
            Some(Json::Object(m))
        },
        _ => None,
    }
}

proof fn lemma_with_member(m: Members, name: Seq<char>, value: JsonView, other: Seq<char>)
    requires
        other != name,
    ensures
        member_of(JsonView::Object(with_member(m, name, value)), name) == Some(value),
        member_of(JsonView::Object(with_member(m, name, value)), other) == member_of(
            JsonView::Object(m),
            other,
        ),
{
    let w = with_member(m, name, value);
    lemma_last_member(m, name, m.len() as int);
    lemma_last_member(w, name, w.len() as int);
    lemma_last_member(m, other, m.len() as int);
    lemma_last_member(w, other, w.len() as int);
    match member_index(m, name) {
        Some(i) => {
            assert(w[i] == (m[i].0, value));
            let j = member_index(w, name)->0;
            assert(forall|k: int| 0 <= k < m.len() ==> w[k].0 == (#[trigger] m[k]).0);
            assert(j == i);
            match (member_index(m, other), member_index(w, other)) {
                (Some(a), Some(b)) => {
                    assert(w[a].0 == m[a].0 && w[b].0 == m[b].0);
                    assert(a == b);
                },
                (Some(a), None) => {
                    assert(w[a].0 == m[a].0);
                },
                (None, Some(b)) => {
                    assert(w[b].0 == m[b].0);
                },
                (None, None) => {},
            }
        },
        None => {
            assert(w[m.len() as int] == (name, value));
            match (member_index(m, other), member_index(w, other)) {
                (Some(a), Some(b)) => {
                    assert(w[a] == m[a]);
                    assert(b < m.len() && w[b] == m[b]);
                    assert(a == b);
                },
                (Some(a), None) => {
                    assert(w[a] == m[a]);
                },
                (None, Some(b)) => {
                    assert(b < m.len() && w[b] == m[b]);
                },
                (None, None) => {},
            }
        },
    }
}

/// After the server put itself into a record, the record names it, its other
/// members are what they were, and there is nothing more to write.
pub proof fn lemma_anchored_once(j: JsonView, pid: u32, other: Seq<char>)
    requires
        anchored(j, pid) is Some,
        other != "owner_mcp_pid"@,
    ensures
        ({
            let r = anchored(j, pid).unwrap();
            &&& number_member(r, "owner_mcp_pid"@) == Some(pid as u64)
            &&& member_of(r, other) == member_of(j, other)
            &&& anchored(r, pid) is None
        }),
{
    let m = j->Object_0;
    let value = JsonView::Number(decimal(pid as nat));
    lemma_decimal_round_trip(pid as nat);
    lemma_with_member(m, "owner_mcp_pid"@, value, other);
}

} // verus!

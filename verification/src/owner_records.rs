//! What the records of owners say.
use crate::jsonc::JsonView;
use crate::mcp_json::{lemma_last_member, member_of, Members};
use crate::number::{decimal, lemma_decimal_round_trip};
use crate::owner::{
    anchored, as_signed, claim_counts, known_schema, number_member, owner_in, signed_member,
    signed_text, stdio_record, text_member, OwnerView,
};
use vstd::prelude::*;

verus! {

/// A number with a sign is read back as it was written.
pub proof fn lemma_signed_reads(n: int)
    requires
        i64::MIN <= n <= i64::MAX,
    ensures
        as_signed(JsonView::Number(signed_text(n))) == Some(n),
{
    let t = signed_text(n);
    reveal_strlit("-");
    if n < 0 {
        let d = decimal((-n) as nat);
        lemma_decimal_round_trip((-n) as nat);
        assert(t[0] == '-');
        assert(t.skip(1) =~= d);
    } else {
        lemma_decimal_round_trip(n as nat);
        assert(crate::number::is_digit(t[0]));
    }
}

proof fn lemma_record_names()
    ensures
        "schema_version"@.len() == 14,
        "owner_kind"@.len() == 10,
        "owner_pid"@.len() == 9,
        "owner_session_id"@.len() == 16,
        "owner_mcp_pid"@.len() == 13,
        "owner_cwd"@.len() == 9,
        "claimed_at_unix"@.len() == 15,
        "owner_pid"@ != "owner_cwd"@,
{
    reveal_strlit("schema_version");
    reveal_strlit("owner_kind");
    reveal_strlit("owner_pid");
    reveal_strlit("owner_session_id");
    reveal_strlit("owner_mcp_pid");
    reveal_strlit("owner_cwd");
    reveal_strlit("claimed_at_unix");
    assert("owner_pid"@[6] == 'p' && "owner_cwd"@[6] == 'c');
}

proof fn lemma_only_member(m: Members, name: Seq<char>, i: int)
    requires
        0 <= i < m.len(),
        m[i].0 == name,
        forall|k: int| 0 <= k < m.len() && k != i ==> (#[trigger] m[k]).0 != name,
    ensures
        member_of(JsonView::Object(m), name) == Some(m[i].1),
{
    lemma_last_member(m, name, m.len() as int);
}

/// The record of a server that its client talks to directly is understood, and
/// says who it is: its process, its session, its project and since when.
pub proof fn lemma_record_reads(
    pid: u32,
    session: Option<Seq<char>>,
    project_dir: Seq<char>,
    now: int,
)
    requires
        i64::MIN <= now <= i64::MAX,
    ensures
        ({
            let j = stdio_record(pid, session, project_dir, now);
            &&& known_schema(j)
            &&& text_member(j, "owner_kind"@) == Some("stdio"@)
            &&& number_member(j, "owner_pid"@) == Some(pid as u64)
            &&& number_member(j, "owner_mcp_pid"@) == Some(pid as u64)
            &&& text_member(j, "owner_session_id"@) == session
            &&& text_member(j, "owner_cwd"@) == Some(project_dir)
            &&& signed_member(j, "claimed_at_unix"@) == Some(now)
            &&& anchored(j, pid) is None
        }),
{
    let j = stdio_record(pid, session, project_dir, now);
    let m = j->Object_0;
    lemma_record_names();
    lemma_signed_reads(now);
    lemma_decimal_round_trip(pid as nat);
    lemma_only_member(m, "schema_version"@, 0);
    lemma_only_member(m, "owner_kind"@, 1);
    lemma_only_member(m, "owner_pid"@, 2);
    lemma_only_member(m, "owner_session_id"@, 3);
    lemma_only_member(m, "owner_mcp_pid"@, 4);
    lemma_only_member(m, "owner_cwd"@, 5);
    lemma_only_member(m, "claimed_at_unix"@, 6);
    reveal_strlit("1");
    assert("1"@ =~= seq!['1']);
    reveal_with_fuel(decimal, 2);
    assert(decimal(1) =~= "1"@);
    lemma_decimal_round_trip(1);
}

/// A claim counts as long as the process that it names lives; while it lives it
/// does not lapse with time.
pub proof fn lemma_backed_claim(j: JsonView, pid: u64, now: int)
    requires
        number_member(j, "owner_mcp_pid"@) == Some(pid),
        0 < pid <= i32::MAX,
    ensures
        claim_counts(j, true, now),
        !claim_counts(j, false, now),
{
}

/// A claim that names no process counts for a minute from when it was made, and
/// not from then on, whatever lives.
pub proof fn lemma_unbacked_claim(j: JsonView, made: int, lives: bool, now: int)
    requires
        number_member(j, "owner_mcp_pid"@) is None,
        signed_member(j, "claimed_at_unix"@) == Some(made),
    ensures
        claim_counts(j, lives, now) <==> now < made + 60,
{
}

/// Nobody's claim does not count.
pub proof fn lemma_no_claim(j: JsonView, lives: bool, now: int)
    requires
        number_member(j, "owner_mcp_pid"@) is None,
        signed_member(j, "claimed_at_unix"@) is None,
    ensures
        !claim_counts(j, lives, now),
{
}

/// Whoever reads the record of a server that its client talks to directly learns
/// its kind, its session, its process and since when it is there.
pub proof fn lemma_record_names_its_owner(
    pid: u32,
    session: Option<Seq<char>>,
    project_dir: Seq<char>,
    now: int,
)
    requires
        i64::MIN <= now <= i64::MAX,
    ensures
        owner_in(stdio_record(pid, session, project_dir, now)) == Some(
            OwnerView { kind: "stdio"@, session, pid: Some(pid), since: Some(now) },
        ),
{
    lemma_record_reads(pid, session, project_dir, now);
}

/// A record of the form that is understood always has an owner, an agent where
/// it names no kind; one of another form has none.
pub proof fn lemma_who_owns(j: JsonView)
    ensures
        owner_in(j) is Some <==> number_member(j, "schema_version"@) == Some(1u64),
        owner_in(j) is Some && text_member(j, "owner_kind"@) is None ==> owner_in(j)->0.kind
            == "agent"@,
        owner_in(j) is Some && text_member(j, "owner_kind"@) is Some ==> Some(owner_in(j)->0.kind)
            == text_member(j, "owner_kind"@),
{
}

} // verus!

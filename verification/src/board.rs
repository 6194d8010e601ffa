//! What was answered for a board is what the document says of it once its
//! edits are applied.
use crate::advanced::{field_of, point_from, scalar_of, section_of, C_DUT_NAME};
use crate::answered::{lemma_absent, lemma_line_starts};
use crate::answers::DutAnswersView;
use crate::changes::{spells_change, stays_tidy, ChangeView};
use crate::config::{dut_of, member, DutView};
use crate::edit::{entry_indent, EditView};
use crate::fixed_texts::lemma_c_dut_name;
use crate::jsonc::{document, quoted, JsonView};
use crate::kept::scalar_json;
use crate::locate::{close_at, open_at, value_span, SegView};
use crate::pieces::{lemma_reads_quoted, plain, reads, Members};
use crate::place::{is_name, is_scalar, json_at, named, tidy, under};
use crate::tidy::lemma_scalar_is_tidy;
use crate::together::{
    added_of, all_apart, apart, cuts, known_here, lemma_around, lemma_found_is_said,
    lemma_some_member, path_of, planned_on, spells_in_words,
};
use crate::update::{change_desc, present, set_or_append, OpView, ScalarView};
use crate::update_dut::{port_stays, user_stays};
use crate::written::{lemma_member_line, quiet};
use vstd::prelude::*;

verus! {

// ── The change that an edit spells ───────────────────────────────────
/// Writing a member of an object: another value where it is there, one member
/// more where it is not.
pub open spec fn member_change(
    s: Seq<char>,
    container: Seq<SegView>,
    key: Seq<char>,
    w: JsonView,
) -> ChangeView {
    let path = container.push(SegView::Key(key));
    if present(s, path) {
        ChangeView::Value { path, value: w }
    } else {
        ChangeView::Members { path: container, added: seq![(key, w)] }
    }
}

/// One member more leaves an object tidy that has none of that name.
pub proof fn lemma_one_more(j: JsonView, container: Seq<SegView>, m: Members, key: Seq<char>, w: JsonView)
    requires
        tidy(j),
        json_at(j, container) == Some(JsonView::Object(m)),
        member(m, key) is None,
        is_name(key),
        tidy(w),
    ensures
        stays_tidy(j, ChangeView::Members { path: container, added: seq![(key, w)] }),
{
    let added = seq![(key, w)];
    let all = m + added;
    assert(named(m));
    assert forall|k: int| 0 <= k < m.len() implies (#[trigger] m[k]).0 != key by {
        if m[k].0 == key {
            lemma_some_member(m, key, 0, k);
        }
    }
    assert forall|k: int| 0 <= k < all.len() implies is_name((#[trigger] all[k]).0) by {
        if k < m.len() {
            assert(all[k] == m[k]);
        }
    }
    assert forall|k: int, l: int| 0 <= k < l < all.len() implies (#[trigger] all[k]).0 != (
    #[trigger] all[l]).0 by {
        assert(all[k] == m[k]);
        if l < m.len() {
            assert(all[l] == m[l]);
        }
    }
}

/// The edit that writes a member spells that change.
pub proof fn lemma_value_spells(
    s: Seq<char>,
    container: Seq<SegView>,
    m: Members,
    e: ScalarView,
    w: JsonView,
)
    requires
        document(s) matches Some(j) && tidy(j) && !is_scalar(j) && json_at(j, container) == Some(
            JsonView::Object(m),
        ),
        plain(e.key),
        is_name(e.key),
        reads(e.literal, w),
        tidy(w),
        e.literal.len() > 0,
        quiet(e.comment),
        e.before is None,
        set_or_append(s, container, e) is Ok,
    ensures
        ({
            let c = member_change(s, container, e.key, w);
            &&& c is Value || c is Members
            &&& spells_change(s, set_or_append(s, container, e)->Ok_0.op, c)
            &&& stays_tidy(document(s)->0, c)
        }),
{
    let j = document(s)->0;
    let path = container.push(SegView::Key(e.key));
    if !present(s, path) {
        lemma_absent(s, container, m, e.key);
        let n = entry_indent(s, container)->0;
        lemma_member_line(n, e.key, e.literal, w, e.comment);
        lemma_line_starts(n, e.key, e.literal, e.comment);
        lemma_one_more(j, container, m, e.key, w);
    }
}

// ── Changes of different members ─────────────────────────────────────
/// Whether a change lies in one member of an object, or adds it.
pub open spec fn within(c: ChangeView, container: Seq<SegView>, key: Seq<char>) -> bool {
    ||| under(container.push(SegView::Key(key)), path_of(c))
    ||| path_of(c) == container && added_of(c).len() == 1 && added_of(c)[0].0 == key
}

proof fn lemma_different_members(
    p: Seq<SegView>,
    q: Seq<SegView>,
    container: Seq<SegView>,
    a: Seq<char>,
    b: Seq<char>,
)
    requires
        under(container.push(SegView::Key(a)), p),
        under(container.push(SegView::Key(b)), q),
        a != b,
    ensures
        !under(p, q),
        !under(q, p),
        p.len() > container.len(),
        q.len() > container.len(),
{
    let n = container.len() as int;
    let x = container.push(SegView::Key(a));
    let y = container.push(SegView::Key(b));
    assert(p.take(x.len() as int)[n] == x[n]);
    assert(q.take(y.len() as int)[n] == y[n]);
    if under(p, q) {
        assert(q.take(p.len() as int)[n] == p[n]);
    }
    if under(q, p) {
        assert(p.take(q.len() as int)[n] == q[n]);
    }
}

/// Changes of different members of an object aim apart.
pub proof fn lemma_within_apart(
    c: ChangeView,
    d: ChangeView,
    container: Seq<SegView>,
    a: Seq<char>,
    b: Seq<char>,
)
    requires
        within(c, container, a),
        within(d, container, b),
        a != b,
    ensures
        apart(c, d),
{
    let x = container.push(SegView::Key(a));
    let y = container.push(SegView::Key(b));
    if under(x, path_of(c)) && under(y, path_of(d)) {
        lemma_different_members(path_of(c), path_of(d), container, a, b);
        assert(path_of(d).take(path_of(d).len() as int) =~= path_of(d));
    } else if under(x, path_of(c)) {
        assert(path_of(c).len() > container.len());
    } else if under(y, path_of(d)) {
        assert(path_of(d).len() > container.len());
    }
}

pub proof fn lemma_member_change_within(
    s: Seq<char>,
    container: Seq<SegView>,
    key: Seq<char>,
    w: JsonView,
)
    ensures
        within(member_change(s, container, key, w), container, key),
{
    let path = container.push(SegView::Key(key));
    assert(path.take(path.len() as int) =~= path);
}

// ── The answers for a board ──────────────────────────────────────────
/// The edits of a plan.
pub open spec fn edits_of(ops: Seq<OpView>) -> Seq<EditView> {
    Seq::new(ops.len(), |i: int| ops[i].op)
}

/// The change of the name, where the answer differs.
pub open spec fn name_changes(
    s: Seq<char>,
    path: Seq<SegView>,
    ex: DutView,
    a: DutAnswersView,
) -> Seq<ChangeView> {
    if ex.dut_name == a.dut_name {
        Seq::empty()
    } else {
        seq![member_change(s, path, "dut_name"@, JsonView::Text(a.dut_name))]
    }
}

/// The change of one value of a section that is there.
pub open spec fn set_change(
    s: Seq<char>,
    path: Seq<SegView>,
    section: Seq<char>,
    field: Seq<char>,
    w: JsonView,
) -> Seq<ChangeView> {
    let container = path.push(SegView::Key(section));
    if close_at(s, container) is Some {
        seq![member_change(s, container, field, w)]
    } else {
        Seq::empty()
    }
}

/// The change of the port, where the answer differs and its section is there.
pub open spec fn port_changes(
    s: Seq<char>,
    path: Seq<SegView>,
    ex: DutView,
    a: DutAnswersView,
) -> Seq<ChangeView> {
    if port_stays(ex, a) {
        Seq::empty()
    } else {
        set_change(s, path, "serial"@, "port"@, scalar_json(scalar_of(a.serial_port)))
    }
}

/// The change of the user, where the answer differs and its section is there.
pub open spec fn user_changes(
    s: Seq<char>,
    path: Seq<SegView>,
    ex: DutView,
    a: DutAnswersView,
) -> Seq<ChangeView> {
    if user_stays(ex, a) {
        Seq::empty()
    } else {
        set_change(s, path, "target"@, "login_user"@, JsonView::Text(a.login_user))
    }
}

/// The changes that the answers for name, port and user ask for in what is
/// there.
pub open spec fn board_changes(
    s: Seq<char>,
    path: Seq<SegView>,
    ex: DutView,
    a: DutAnswersView,
) -> Seq<ChangeView> {
    name_changes(s, path, ex, a) + port_changes(s, path, ex, a) + user_changes(s, path, ex, a)
}

/// The parts of the two keys, and that they are names.
pub proof fn lemma_board_keys()
    ensures
        section_of("serial.port"@) == "serial"@,
        field_of("serial.port"@) == "port"@,
        section_of("target.login_user"@) == "target"@,
        field_of("target.login_user"@) == "login_user"@,
        plain("dut_name"@),
        is_name("dut_name"@),
        is_name("serial"@),
        is_name("port"@),
        is_name("target"@),
        is_name("login_user"@),
        "dut_name"@ != "serial"@,
        "dut_name"@ != "target"@,
        "serial"@ != "target"@,
{
    reveal_strlit("serial.port");
    reveal_strlit("serial");
    reveal_strlit("port");
    reveal_strlit("target.login_user");
    reveal_strlit("target");
    reveal_strlit("login_user");
    reveal_strlit("dut_name");
    reveal_with_fuel(point_from, 8);
    assert("serial.port"@.take(6) =~= "serial"@);
    assert("serial.port"@.skip(7) =~= "port"@);
    assert("target.login_user"@.take(6) =~= "target"@);
    assert("target.login_user"@.skip(7) =~= "login_user"@);
    assert("dut_name"@[0] == 'd');
    assert("serial"@[0] == 's');
    assert("target"@[0] == 't');
}

// ── Plans that are on track ──────────────────────────────────────────
/// Whether the edits of a plan spell these changes, which aim apart.
#[verifier::opaque]
pub open spec fn on_track(s: Seq<char>, ops: Seq<OpView>, cs: Seq<ChangeView>) -> bool {
    planned_on(s, edits_of(ops), cs) && all_apart(cs)
}

/// Whether an edit spells a change that repeats no name.
#[verifier::opaque]
pub open spec fn spells_one(s: Seq<char>, op: EditView, c: ChangeView) -> bool {
    spells_in_words(s, op, c) && known_here(document(s)->0, c) && stays_tidy(document(s)->0, c)
}

/// The edit that takes a value out of an object spells that change.
pub proof fn lemma_removal_spells(s: Seq<char>, container: Seq<SegView>, key: Seq<char>)
    requires
        document(s) matches Some(j) && tidy(j) && !is_scalar(j),
        value_span(s, container.push(SegView::Key(key))) is Some,
    ensures
        ({
            let c = ChangeView::Gone { path: container, key };
            &&& spells_one(s, EditView::RemoveKey { path: container, key }, c)
            &&& within(c, container, key)
        }),
        json_at(document(s)->0, container) matches Some(x) && x is Object,
        open_at(s, container) is Some,
{
    reveal(spells_one);
    let path = container.push(SegView::Key(key));
    lemma_found_is_said(s, path);
    lemma_around(document(s)->0, container, key);
    lemma_found_is_said(s, container);
    assert(path.take(path.len() as int) =~= path);
}

/// Whether a change aims apart from all the others.
pub open spec fn apart_from_all(cs: Seq<ChangeView>, c: ChangeView) -> bool {
    forall|n: int| 0 <= n < cs.len() ==> apart(#[trigger] cs[n], c)
}

/// A plan that is on track stays so with an edit that aims apart.
pub proof fn lemma_one_edit_more(
    s: Seq<char>,
    ops: Seq<OpView>,
    cs: Seq<ChangeView>,
    op: OpView,
    c: ChangeView,
)
    requires
        on_track(s, ops, cs),
        spells_one(s, op.op, c),
        apart_from_all(cs, c),
    ensures
        on_track(s, ops.push(op), cs.push(c)),
{
    reveal(on_track);
    reveal(spells_one);
    let edits = edits_of(ops.push(op));
    let more = cs.push(c);
    assert forall|i: int| 0 <= i < more.len() implies {
        &&& spells_in_words(s, edits[i], #[trigger] more[i])
        &&& known_here(document(s)->0, more[i])
        &&& stays_tidy(document(s)->0, more[i])
    } by {
        if i < cs.len() {
            assert(more[i] == cs[i]);
            assert(edits[i] == edits_of(ops)[i]);
        }
    }
    assert forall|i: int, k: int| 0 <= i < k < more.len() implies apart(
        #[trigger] more[i],
        #[trigger] more[k],
    ) by {
        assert(more[i] == cs[i]);
        if k < cs.len() {
            assert(more[k] == cs[k]);
        }
    }
}

/// Whether a change lies in the value at a path.
pub open spec fn below(c: ChangeView, path: Seq<SegView>) -> bool {
    under(path, path_of(c)) && (cuts(c) ==> path.len() < path_of(c).len())
}

/// Whether no section of a board is `null`. A section that is goes for none,
/// and cannot be added.
pub open spec fn no_null_sections(m: Members) -> bool {
    &&& member(m, "serial"@) != Some(JsonView::Null)
    &&& member(m, "target"@) != Some(JsonView::Null)
    &&& member(m, "uboot"@) != Some(JsonView::Null)
    &&& member(m, "relay"@) != Some(JsonView::Null)
    &&& member(m, "monitor"@) != Some(JsonView::Null)
    &&& member(m, "flash"@) != Some(JsonView::Null)
    &&& member(m, "control"@) != Some(JsonView::Null)
}

/// What a board must be for its edits to be read: an object in the document,
/// as the configuration has it, whose sections are not `null`.
pub open spec fn board_there(s: Seq<char>, path: Seq<SegView>, ex: DutView) -> bool {
    document(s) matches Some(j) && tidy(j) && !is_scalar(j) && (json_at(j, path) matches Some(x)
        && dut_of(x) == Some(ex) && no_null_sections(x->Object_0))
}

/// How the name of a board is written.
pub open spec fn name_edit(ex: DutView, a: DutAnswersView) -> ScalarView {
    ScalarView {
        key: "dut_name"@,
        literal: quoted(a.dut_name),
        comment: Some(C_DUT_NAME@),
        desc: change_desc("DUT name"@, ex.dut_name, a.dut_name),
        before: None,
    }
}

pub proof fn lemma_name_spells(s: Seq<char>, path: Seq<SegView>, ex: DutView, a: DutAnswersView)
    requires
        board_there(s, path, ex),
        set_or_append(s, path, name_edit(ex, a)) is Ok,
    ensures
        ({
            let c = member_change(s, path, "dut_name"@, JsonView::Text(a.dut_name));
            &&& spells_one(s, set_or_append(s, path, name_edit(ex, a))->Ok_0.op, c)
            &&& within(c, path, "dut_name"@)
        }),
{
    reveal(spells_one);
    let w = JsonView::Text(a.dut_name);
    if let JsonView::Object(m) = json_at(document(s)->0, path)->0 {
        lemma_board_keys();
        lemma_c_dut_name();
        lemma_reads_quoted(a.dut_name);
        lemma_scalar_is_tidy(w);
        lemma_value_spells(s, path, m, name_edit(ex, a), w);
        lemma_member_change_within(s, path, "dut_name"@, w);
    }
}

} // verus!

//! The edits of a board: its name, port and user, its relay, and its advanced
//! keys. All of them together are read once they are applied.
use crate::advanced::{
    array_literal, comment_of, dut_owned, field_of, keywords, literal_of, scalar_literal,
    scalar_of, section_of, truth_of,
};
use crate::answered::lemma_block_starts;
use crate::answers::DutAnswersView;
use crate::append::lemma_json_behind;
use crate::board::{
    below, board_changes, board_there, lemma_board_keys, lemma_member_change_within,
    lemma_name_spells, lemma_one_edit_more, lemma_one_more, lemma_removal_spells,
    lemma_value_spells, lemma_within_apart, member_change, name_changes, name_edit,
    no_null_sections, on_track, port_changes, set_change, spells_one, user_changes, within,
};
use crate::board_keys::{board_sections, key_parts, lemma_board_section, lemma_dut_key};
use crate::changes::ChangeView;
use crate::config::{dut_of, member, DutView, RelayView};
use crate::current::dut_current_of;
use crate::edit::{entry_indent, EditView};
use crate::fixed_texts::{
    lemma_c_baudrate, lemma_c_crash_keywords, lemma_c_dut_dir, lemma_c_lock_dir,
    lemma_c_login_prompt, lemma_c_login_user, lemma_c_port, lemma_c_power_ch, lemma_c_power_off,
    lemma_c_reference_log_dut, lemma_c_relay_ch_aliases, lemma_c_relay_type, lemma_c_reset_time,
    lemma_c_rfc2217, lemma_c_uboot_char, lemma_relay_names, lemma_serial_names, lemma_target_names,
};
use crate::jsonc::{document, quoted, value_at, JsonView};
use crate::kept::{items_json, lemma_real_is_number, scalar_json};
use crate::locate::{close_at, open_at, value_span, SegView};
use crate::number::{decimal, real_value, unsigned};
use crate::pieces::{
    at, lemma_reads_decimal, lemma_reads_number, lemma_reads_quoted, lemma_spells_concat,
    lemma_spells_void, lemma_void_break, plain, reads, Members,
};
use crate::place::{is_name, is_scalar, json_at, lemma_values_are_found, named, tidy, under};
use crate::render::section_block;
use crate::spelling::lemma_scalar_spellable;
use crate::splice::lemma_value_bounds;
use crate::text::trimmed;
use crate::text_map::{distinct_keys, Pairs};
use crate::tidy::{
    lemma_array_is_tidy, lemma_object_is_tidy, lemma_relay_names_are_ascii, lemma_scalar_is_tidy,
};
use crate::together::{apart, lemma_found_is_said, path_of};
use crate::update::{planned, set_or_append, OpView, Plan, ScalarView};
use crate::update_dut::{
    absent_from, bad_field, dut_changes, dut_container, dut_key_action, dut_keys_from, dut_missing,
    dut_quick_changes, goes_before, groups_from, is_section_of, name_step, new_section, part,
    port_set, port_stays, port_step, put_sorted, quick_missing, relay_action, relay_changes,
    relay_diff, relay_step, removals, seen_before, set_lines, set_step, sets_of, settings,
    sorted_missing, user_set, user_stays, user_step, DutKeyAction, MissingView, RelayAction,
    RelayChangeView, SetView,
};
use crate::written::{
    lemma_reads_scalar, lemma_reads_texts, lemma_section_of_many, lemma_truths, quiet,
    writes_member,
};
use vstd::prelude::*;

verus! {

// ── What a literal spells ────────────────────────────────────────────
/// Whether JSON has a value for a literal.
pub open spec fn json_spells(literal: Seq<char>) -> bool {
    literal.len() > 0 && exists|w: JsonView| #[trigger] reads(literal, w) && tidy(w)
}

/// The value that a literal spells.
pub open spec fn spelled(literal: Seq<char>) -> JsonView {
    choose|w: JsonView| #[trigger] reads(literal, w) && tidy(w)
}

/// A literal spells one value only.
pub proof fn lemma_spelled(literal: Seq<char>, w: JsonView)
    requires
        reads(literal, w),
        tidy(w),
    ensures
        spelled(literal) == w,
{
    let v = spelled(literal);
    assert(reads(literal, v));
    let s = literal + seq![','];
    assert(s.subrange(0, literal.len() as int) =~= literal);
    assert(at(s, 0, literal));
    assert(s[literal.len() as int] == ',');
}

/// What an answer to an advanced key is written as is a JSON literal.
pub proof fn lemma_answer_is_json(key: Seq<char>, value: Seq<char>)
    ensures
        literal_of(key, value) matches Ok(Some(literal)) ==> json_spells(literal),
{
    let v = trimmed(value);
    if real_value(v) is Some {
        lemma_real_is_number(v);
    }
    if let Ok(Some(literal)) = literal_of(key, value) {
        if key == "serial.baudrate"@ {
            lemma_scalar_spellable(v);
            lemma_reads_scalar(scalar_of(v));
            lemma_json_spells(literal, scalar_json(scalar_of(v)));
        } else if key == "serial.rfc2217"@ {
            lemma_truths();
            lemma_json_spells(literal, JsonView::Bool(truth_of(v)->0));
        } else if literal == array_literal(keywords(v), 0) {
            let items = items_json(keywords(v));
            lemma_reads_texts(keywords(v), 0);
            assert forall|k: int| 0 <= k < items.len() implies tidy(#[trigger] items[k]) by {
                lemma_scalar_is_tidy(items[k]);
            }
            lemma_array_is_tidy(items);
            lemma_json_spells(literal, JsonView::Array(items));
        } else if literal == quoted(v) {
            lemma_reads_quoted(v);
            lemma_json_spells(literal, JsonView::Text(v));
        } else if real_value(v) matches Some(x) && literal == x.text {
            lemma_reads_number(literal);
            lemma_json_spells(literal, JsonView::Number(literal));
        } else if unsigned(v, u64::MAX as nat) matches Some(n) && literal == decimal(n) {
            lemma_reads_decimal(unsigned(v, u64::MAX as nat)->0);
            lemma_json_spells(literal, JsonView::Number(literal));
        } else {
            lemma_reads_decimal(3000);
            lemma_json_spells(literal, JsonView::Number(literal));
        }
    }
}

proof fn lemma_json_spells(literal: Seq<char>, w: JsonView)
    requires
        reads(literal, w),
        tidy(w) || is_scalar(w),
    ensures
        json_spells(literal),
{
    if is_scalar(w) {
        lemma_scalar_is_tidy(w);
    }
    if literal.len() == 0 {
        let s = seq![','];
        assert(s.subrange(0, 0) =~= literal);
        assert(at(s, 0, literal));
        assert(value_at(s, 0) == Some((w, 0int)));
        lemma_value_bounds(s, 0);
    }
}

// ── Places in a board ────────────────────────────────────────────────
/// A section and a field in it; without a section, a member of the board.
pub type Spot = (Seq<char>, Seq<char>);

/// The member of the board in which a spot lies.
pub open spec fn spot_name(x: Spot) -> Seq<char> {
    if x.0.len() == 0 {
        x.1
    } else {
        x.0
    }
}

/// Whether a change is one of a spot: of the field where its section is there,
/// of the whole section where it is not.
pub open spec fn in_spot(s: Seq<char>, c: ChangeView, path: Seq<SegView>, x: Spot) -> bool {
    let section = path.push(SegView::Key(x.0));
    if x.0.len() == 0 {
        within(c, path, x.1)
    } else if close_at(s, section) is Some {
        within(c, section, x.1)
    } else {
        within(c, path, x.0)
    }
}

/// Whether changes of two spots aim apart: in different members, or in
/// different fields of a section that is there.
pub open spec fn spots_apart(s: Seq<char>, path: Seq<SegView>, x: Spot, y: Spot) -> bool {
    ||| spot_name(x) != spot_name(y)
    ||| x.0 == y.0 && x.0.len() > 0 && close_at(s, path.push(SegView::Key(x.0))) is Some && x.1
        != y.1
}

proof fn lemma_within_section(c: ChangeView, path: Seq<SegView>, section: Seq<char>, field: Seq<char>)
    requires
        within(c, path.push(SegView::Key(section)), field),
    ensures
        within(c, path, section),
{
    let x = path.push(SegView::Key(section));
    let y = x.push(SegView::Key(field));
    let q = path_of(c);
    if under(y, q) {
        assert(q.take(x.len() as int) =~= x) by {
            assert forall|k: int| 0 <= k < x.len() implies q[k] == x[k] by {
                assert(q.take(y.len() as int)[k] == y[k]);
            }
        }
    } else {
        assert(x.take(x.len() as int) =~= x);
    }
}

proof fn lemma_spot_within(s: Seq<char>, c: ChangeView, path: Seq<SegView>, x: Spot)
    requires
        in_spot(s, c, path, x),
    ensures
        within(c, path, spot_name(x)),
{
    if x.0.len() > 0 && close_at(s, path.push(SegView::Key(x.0))) is Some {
        lemma_within_section(c, path, x.0, x.1);
    }
}

proof fn lemma_spots_apart(
    s: Seq<char>,
    c: ChangeView,
    d: ChangeView,
    path: Seq<SegView>,
    x: Spot,
    y: Spot,
)
    requires
        in_spot(s, c, path, x),
        in_spot(s, d, path, y),
        spots_apart(s, path, x, y),
    ensures
        apart(c, d),
{
    if spot_name(x) != spot_name(y) {
        lemma_spot_within(s, c, path, x);
        lemma_spot_within(s, d, path, y);
        lemma_within_apart(c, d, path, spot_name(x), spot_name(y));
    } else {
        lemma_within_apart(c, d, path.push(SegView::Key(x.0)), x.1, y.1);
    }
}

/// Whether a spot aims apart from all the others.
pub open spec fn spot_clear(s: Seq<char>, path: Seq<SegView>, used: Seq<Spot>, x: Spot) -> bool {
    forall|k: int| 0 <= k < used.len() ==> spots_apart(s, path, #[trigger] used[k], x)
}

/// The changes of a board behind others: those from number `n` on are changes
/// of its spots.
#[verifier::opaque]
pub open spec fn board_track(
    s: Seq<char>,
    ops: Seq<OpView>,
    cs: Seq<ChangeView>,
    n: int,
    path: Seq<SegView>,
    used: Seq<Spot>,
) -> bool {
    &&& on_track(s, ops, cs)
    &&& 0 <= n
    &&& cs.len() == n + used.len()
    &&& forall|k: int, d: ChangeView|
        0 <= k < n && below(d, path) ==> #[trigger] apart(cs[k], d)
    &&& forall|k: int| 0 <= k < used.len() ==> in_spot(s, cs[n + k], path, #[trigger] used[k])
}

pub proof fn lemma_within_below(c: ChangeView, path: Seq<SegView>, key: Seq<char>)
    requires
        within(c, path, key),
    ensures
        below(c, path),
{
    let x = path.push(SegView::Key(key));
    if under(x, path_of(c)) {
        let q = path_of(c);
        assert(q.take(path.len() as int) =~= path) by {
            assert forall|k: int| 0 <= k < path.len() implies q[k] == path[k] by {
                assert(q.take(x.len() as int)[k] == x[k]);
            }
        }
    } else {
        assert(path.take(path.len() as int) =~= path);
    }
}

/// One edit of a board more.
pub proof fn lemma_spot_pushed(
    s: Seq<char>,
    ops: Seq<OpView>,
    cs: Seq<ChangeView>,
    n: int,
    path: Seq<SegView>,
    used: Seq<Spot>,
    op: OpView,
    c: ChangeView,
    x: Spot,
)
    requires
        board_track(s, ops, cs, n, path, used),
        spells_one(s, op.op, c),
        in_spot(s, c, path, x),
        spot_clear(s, path, used, x),
    ensures
        board_track(s, ops.push(op), cs.push(c), n, path, used.push(x)),
{
    reveal(board_track);
    lemma_spot_within(s, c, path, x);
    lemma_within_below(c, path, spot_name(x));
    assert forall|k: int| 0 <= k < cs.len() implies apart(#[trigger] cs[k], c) by {
        if k >= n {
            assert(in_spot(s, cs[n + (k - n)], path, used[k - n]));
            lemma_spots_apart(s, cs[k], c, path, used[k - n], x);
        }
    }
    lemma_one_edit_more(s, ops, cs, op, c);
    let more = cs.push(c);
    let all = used.push(x);
    assert forall|k: int, d: ChangeView| 0 <= k < n && below(d, path) implies #[trigger] apart(
        more[k],
        d,
    ) by {
        assert(apart(cs[k], d));
    }
    assert forall|k: int| 0 <= k < all.len() implies in_spot(s, more[n + k], path, #[trigger] all[k]) by {
        if k < used.len() {
            assert(in_spot(s, cs[n + k], path, used[k]));
        }
    }
}

// ── Name, port and user ──────────────────────────────────────────────
/// The spot of the name, where the answer differs.
pub open spec fn name_spots(ex: DutView, a: DutAnswersView) -> Seq<Spot> {
    if ex.dut_name == a.dut_name {
        Seq::empty()
    } else {
        seq![(Seq::empty(), "dut_name"@)]
    }
}

/// The spot of a value of a section that is there.
pub open spec fn set_spot(s: Seq<char>, path: Seq<SegView>, x: Spot) -> Seq<Spot> {
    if close_at(s, path.push(SegView::Key(x.0))) is Some {
        seq![x]
    } else {
        Seq::empty()
    }
}

/// The spot of the port, where the answer differs and its section is there.
pub open spec fn port_spots(
    s: Seq<char>,
    path: Seq<SegView>,
    ex: DutView,
    a: DutAnswersView,
) -> Seq<Spot> {
    if port_stays(ex, a) {
        Seq::empty()
    } else {
        set_spot(s, path, ("serial"@, "port"@))
    }
}

/// The spot of the user, where the answer differs and its section is there.
pub open spec fn user_spots(
    s: Seq<char>,
    path: Seq<SegView>,
    ex: DutView,
    a: DutAnswersView,
) -> Seq<Spot> {
    if user_stays(ex, a) {
        Seq::empty()
    } else {
        set_spot(s, path, ("target"@, "login_user"@))
    }
}

/// The spots of the changes for name, port and user.
pub open spec fn board_spots(
    s: Seq<char>,
    path: Seq<SegView>,
    ex: DutView,
    a: DutAnswersView,
) -> Seq<Spot> {
    name_spots(ex, a) + port_spots(s, path, ex, a) + user_spots(s, path, ex, a)
}

proof fn lemma_spot_lengths()
    ensures
        "serial"@.len() > 0,
        "target"@.len() > 0,
        "relay"@.len() > 0,
        "dut_name"@ != "relay"@,
        "serial"@ != "relay"@,
        "target"@ != "relay"@,
{
    reveal_strlit("serial");
    reveal_strlit("target");
    reveal_strlit("relay");
    reveal_strlit("dut_name");
    assert("relay"@[0] == 'r');
    assert("serial"@[0] == 's');
    assert("target"@[0] == 't');
    assert("dut_name"@[0] == 'd');
}

proof fn lemma_name_track(
    s: Seq<char>,
    ops: Seq<OpView>,
    cs: Seq<ChangeView>,
    n: int,
    path: Seq<SegView>,
    ex: DutView,
    a: DutAnswersView,
)
    requires
        board_track(s, ops, cs, n, path, Seq::empty()),
        board_there(s, path, ex),
        name_step((ops, None), s, path, ex, a).1 is None,
    ensures
        board_track(
            s,
            name_step((ops, None), s, path, ex, a).0,
            cs + name_changes(s, path, ex, a),
            n,
            path,
            name_spots(ex, a),
        ),
{
    let here = name_changes(s, path, ex, a);
    let none = Seq::<Spot>::empty();
    if ex.dut_name == a.dut_name {
        assert(cs + here =~= cs);
    } else {
        let x: Spot = (Seq::empty(), "dut_name"@);
        lemma_name_spells(s, path, ex, a);
        let op = set_or_append(s, path, name_edit(ex, a))->Ok_0;
        lemma_spot_pushed(s, ops, cs, n, path, none, op, here[0], x);
        assert(cs.push(here[0]) =~= cs + here);
        assert(none.push(x) =~= name_spots(ex, a));
    }
}

/// One value of a section, written where the section is there.
proof fn lemma_set_track(
    s: Seq<char>,
    ops: Seq<OpView>,
    cs: Seq<ChangeView>,
    n: int,
    path: Seq<SegView>,
    used: Seq<Spot>,
    ex: DutView,
    section: Seq<char>,
    x: SetView,
)
    requires
        board_track(s, ops, cs, n, path, used),
        board_there(s, path, ex),
        board_sections().contains(section),
        section.len() > 0,
        set_fits(x),
        spot_clear(s, path, used, (section, x.key)),
        set_step((ops, None), s, path, section, x).1 is None,
    ensures
        board_track(
            s,
            set_step((ops, None), s, path, section, x).0,
            cs + set_change(s, path, section, x.key, spelled(x.literal)),
            n,
            path,
            used + set_spot(s, path, (section, x.key)),
        ),
{
    let container = path.push(SegView::Key(section));
    let w = spelled(x.literal);
    let here = set_change(s, path, section, x.key, w);
    let spot: Spot = (section, x.key);
    if close_at(s, container) is Some {
        lemma_section_there(s, path, ex, section);
        lemma_set_spells(s, container, x);
        lemma_member_change_within(s, container, x.key, w);
        let op = set_or_append(s, container, set_edit(x))->Ok_0;
        lemma_spot_pushed(s, ops, cs, n, path, used, op, here[0], spot);
        assert(cs.push(here[0]) =~= cs + here);
        assert(used.push(spot) =~= used + set_spot(s, path, spot));
    } else {
        assert(cs + here =~= cs);
        assert(used + set_spot(s, path, spot) =~= used);
    }
}

/// How the port is written is what JSON can spell.
proof fn lemma_port_set(ex: DutView, a: DutAnswersView)
    ensures
        set_fits(port_set(ex, a)),
        spelled(port_set(ex, a).literal) == scalar_json(scalar_of(a.serial_port)),
        board_sections().contains("serial"@),
{
    let v = scalar_of(a.serial_port);
    lemma_board_keys();
    lemma_c_port();
    lemma_serial_names();
    lemma_scalar_spellable(a.serial_port);
    lemma_reads_scalar(v);
    lemma_scalar_is_tidy(scalar_json(v));
    lemma_json_spells(scalar_literal(v), scalar_json(v));
    lemma_spelled(scalar_literal(v), scalar_json(v));
    assert(board_sections()[0] == "serial"@);
}

/// How the user is written is what JSON can spell.
proof fn lemma_user_set(ex: DutView, a: DutAnswersView)
    ensures
        set_fits(user_set(ex, a)),
        spelled(user_set(ex, a).literal) == JsonView::Text(a.login_user),
        board_sections().contains("target"@),
{
    let w = JsonView::Text(a.login_user);
    lemma_board_keys();
    lemma_c_login_user();
    lemma_target_names();
    lemma_reads_quoted(a.login_user);
    lemma_scalar_is_tidy(w);
    lemma_json_spells(quoted(a.login_user), w);
    lemma_spelled(quoted(a.login_user), w);
    assert(board_sections()[1] == "target"@);
}

proof fn lemma_port_track(
    s: Seq<char>,
    ops: Seq<OpView>,
    cs: Seq<ChangeView>,
    n: int,
    path: Seq<SegView>,
    ex: DutView,
    a: DutAnswersView,
)
    requires
        board_track(s, ops, cs, n, path, name_spots(ex, a)),
        board_there(s, path, ex),
        port_step((ops, None), s, path, ex, a).1 is None,
    ensures
        board_track(
            s,
            port_step((ops, None), s, path, ex, a).0,
            cs + port_changes(s, path, ex, a),
            n,
            path,
            name_spots(ex, a) + port_spots(s, path, ex, a),
        ),
{
    let used = name_spots(ex, a);
    if port_stays(ex, a) {
        assert(cs + port_changes(s, path, ex, a) =~= cs);
        assert(used + port_spots(s, path, ex, a) =~= used);
    } else {
        lemma_board_keys();
        lemma_spot_lengths();
        lemma_port_set(ex, a);
        lemma_set_track(s, ops, cs, n, path, used, ex, "serial"@, port_set(ex, a));
    }
}

proof fn lemma_user_track(
    s: Seq<char>,
    ops: Seq<OpView>,
    cs: Seq<ChangeView>,
    n: int,
    path: Seq<SegView>,
    ex: DutView,
    a: DutAnswersView,
)
    requires
        board_track(s, ops, cs, n, path, name_spots(ex, a) + port_spots(s, path, ex, a)),
        board_there(s, path, ex),
        user_step((ops, None), s, path, ex, a).1 is None,
    ensures
        board_track(
            s,
            user_step((ops, None), s, path, ex, a).0,
            cs + user_changes(s, path, ex, a),
            n,
            path,
            board_spots(s, path, ex, a),
        ),
{
    let used = name_spots(ex, a) + port_spots(s, path, ex, a);
    if user_stays(ex, a) {
        assert(cs + user_changes(s, path, ex, a) =~= cs);
        assert(board_spots(s, path, ex, a) =~= used);
    } else {
        lemma_board_keys();
        lemma_spot_lengths();
        lemma_user_set(ex, a);
        lemma_set_track(s, ops, cs, n, path, used, ex, "target"@, user_set(ex, a));
    }
}

// ── Many fields of one object ────────────────────────────────────────
/// Whether a value to be set can be written: a plain name, a literal that JSON
/// has a value for, and a comment that keeps to its line.
pub open spec fn set_fits(x: SetView) -> bool {
    plain(x.key) && is_name(x.key) && json_spells(x.literal) && quiet(x.comment)
}

/// How a value is set.
pub open spec fn set_edit(x: SetView) -> ScalarView {
    ScalarView { key: x.key, literal: x.literal, comment: x.comment, desc: x.desc, before: None }
}

/// The changes that set values of an object, from number `i` on.
pub open spec fn set_changes(
    s: Seq<char>,
    container: Seq<SegView>,
    sets: Seq<SetView>,
    i: int,
) -> Seq<ChangeView>
    decreases sets.len() - i,
{
    if i < 0 || i >= sets.len() {
        Seq::empty()
    } else {
        seq![member_change(s, container, sets[i].key, spelled(sets[i].literal))] + set_changes(
            s,
            container,
            sets,
            i + 1,
        )
    }
}

/// The spots of the values of a section, from number `i` on.
pub open spec fn set_spots(section: Seq<char>, sets: Seq<SetView>, i: int) -> Seq<Spot>
    decreases sets.len() - i,
{
    if i < 0 || i >= sets.len() {
        Seq::empty()
    } else {
        seq![(section, sets[i].key)] + set_spots(section, sets, i + 1)
    }
}

/// Whether the keys of the values differ.
pub open spec fn sets_differ(sets: Seq<SetView>) -> bool {
    forall|i: int, k: int|
        0 <= i < k < sets.len() ==> (#[trigger] sets[i]).key != (#[trigger] sets[k]).key
}

/// The edit that writes a value of an object spells that change.
pub proof fn lemma_set_spells(s: Seq<char>, container: Seq<SegView>, x: SetView)
    requires
        document(s) matches Some(j) && tidy(j) && !is_scalar(j) && (json_at(j, container) matches Some(
            v,
        ) && v is Object),
        set_fits(x),
        set_or_append(s, container, set_edit(x)) is Ok,
    ensures
        spells_one(
            s,
            set_or_append(s, container, set_edit(x))->Ok_0.op,
            member_change(s, container, x.key, spelled(x.literal)),
        ),
{
    reveal(spells_one);
    let w = spelled(x.literal);
    if let JsonView::Object(m) = json_at(document(s)->0, container)->0 {
        lemma_value_spells(s, container, m, set_edit(x), w);
    }
}

/// Values of a section that is there.
proof fn lemma_settings_track(
    s: Seq<char>,
    p: Plan,
    cs: Seq<ChangeView>,
    n: int,
    path: Seq<SegView>,
    used: Seq<Spot>,
    section: Seq<char>,
    sets: Seq<SetView>,
    i: int,
)
    requires
        p.1 is None,
        board_track(s, p.0, cs, n, path, used),
        document(s) matches Some(j) && tidy(j) && !is_scalar(j) && (json_at(
            j,
            path.push(SegView::Key(section)),
        ) matches Some(v) && v is Object),
        close_at(s, path.push(SegView::Key(section))) is Some,
        section.len() > 0,
        sets_differ(sets),
        0 <= i <= sets.len(),
        forall|k: int| i <= k < sets.len() ==> set_fits(#[trigger] sets[k]),
        forall|k: int|
            i <= k < sets.len() ==> spot_clear(s, path, used, (section, (#[trigger] sets[k]).key)),
        settings(p, s, path.push(SegView::Key(section)), sets, i).1 is None,
    ensures
        board_track(
            s,
            settings(p, s, path.push(SegView::Key(section)), sets, i).0,
            cs + set_changes(s, path.push(SegView::Key(section)), sets, i),
            n,
            path,
            used + set_spots(section, sets, i),
        ),
    decreases sets.len() - i,
{
    let container = path.push(SegView::Key(section));
    if i < sets.len() {
        let e = set_edit(sets[i]);
        let next = planned(p.0, set_or_append(s, container, e));
        assert(settings(p, s, container, sets, i) == settings(next, s, container, sets, i + 1));
        if next.1 is Some {
            assert(settings(next, s, container, sets, i + 1) == next);
        }
        let x: Spot = (section, sets[i].key);
        let c = member_change(s, container, sets[i].key, spelled(sets[i].literal));
        assert(set_fits(sets[i]));
        lemma_set_spells(s, container, sets[i]);
        lemma_member_change_within(s, container, sets[i].key, spelled(sets[i].literal));
        lemma_spot_pushed(
            s,
            p.0,
            cs,
            n,
            path,
            used,
            set_or_append(s, container, e)->Ok_0,
            c,
            x,
        );
        let more = used.push(x);
        assert forall|k: int| i + 1 <= k < sets.len() implies spot_clear(
            s,
            path,
            more,
            (section, (#[trigger] sets[k]).key),
        ) by {
            let y: Spot = (section, sets[k].key);
            assert(spot_clear(s, path, used, y));
            assert forall|l: int| 0 <= l < more.len() implies spots_apart(
                s,
                path,
                #[trigger] more[l],
                y,
            ) by {
                if l < used.len() {
                    assert(more[l] == used[l]);
                }
            }
        }
        lemma_settings_track(s, next, cs.push(c), n, path, more, section, sets, i + 1);
        assert(cs.push(c) + set_changes(s, container, sets, i + 1) =~= cs + set_changes(
            s,
            container,
            sets,
            i,
        ));
        assert(more + set_spots(section, sets, i + 1) =~= used + set_spots(section, sets, i));
    } else {
        assert(cs + set_changes(s, container, sets, i) =~= cs);
        assert(used + set_spots(section, sets, i) =~= used);
    }
}

/// The members that values make.
pub open spec fn set_members(sets: Seq<SetView>) -> Members {
    Seq::new(sets.len(), |i: int| (sets[i].key, spelled(sets[i].literal)))
}

/// One section more.
pub open spec fn section_change(
    path: Seq<SegView>,
    section: Seq<char>,
    sets: Seq<SetView>,
) -> ChangeView {
    ChangeView::Members { path, added: seq![(section, JsonView::Object(set_members(sets)))] }
}

proof fn lemma_set_members(sets: Seq<SetView>)
    requires
        sets_differ(sets),
        forall|k: int| 0 <= k < sets.len() ==> set_fits(#[trigger] sets[k]),
    ensures
        tidy(JsonView::Object(set_members(sets))),
        set_lines(sets).len() == set_members(sets).len(),
        forall|i: int|
            0 <= i < sets.len() ==> writes_member(
                #[trigger] set_lines(sets)[i],
                set_members(sets)[i],
            ),
{
    let m = set_members(sets);
    assert forall|k: int| 0 <= k < m.len() implies is_name((#[trigger] m[k]).0) && tidy(m[k].1) by {
        assert(set_fits(sets[k]));
    }
    assert forall|i: int, k: int| 0 <= i < k < m.len() implies (#[trigger] m[i]).0 != (
    #[trigger] m[k]).0 by {
        assert(sets[i].key != sets[k].key);
    }
    assert(named(m));
    lemma_object_is_tidy(m);
    assert forall|i: int| 0 <= i < sets.len() implies writes_member(
        #[trigger] set_lines(sets)[i],
        m[i],
    ) by {
        assert(set_fits(sets[i]));
    }
}

/// A section that is not there.
pub proof fn lemma_section_track(
    s: Seq<char>,
    ops: Seq<OpView>,
    cs: Seq<ChangeView>,
    n: int,
    path: Seq<SegView>,
    used: Seq<Spot>,
    section: Seq<char>,
    sets: Seq<SetView>,
)
    requires
        board_track(s, ops, cs, n, path, used),
        document(s) matches Some(j) && tidy(j) && !is_scalar(j) && (json_at(j, path) matches Some(v)
            && v is Object && member(v->Object_0, section) is None),
        close_at(s, path.push(SegView::Key(section))) is None,
        section.len() > 0,
        plain(section),
        is_name(section),
        sets_differ(sets),
        forall|k: int| 0 <= k < sets.len() ==> set_fits(#[trigger] sets[k]),
        spot_clear(s, path, used, (section, Seq::empty())),
        new_section(ops, s, path, section, sets).1 is None,
    ensures
        board_track(
            s,
            new_section(ops, s, path, section, sets).0,
            cs.push(section_change(path, section, sets)),
            n,
            path,
            used.push((section, Seq::empty())),
        ),
{
    let j = document(s)->0;
    let m = json_at(j, path)->0->Object_0;
    let k = entry_indent(s, path)->0;
    let lines = set_lines(sets);
    let block = section_block(section, lines, k);
    let inside = JsonView::Object(set_members(sets));
    let c = section_change(path, section, sets);
    let p = new_section(ops, s, path, section, sets);
    lemma_set_members(sets);
    assert(spells_one(s, EditView::AppendBlock { path, block }, c)) by {
        reveal(spells_one);
        lemma_section_of_many(section, lines, set_members(sets), k);
        lemma_void_break();
        lemma_spells_void(seq!['\n']);
        lemma_spells_concat(block, seq![(section, inside)], seq!['\n'], Seq::empty());
        assert(seq![(section, inside)] + Seq::<(Seq<char>, JsonView)>::empty() =~= seq![
            (section, inside),
        ]);
        lemma_block_starts(section, lines, k);
        lemma_one_more(j, path, m, section, inside);
    }
    assert(in_spot(s, c, path, (section, Seq::empty())));
    lemma_spot_pushed(s, ops, cs, n, path, used, p.0.last(), c, (section, Seq::empty()));
    assert(p.0 =~= ops.push(p.0.last()));
}

// ── The relay ────────────────────────────────────────────────────────
/// Whether a value comes from one of the first `n` relay values.
spec fn comes_from(x: SetView, c: Seq<RelayChangeView>, n: int) -> bool {
    json_spells(x.literal) && exists|k: int|
        0 <= k < n && k < c.len() && x.key == (#[trigger] c[k]).key && x.comment == c[k].comment
}

proof fn lemma_relay_literal(c: RelayChangeView)
    ensures
        relay_action(c) matches RelayAction::Write(x) ==> json_spells(x.literal),
{
    let t = trimmed(c.answer);
    if c.key == "type"@ {
        lemma_reads_quoted(t);
        lemma_json_spells(quoted(t), JsonView::Text(t));
    } else {
        lemma_answer_is_json("relay."@ + c.key, t);
    }
}

proof fn lemma_relay_sets(
    c: Seq<RelayChangeView>,
    i: int,
    sets: Seq<SetView>,
    unsets: Seq<(Seq<char>, Seq<char>)>,
)
    requires
        0 <= i <= c.len(),
        forall|k: int, l: int|
            0 <= k < l < c.len() ==> (#[trigger] c[k]).key != (#[trigger] c[l]).key,
        sets_differ(sets),
        forall|k: int| 0 <= k < sets.len() ==> comes_from(#[trigger] sets[k], c, i),
    ensures
        ({
            let (all, _, _) = relay_diff(c, i, sets, unsets);
            &&& sets_differ(all)
            &&& forall|k: int|
                0 <= k < all.len() ==> comes_from(#[trigger] all[k], c, c.len() as int)
        }),
    decreases c.len() - i,
{
    if i < c.len() {
        assert forall|k: int| 0 <= k < sets.len() implies comes_from(
            #[trigger] sets[k],
            c,
            i + 1,
        ) by {
            assert(comes_from(sets[k], c, i));
        }
        match relay_action(c[i]) {
            RelayAction::Nothing => {
                lemma_relay_sets(c, i + 1, sets, unsets);
            },
            RelayAction::Write(x) => {
                let more = sets.push(x);
                assert(comes_from(x, c, i + 1)) by {
                    assert(x.key == c[i].key && x.comment == c[i].comment);
                    lemma_relay_literal(c[i]);
                }
                assert forall|k: int, l: int| 0 <= k < l < more.len() implies (
                #[trigger] more[k]).key != (#[trigger] more[l]).key by {
                    assert(comes_from(sets[k], c, i));
                }
                lemma_relay_sets(c, i + 1, more, unsets);
            },
            RelayAction::Remove(k, d) => {
                lemma_relay_sets(c, i + 1, sets, unsets.push((k, d)));
            },
            RelayAction::Fail(e) => {
                assert forall|k: int| 0 <= k < sets.len() implies comes_from(
                    #[trigger] sets[k],
                    c,
                    c.len() as int,
                ) by {
                    assert(comes_from(sets[k], c, i));
                }
            },
        }
    } else {
        assert forall|k: int| 0 <= k < sets.len() implies comes_from(
            #[trigger] sets[k],
            c,
            c.len() as int,
        ) by {
            assert(comes_from(sets[k], c, i));
        }
    }
}

/// The keys of the relay values differ.
proof fn lemma_relay_keys_differ(ex: Option<RelayView>, a: DutAnswersView)
    ensures
        forall|k: int, l: int|
            0 <= k < l < relay_changes(ex, a).len() ==> (#[trigger] relay_changes(ex, a)[k]).key
                != (#[trigger] relay_changes(ex, a)[l]).key,
{
    reveal_strlit("type");
    reveal_strlit("port");
    reveal_strlit("reset_ch");
    reveal_strlit("download_ch");
    reveal_strlit("power_ch");
    reveal_strlit("reset_time_ms");
    reveal_strlit("power_off_time_ms");
    assert("type"@.len() == 4 && "type"@[0] == 't');
    assert("port"@.len() == 4 && "port"@[0] == 'p');
    assert("reset_ch"@.len() == 8 && "reset_ch"@[0] == 'r');
    assert("download_ch"@.len() == 11);
    assert("power_ch"@.len() == 8 && "power_ch"@[0] == 'p');
    assert("reset_time_ms"@.len() == 13);
    assert("power_off_time_ms"@.len() == 17);
}

/// The keys of the relay values are plain names, and their comments keep to
/// their lines.
proof fn lemma_relay_values_fit(ex: Option<RelayView>, a: DutAnswersView)
    ensures
        forall|k: int|
            0 <= k < relay_changes(ex, a).len() ==> plain((#[trigger] relay_changes(ex, a)[k]).key)
                && is_name(relay_changes(ex, a)[k].key) && quiet(relay_changes(ex, a)[k].comment),
{
    lemma_relay_names();
    lemma_serial_names();
    lemma_relay_names_are_ascii();
    lemma_c_relay_type();
    lemma_c_relay_ch_aliases();
    lemma_c_power_ch();
    lemma_c_reset_time();
    lemma_c_power_off();
}

/// The values that are written to a relay.
pub open spec fn relay_sets(ex: DutView, a: DutAnswersView) -> Seq<SetView> {
    let (sets, _, _) = relay_diff(relay_changes(ex.relay, a), 0, Seq::empty(), Seq::empty());
    sets
}

/// The values that are taken out of a relay.
pub open spec fn relay_unsets(ex: DutView, a: DutAnswersView) -> Seq<(Seq<char>, Seq<char>)> {
    let (_, unsets, _) = relay_diff(relay_changes(ex.relay, a), 0, Seq::empty(), Seq::empty());
    unsets
}

/// Whether the answers for the relay can be read back: each value that they
/// take out of a relay stands there under its own name, not under another one
/// that is read in its place.
#[verifier::opaque]
pub open spec fn relay_asks(
    s: Seq<char>,
    path: Seq<SegView>,
    ex: DutView,
    a: DutAnswersView,
) -> bool {
    let relay = path.push(SegView::Key("relay"@));
    let unsets = relay_unsets(ex, a);
    a.relay_gate && close_at(s, relay) is Some ==> forall|k: int|
        0 <= k < unsets.len() ==> value_span(
            s,
            relay.push(SegView::Key((#[trigger] unsets[k]).0)),
        ) is Some
}

/// The changes that take values out of a section, from number `i` on.
pub open spec fn unset_changes(
    container: Seq<SegView>,
    unsets: Seq<(Seq<char>, Seq<char>)>,
    i: int,
) -> Seq<ChangeView>
    decreases unsets.len() - i,
{
    if i < 0 || i >= unsets.len() {
        Seq::empty()
    } else {
        seq![ChangeView::Gone { path: container, key: unsets[i].0 }] + unset_changes(
            container,
            unsets,
            i + 1,
        )
    }
}

/// The spots of values that are taken out, from number `i` on.
pub open spec fn unset_spots(
    section: Seq<char>,
    unsets: Seq<(Seq<char>, Seq<char>)>,
    i: int,
) -> Seq<Spot>
    decreases unsets.len() - i,
{
    if i < 0 || i >= unsets.len() {
        Seq::empty()
    } else {
        seq![(section, unsets[i].0)] + unset_spots(section, unsets, i + 1)
    }
}

/// Values that are taken out of a section that is there, from number `i` on.
proof fn lemma_removals_track(
    s: Seq<char>,
    ops: Seq<OpView>,
    cs: Seq<ChangeView>,
    n: int,
    path: Seq<SegView>,
    used: Seq<Spot>,
    section: Seq<char>,
    unsets: Seq<(Seq<char>, Seq<char>)>,
    i: int,
)
    requires
        document(s) matches Some(j) && tidy(j) && !is_scalar(j),
        board_track(s, ops, cs, n, path, used),
        section.len() > 0,
        close_at(s, path.push(SegView::Key(section))) is Some,
        0 <= i <= unsets.len(),
        unsets_differ(unsets),
        forall|k: int|
            0 <= k < unsets.len() ==> value_span(
                s,
                path.push(SegView::Key(section)).push(SegView::Key((#[trigger] unsets[k]).0)),
            ) is Some,
        forall|k: int|
            i <= k < unsets.len() ==> spot_clear(s, path, used, (section, (#[trigger] unsets[k]).0)),
    ensures
        ({
            let container = path.push(SegView::Key(section));
            board_track(
                s,
                removals(ops, container, unsets, i),
                cs + unset_changes(container, unsets, i),
                n,
                path,
                used + unset_spots(section, unsets, i),
            )
        }),
    decreases unsets.len() - i,
{
    let container = path.push(SegView::Key(section));
    if i < unsets.len() {
        let key = unsets[i].0;
        let x: Spot = (section, key);
        let c = ChangeView::Gone { path: container, key };
        let op = OpView { op: EditView::RemoveKey { path: container, key }, desc: unsets[i].1 };
        lemma_removal_spells(s, container, key);
        lemma_spot_pushed(s, ops, cs, n, path, used, op, c, x);
        let more = used.push(x);
        assert forall|k: int| i + 1 <= k < unsets.len() implies spot_clear(
            s,
            path,
            more,
            (section, (#[trigger] unsets[k]).0),
        ) by {
            let y: Spot = (section, unsets[k].0);
            assert(spot_clear(s, path, used, y));
            assert(unsets[i].0 != unsets[k].0);
            assert forall|l: int| 0 <= l < more.len() implies spots_apart(
                s,
                path,
                #[trigger] more[l],
                y,
            ) by {
                if l < used.len() {
                    assert(more[l] == used[l]);
                }
            }
        }
        lemma_removals_track(s, ops.push(op), cs.push(c), n, path, more, section, unsets, i + 1);
        assert(cs.push(c) + unset_changes(container, unsets, i + 1) =~= cs + unset_changes(
            container,
            unsets,
            i,
        ));
        assert(more + unset_spots(section, unsets, i + 1) =~= used + unset_spots(
            section,
            unsets,
            i,
        ));
    } else {
        assert(cs + unset_changes(container, unsets, i) =~= cs);
        assert(used + unset_spots(section, unsets, i) =~= used);
    }
}

/// The spots of values that are taken out.
proof fn lemma_unset_spots(section: Seq<char>, unsets: Seq<(Seq<char>, Seq<char>)>, i: int)
    requires
        0 <= i <= unsets.len(),
    ensures
        unset_spots(section, unsets, i).len() == unsets.len() - i,
        forall|k: int|
            0 <= k < unset_spots(section, unsets, i).len() ==> #[trigger] unset_spots(
                section,
                unsets,
                i,
            )[k] == (section, unsets[i + k].0),
    decreases unsets.len() - i,
{
    if i < unsets.len() {
        lemma_unset_spots(section, unsets, i + 1);
        let rest = unset_spots(section, unsets, i + 1);
        assert forall|k: int| 0 <= k < unset_spots(section, unsets, i).len() implies #[trigger] unset_spots(
            section,
            unsets,
            i,
        )[k] == (section, unsets[i + k].0) by {
            if k > 0 {
                assert(unset_spots(section, unsets, i)[k] == rest[k - 1]);
            }
        }
    }
}

/// Whether no two values that are taken out have the same key.
spec fn unsets_differ(unsets: Seq<(Seq<char>, Seq<char>)>) -> bool {
    forall|k: int, l: int|
        0 <= k < l < unsets.len() ==> (#[trigger] unsets[k]).0 != (#[trigger] unsets[l]).0
}

/// Whether a key is that of one of the first `n` relay values.
spec fn key_from(key: Seq<char>, c: Seq<RelayChangeView>, n: int) -> bool {
    exists|k: int| 0 <= k < n && k < c.len() && key == (#[trigger] c[k]).key
}

/// Whether keys are those of the first `n` relay values, each of one of them.
spec fn keys_come_from(
    sets: Seq<SetView>,
    unsets: Seq<(Seq<char>, Seq<char>)>,
    c: Seq<RelayChangeView>,
    n: int,
) -> bool {
    &&& unsets_differ(unsets)
    &&& forall|k: int| 0 <= k < sets.len() ==> key_from((#[trigger] sets[k]).key, c, n)
    &&& forall|k: int| 0 <= k < unsets.len() ==> key_from((#[trigger] unsets[k]).0, c, n)
    &&& forall|k: int, l: int|
        0 <= k < sets.len() && 0 <= l < unsets.len() ==> (#[trigger] sets[k]).key != (
        #[trigger] unsets[l]).0
}

/// No value of a relay is both written and taken out.
proof fn lemma_relay_unsets(
    c: Seq<RelayChangeView>,
    i: int,
    sets: Seq<SetView>,
    unsets: Seq<(Seq<char>, Seq<char>)>,
)
    requires
        0 <= i <= c.len(),
        forall|k: int, l: int|
            0 <= k < l < c.len() ==> (#[trigger] c[k]).key != (#[trigger] c[l]).key,
        keys_come_from(sets, unsets, c, i),
    ensures
        ({
            let (written, gone, _) = relay_diff(c, i, sets, unsets);
            keys_come_from(written, gone, c, c.len() as int)
        }),
    decreases c.len() - i,
{
    assert forall|key: Seq<char>, n: int| i <= n && #[trigger] key_from(key, c, i) implies #[trigger] key_from(
        key,
        c,
        n,
    ) by {
        let k = choose|k: int| 0 <= k < i && k < c.len() && key == (#[trigger] c[k]).key;
        assert(c[k].key == key);
    }
    assert(keys_come_from(sets, unsets, c, c.len() as int));
    if i < c.len() {
        assert(keys_come_from(sets, unsets, c, i + 1));
        match relay_action(c[i]) {
            RelayAction::Nothing => {
                lemma_relay_unsets(c, i + 1, sets, unsets);
            },
            RelayAction::Write(x) => {
                assert(x.key == c[i].key);
                assert(key_from(x.key, c, i + 1));
                let more = sets.push(x);
                assert forall|k: int, l: int| 0 <= k < more.len() && 0 <= l < unsets.len() implies (
                #[trigger] more[k]).key != (#[trigger] unsets[l]).0 by {
                    assert(key_from(unsets[l].0, c, i));
                }
                lemma_relay_unsets(c, i + 1, more, unsets);
            },
            RelayAction::Remove(key, desc) => {
                assert(key == c[i].key);
                assert(key_from(key, c, i + 1));
                let more = unsets.push((key, desc));
                assert forall|k: int, l: int| 0 <= k < l < more.len() implies (#[trigger] more[k]).0
                    != (#[trigger] more[l]).0 by {
                    assert(key_from(unsets[k].0, c, i));
                }
                assert forall|k: int, l: int| 0 <= k < sets.len() && 0 <= l < more.len() implies (
                #[trigger] sets[k]).key != (#[trigger] more[l]).0 by {
                    assert(key_from(sets[k].key, c, i));
                }
                lemma_relay_unsets(c, i + 1, sets, more);
            },
            RelayAction::Fail(e) => {},
        }
    }
}

/// The changes that the answers for the relay ask for.
#[verifier::opaque]
pub open spec fn relay_changes_of(
    s: Seq<char>,
    path: Seq<SegView>,
    ex: DutView,
    a: DutAnswersView,
) -> Seq<ChangeView> {
    let relay = path.push(SegView::Key("relay"@));
    let sets = relay_sets(ex, a);
    if !a.relay_gate {
        Seq::empty()
    } else if close_at(s, relay) is Some {
        unset_changes(relay, relay_unsets(ex, a), 0) + set_changes(s, relay, sets, 0)
    } else if sets.len() > 0 {
        seq![section_change(path, "relay"@, sets)]
    } else {
        Seq::empty()
    }
}

/// The spots of the changes for the relay.
pub open spec fn relay_spots(
    s: Seq<char>,
    path: Seq<SegView>,
    ex: DutView,
    a: DutAnswersView,
) -> Seq<Spot> {
    let relay = path.push(SegView::Key("relay"@));
    let sets = relay_sets(ex, a);
    if !a.relay_gate {
        Seq::empty()
    } else if close_at(s, relay) is Some {
        unset_spots("relay"@, relay_unsets(ex, a), 0) + set_spots("relay"@, sets, 0)
    } else if sets.len() > 0 {
        seq![("relay"@, Seq::empty())]
    } else {
        Seq::empty()
    }
}

/// No value of a relay is set twice.
pub proof fn lemma_relay_sets_apart(ex: DutView, a: DutAnswersView)
    requires
        a.relay_gate,
    ensures
        sets_differ(relay_sets(ex, a)),
{
    lemma_relay_sets_fit(Seq::empty(), Seq::empty(), ex, a);
}

proof fn lemma_relay_sets_fit(
    s: Seq<char>,
    path: Seq<SegView>,
    ex: DutView,
    a: DutAnswersView,
)
    requires
        a.relay_gate,
    ensures
        sets_differ(relay_sets(ex, a)),
        unsets_differ(relay_unsets(ex, a)),
        forall|k: int, l: int|
            0 <= k < relay_sets(ex, a).len() && 0 <= l < relay_unsets(ex, a).len() ==> (
            #[trigger] relay_sets(ex, a)[k]).key != (#[trigger] relay_unsets(ex, a)[l]).0,
        forall|k: int|
            0 <= k < relay_sets(ex, a).len() ==> set_fits(#[trigger] relay_sets(ex, a)[k]),
{
    let c = relay_changes(ex.relay, a);
    let sets = relay_sets(ex, a);
    lemma_relay_keys_differ(ex.relay, a);
    lemma_relay_unsets(c, 0, Seq::empty(), Seq::empty());
    lemma_relay_sets(c, 0, Seq::empty(), Seq::empty());
    lemma_relay_values_fit(ex.relay, a);
    assert forall|k: int| 0 <= k < sets.len() implies set_fits(#[trigger] sets[k]) by {
        assert(comes_from(sets[k], c, c.len() as int));
        assert(json_spells(sets[k].literal));
    }
}

/// Whether the spots are of what comes before the relay.
spec fn before_relay(
    s: Seq<char>,
    path: Seq<SegView>,
    ex: DutView,
    a: DutAnswersView,
    used: Seq<Spot>,
) -> bool {
    forall|k: int|
        0 <= k < used.len() ==> first_fits(s, path, ex, a, #[trigger] used[k]) && spot_name(used[k])
            != "relay"@
}

proof fn lemma_relay_clear(
    s: Seq<char>,
    path: Seq<SegView>,
    ex: DutView,
    a: DutAnswersView,
    used: Seq<Spot>,
    x: Spot,
)
    requires
        spot_name(x) == "relay"@,
        before_relay(s, path, ex, a, used),
    ensures
        spot_clear(s, path, used, x),
{
    assert forall|k: int| 0 <= k < used.len() implies spots_apart(s, path, #[trigger] used[k], x) by {
        assert(spot_name(used[k]) != "relay"@);
    }
}

/// What the document has where a board has its relay.
proof fn lemma_relay_there(s: Seq<char>, path: Seq<SegView>, ex: DutView, a: DutAnswersView)
    requires
        board_there(s, path, ex),
    ensures
        ({
            let relay = path.push(SegView::Key("relay"@));
            let m = json_at(document(s)->0, path)->0->Object_0;
            &&& close_at(s, relay) is Some ==> (json_at(document(s)->0, relay) matches Some(v)
                && v is Object)
            &&& close_at(s, relay) is None ==> member(m, "relay"@) is None
        }),
{
    let j = document(s)->0;
    let key = SegView::Key("relay"@);
    let relay = path.push(key);
    let x = json_at(j, path)->0;
    lemma_found_is_said(s, relay);
    lemma_brackets_go_together(s, relay);
    lemma_json_behind(j, path, x, key);
    if let JsonView::Object(m) = x {
        if let Some(v) = member(m, "relay"@) {
            assert(json_at(v, seq![key].drop_first()) == Some(v));
        }
    }
}

/// A container that opens closes.
pub proof fn lemma_brackets_go_together(s: Seq<char>, path: Seq<SegView>)
    requires
        document(s) matches Some(j) && tidy(j) && !is_scalar(j),
    ensures
        close_at(s, path) is Some <==> open_at(s, path) is Some,
{
    lemma_values_are_found(s, path);
}

/// The relay of a board.
proof fn lemma_relay_track(
    s: Seq<char>,
    ops: Seq<OpView>,
    cs: Seq<ChangeView>,
    n: int,
    path: Seq<SegView>,
    used: Seq<Spot>,
    ex: DutView,
    a: DutAnswersView,
)
    requires
        board_track(s, ops, cs, n, path, used),
        before_relay(s, path, ex, a, used),
        board_there(s, path, ex),
        relay_asks(s, path, ex, a),
        relay_step((ops, None), s, path, ex, a).1 is None,
    ensures
        board_track(
            s,
            relay_step((ops, None), s, path, ex, a).0,
            cs + relay_changes_of(s, path, ex, a),
            n,
            path,
            used + relay_spots(s, path, ex, a),
        ),
{
    reveal(relay_asks);
    reveal(relay_changes_of);
    let relay = path.push(SegView::Key("relay"@));
    let sets = relay_sets(ex, a);
    lemma_spot_lengths();
    if a.relay_gate {
        lemma_relay_sets_fit(s, path, ex, a);
        lemma_relay_there(s, path, ex, a);
        lemma_relay_names();
        if close_at(s, relay) is Some {
            let unsets = relay_unsets(ex, a);
            let gone = unset_changes(relay, unsets, 0);
            let more = used + unset_spots("relay"@, unsets, 0);
            assert forall|k: int| 0 <= k < unsets.len() implies spot_clear(
                s,
                path,
                used,
                ("relay"@, (#[trigger] unsets[k]).0),
            ) by {
                lemma_relay_clear(s, path, ex, a, used, ("relay"@, unsets[k].0));
            }
            lemma_removals_track(s, ops, cs, n, path, used, "relay"@, unsets, 0);
            lemma_unset_spots("relay"@, unsets, 0);
            assert forall|k: int| 0 <= k < sets.len() implies spot_clear(
                s,
                path,
                more,
                ("relay"@, (#[trigger] sets[k]).key),
            ) by {
                let y: Spot = ("relay"@, sets[k].key);
                lemma_relay_clear(s, path, ex, a, used, y);
                assert forall|l: int| 0 <= l < more.len() implies spots_apart(
                    s,
                    path,
                    #[trigger] more[l],
                    y,
                ) by {
                    if l < used.len() {
                        assert(more[l] == used[l]);
                    } else {
                        assert(more[l] == unset_spots("relay"@, unsets, 0)[l - used.len()]);
                        assert(sets[k].key != unsets[l - used.len()].0);
                    }
                }
            }
            let next: Plan = (removals(ops, relay, unsets, 0), None);
            lemma_settings_track(s, next, cs + gone, n, path, more, "relay"@, sets, 0);
            assert(cs + gone + set_changes(s, relay, sets, 0) =~= cs + relay_changes_of(
                s,
                path,
                ex,
                a,
            ));
            assert(more + set_spots("relay"@, sets, 0) =~= used + relay_spots(s, path, ex, a));
        } else if sets.len() > 0 {
            let x: Spot = ("relay"@, Seq::empty());
            lemma_relay_clear(s, path, ex, a, used, x);
            lemma_relay_is_name();
            lemma_section_track(s, ops, cs, n, path, used, "relay"@, sets);
            let c = section_change(path, "relay"@, sets);
            assert(cs.push(c) =~= cs + relay_changes_of(s, path, ex, a));
            assert(used.push(x) =~= used + relay_spots(s, path, ex, a));
        } else {
            assert(cs + relay_changes_of(s, path, ex, a) =~= cs);
            assert(used + relay_spots(s, path, ex, a) =~= used);
        }
    } else {
        assert(cs + relay_changes_of(s, path, ex, a) =~= cs);
        assert(used + relay_spots(s, path, ex, a) =~= used);
    }
}

proof fn lemma_relay_is_name()
    ensures
        is_name("relay"@),
{
    reveal_strlit("relay");
}

// ── The advanced keys ────────────────────────────────────────────────
/// The comment of a key keeps to its line.
pub proof fn lemma_comment_quiet(key: Seq<char>)
    ensures
        quiet(comment_of(key)),
{
    lemma_c_port();
    lemma_c_baudrate();
    lemma_c_rfc2217();
    lemma_c_login_user();
    lemma_c_login_prompt();
    lemma_c_uboot_char();
    lemma_c_relay_type();
    lemma_c_relay_ch_aliases();
    lemma_c_power_ch();
    lemma_c_reset_time();
    lemma_c_power_off();
    lemma_c_crash_keywords();
    lemma_c_dut_dir();
    lemma_c_reference_log_dut();
    lemma_c_lock_dir();
}

/// The spot of a key.
pub open spec fn key_spot(key: Seq<char>) -> Spot {
    (section_of(key), field_of(key))
}

/// A section of a board is an object where it is there at all.
proof fn lemma_section_object(m: Members, ex: DutView, section: Seq<char>)
    requires
        dut_of(JsonView::Object(m)) == Some(ex),
        no_null_sections(m),
        board_sections().contains(section),
    ensures
        member(m, section) matches Some(x) ==> x is Object,
{
    let i = choose|i: int| 0 <= i < board_sections().len() && board_sections()[i] == section;
    assert(i == 0 || i == 1 || i == 2 || i == 3 || i == 4 || i == 5);
}

/// What the document has where a board has a section.
proof fn lemma_section_there(s: Seq<char>, path: Seq<SegView>, ex: DutView, section: Seq<char>)
    requires
        board_there(s, path, ex),
        board_sections().contains(section),
    ensures
        ({
            let at = path.push(SegView::Key(section));
            let m = json_at(document(s)->0, path)->0->Object_0;
            &&& close_at(s, at) is Some ==> (json_at(document(s)->0, at) matches Some(v)
                && v is Object)
            &&& close_at(s, at) is None ==> member(m, section) is None
        }),
{
    let j = document(s)->0;
    let key = SegView::Key(section);
    let x = json_at(j, path)->0;
    lemma_found_is_said(s, path.push(key));
    lemma_brackets_go_together(s, path.push(key));
    lemma_json_behind(j, path, x, key);
    if let JsonView::Object(m) = x {
        lemma_section_object(m, ex, section);
        if let Some(v) = member(m, section) {
            assert(json_at(v, seq![key].drop_first()) == Some(v));
        }
    }
}

/// Two keys with the same section and the same field are the same.
proof fn lemma_same_key(k: Seq<char>, l: Seq<char>)
    requires
        key_parts(k),
        key_parts(l),
        key_spot(k) == key_spot(l),
    ensures
        k == l,
{
}

/// Whether a spot is that of a key among the first `n` answers, whose section
/// is there.
spec fn key_used(s: Seq<char>, path: Seq<SegView>, answers: Pairs, n: int, x: Spot) -> bool {
    &&& x.0.len() == 0 || close_at(s, path.push(SegView::Key(x.0))) is Some
    &&& exists|l: int| 0 <= l < n && l < answers.len() && x == key_spot((#[trigger] answers[l]).0)
}

/// Whether the spots behind the first `b` are those of keys.
spec fn keys_used(
    s: Seq<char>,
    path: Seq<SegView>,
    answers: Pairs,
    n: int,
    used: Seq<Spot>,
    b: int,
) -> bool {
    forall|k: int| b <= k < used.len() ==> key_used(s, path, answers, n, #[trigger] used[k])
}

/// Whether a spot is one of those that are used before the advanced keys: the
/// name, the port or the user, the relay, or a section that the port or the
/// user needs.
spec fn first_fits(
    s: Seq<char>,
    path: Seq<SegView>,
    ex: DutView,
    a: DutAnswersView,
    x: Spot,
) -> bool {
    ||| spot_name(x) == "dut_name"@
    ||| x == ("serial"@, "port"@) && close_at(s, path.push(SegView::Key("serial"@))) is Some
    ||| x == ("target"@, "login_user"@) && close_at(s, path.push(SegView::Key("target"@))) is Some
    ||| spot_name(x) == "relay"@
    ||| added_section(s, path, ex, a, x)
}

/// Whether a spot is a section that is added for the port or the user.
spec fn added_section(
    s: Seq<char>,
    path: Seq<SegView>,
    ex: DutView,
    a: DutAnswersView,
    x: Spot,
) -> bool {
    &&& x.1.len() == 0
    &&& board_sections().contains(x.0)
    &&& close_at(s, path.push(SegView::Key(x.0))) is None
    &&& is_section_of(quick_missing(s, path, ex, a), x.0)
}

proof fn lemma_set_spots_name(section: Seq<char>, sets: Seq<SetView>, i: int)
    requires
        section.len() > 0,
        0 <= i,
    ensures
        forall|k: int|
            0 <= k < set_spots(section, sets, i).len() ==> spot_name(
                #[trigger] set_spots(section, sets, i)[k],
            ) == section,
    decreases sets.len() - i,
{
    if i < sets.len() {
        lemma_set_spots_name(section, sets, i + 1);
        let rest = set_spots(section, sets, i + 1);
        assert forall|k: int| 0 <= k < set_spots(section, sets, i).len() implies spot_name(
            #[trigger] set_spots(section, sets, i)[k],
        ) == section by {
            if k > 0 {
                assert(set_spots(section, sets, i)[k] == rest[k - 1]);
            }
        }
    }
}

/// What the spots of name, port and user are.
proof fn lemma_board_spots(s: Seq<char>, path: Seq<SegView>, ex: DutView, a: DutAnswersView, k: int)
    requires
        0 <= k < board_spots(s, path, ex, a).len(),
    ensures
        ({
            let x = board_spots(s, path, ex, a)[k];
            &&& first_fits(s, path, ex, a, x)
            &&& spot_name(x) != "relay"@
            &&& !added_section(s, path, ex, a, x)
        }),
{
    lemma_spot_lengths();
    reveal_strlit("dut_name");
    let x = board_spots(s, path, ex, a)[k];
    assert(x == (Seq::<char>::empty(), "dut_name"@) || x == ("serial"@, "port"@) || x == (
        "target"@,
        "login_user"@,
    ));
    reveal_strlit("port");
    reveal_strlit("login_user");
}

/// What the spots of the relay are.
proof fn lemma_relay_spots(s: Seq<char>, path: Seq<SegView>, ex: DutView, a: DutAnswersView, k: int)
    requires
        0 <= k < relay_spots(s, path, ex, a).len(),
    ensures
        spot_name(relay_spots(s, path, ex, a)[k]) == "relay"@,
{
    lemma_spot_lengths();
    lemma_set_spots_name("relay"@, relay_sets(ex, a), 0);
    lemma_unset_spots("relay"@, relay_unsets(ex, a), 0);
}

/// The spot of a key whose section is there is clear of those before it.
proof fn lemma_key_clear(
    s: Seq<char>,
    path: Seq<SegView>,
    ex: DutView,
    a: DutAnswersView,
    b: int,
    i: int,
    used: Seq<Spot>,
)
    requires
        0 <= i < a.advanced.len(),
        distinct_keys(a.advanced),
        forall|k: int| 0 <= k < a.advanced.len() ==> dut_owned((#[trigger] a.advanced[k]).0),
        used_so_far(s, path, ex, a, b, i, used),
        ({
            let x = key_spot(a.advanced[i].0);
            x.0.len() == 0 || close_at(s, path.push(SegView::Key(x.0))) is Some
        }),
    ensures
        spot_clear(s, path, used, key_spot(a.advanced[i].0)),
{
    let key = a.advanced[i].0;
    let x = key_spot(key);
    lemma_dut_key(key);
    lemma_key_name(key);
    lemma_spot_lengths();
    assert forall|k: int| 0 <= k < used.len() implies spots_apart(s, path, #[trigger] used[k], x) by {
        if k < b {
            assert(first_fits(s, path, ex, a, used[k]));
            if added_section(s, path, ex, a, used[k]) {
                lemma_board_section(used[k].0);
            }
        } else {
            assert(key_used(s, path, a.advanced, i, used[k]));
            let l = choose|l: int|
                0 <= l < i && l < a.advanced.len() && used[k] == key_spot(
                    (#[trigger] a.advanced[l]).0,
                );
            let other = a.advanced[l].0;
            assert(other != key);
            lemma_dut_key(other);
            lemma_key_name(other);
            if key_spot(other) == x {
                lemma_same_key(other, key);
            }
        }
    }
}

/// The member in which a key lies.
proof fn lemma_key_name(key: Seq<char>)
    requires
        key_parts(key),
    ensures
        spot_name(key_spot(key)) != "dut_name"@,
        spot_name(key_spot(key)) != "relay"@,
        section_of(key).len() > 0 ==> spot_name(key_spot(key)) != "loader"@,
        section_of(key).len() == 0 ==> spot_name(key_spot(key)) == "loader"@ && "loader"@
            != "serial"@ && "loader"@ != "target"@,
{
    reveal_strlit("loader");
    reveal_strlit("dut_name");
    reveal_strlit("relay");
    reveal_strlit("serial");
    reveal_strlit("target");
    assert("loader"@.len() == 6 && "loader"@[0] == 'l');
    assert("dut_name"@.len() == 8);
    assert("relay"@.len() == 5);
    assert("serial"@[0] == 's');
    assert("target"@[0] == 't');
    if section_of(key).len() > 0 {
        lemma_board_section(section_of(key));
    }
}

/// What is to be done to the advanced key of answer `i`.
#[verifier::opaque]
pub open spec fn action_at(
    s: Seq<char>,
    path: Seq<SegView>,
    ex: DutView,
    a: DutAnswersView,
    global: Pairs,
    i: int,
) -> DutKeyAction {
    dut_key_action(
        s,
        path,
        dut_current_of(ex),
        global,
        a.advanced[i].0,
        a.advanced[i].1,
    )
}

/// Whether the answers to the advanced keys can be read back: each is to a key
/// that a board has of its own, and none is answered twice.
pub open spec fn keys_ask(a: DutAnswersView) -> bool {
    &&& distinct_keys(a.advanced)
    &&& forall|k: int| 0 <= k < a.advanced.len() ==> dut_owned((#[trigger] a.advanced[k]).0)
}

/// The changes for the advanced keys whose sections are there, from answer `i`
/// on.
#[verifier::opaque]
pub open spec fn key_changes(
    s: Seq<char>,
    path: Seq<SegView>,
    ex: DutView,
    a: DutAnswersView,
    global: Pairs,
    i: int,
) -> Seq<ChangeView>
    decreases a.advanced.len() - i,
{
    if i < 0 || i >= a.advanced.len() {
        Seq::empty()
    } else {
        let here = match action_at(s, path, ex, a, global, i) {
            DutKeyAction::Write(e) => seq![
                member_change(
                    s,
                    dut_container(path, a.advanced[i].0),
                    e.key,
                    spelled(e.literal),
                ),
            ],
            DutKeyAction::Remove(_) => seq![
                ChangeView::Gone {
                    path: dut_container(path, a.advanced[i].0),
                    key: field_of(a.advanced[i].0),
                },
            ],
            _ => Seq::empty(),
        };
        here + key_changes(s, path, ex, a, global, i + 1)
    }
}

/// Whether a value for a section that is not there is the port or the user, or
/// comes from one of the first `n` answers.
spec fn missing_fits(s: Seq<char>, path: Seq<SegView>, answers: Pairs, n: int, x: MissingView) -> bool {
    &&& set_fits(x.set)
    &&& board_sections().contains(x.section)
    &&& close_at(s, path.push(SegView::Key(x.section))) is None
    &&& {
        ||| (x.section, x.set.key) == ("serial"@, "port"@)
        ||| (x.section, x.set.key) == ("target"@, "login_user"@)
        ||| exists|l: int|
            0 <= l < n && l < answers.len() && (x.section, x.set.key) == key_spot(
                (#[trigger] answers[l]).0,
            )
    }
}

spec fn all_missing_fit(
    s: Seq<char>,
    path: Seq<SegView>,
    answers: Pairs,
    n: int,
    v: Seq<MissingView>,
) -> bool {
    forall|k: int| 0 <= k < v.len() ==> missing_fits(s, path, answers, n, #[trigger] v[k])
}

/// Whether no two values are for the same field.
spec fn missing_differ(v: Seq<MissingView>) -> bool {
    forall|i: int, k: int|
        0 <= i < k < v.len() ==> ((#[trigger] v[i]).section, v[i].set.key) != (
            (#[trigger] v[k]).section,
            v[k].set.key,
        )
}

/// The plan with the advanced keys from answer `i` on.
#[verifier::opaque]
spec fn keys_plan(
    p: Plan,
    missing: Seq<MissingView>,
    s: Seq<char>,
    path: Seq<SegView>,
    ex: DutView,
    a: DutAnswersView,
    global: Pairs,
    i: int,
) -> (Plan, Seq<MissingView>) {
    dut_keys_from(p, missing, s, path, dut_current_of(ex), global, a.advanced, i)
}

/// What one answer adds to the plan.
spec fn keys_next(
    p: Plan,
    missing: Seq<MissingView>,
    s: Seq<char>,
    path: Seq<SegView>,
    x: DutKeyAction,
    key: Seq<char>,
) -> (Plan, Seq<MissingView>) {
    match x {
        DutKeyAction::Nothing => (p, missing),
        DutKeyAction::Remove(op) => ((p.0.push(op), None), missing),
        DutKeyAction::Write(e) => (
            planned(p.0, set_or_append(s, dut_container(path, key), e)),
            missing,
        ),
        DutKeyAction::Missing(m) => (p, missing.push(m)),
        DutKeyAction::Fail(e) => ((p.0, Some(e)), missing),
    }
}

proof fn lemma_keys_step(
    p: Plan,
    missing: Seq<MissingView>,
    s: Seq<char>,
    path: Seq<SegView>,
    ex: DutView,
    a: DutAnswersView,
    global: Pairs,
    i: int,
)
    requires
        p.1 is None,
        0 <= i < a.advanced.len(),
    ensures
        ({
            let (q, more) = keys_next(
                p,
                missing,
                s,
                path,
                action_at(s, path, ex, a, global, i),
                a.advanced[i].0,
            );
            keys_plan(p, missing, s, path, ex, a, global, i) == keys_plan(
                q,
                more,
                s,
                path,
                ex,
                a,
                global,
                i + 1,
            )
        }),
{
    reveal(keys_plan);
    reveal(action_at);
    let (q, more) = keys_next(
        p,
        missing,
        s,
        path,
        action_at(s, path, ex, a, global, i),
        a.advanced[i].0,
    );
    if q.1 is Some {
        assert(dut_keys_from(q, more, s, path, dut_current_of(ex), global, a.advanced, i + 1) == (
            q,
            more,
        ));
    }
}

proof fn lemma_keys_ended(
    p: Plan,
    missing: Seq<MissingView>,
    s: Seq<char>,
    path: Seq<SegView>,
    ex: DutView,
    a: DutAnswersView,
    global: Pairs,
    i: int,
)
    ensures
        p.1 is Some || i >= a.advanced.len() ==> keys_plan(
            p,
            missing,
            s,
            path,
            ex,
            a,
            global,
            i,
        ) == (p, missing),
        i >= a.advanced.len() ==> key_changes(s, path, ex, a, global, i) == Seq::<
            ChangeView,
        >::empty(),
{
    reveal(keys_plan);
    reveal(key_changes);
}

/// What an action says of its key.
proof fn lemma_action(
    s: Seq<char>,
    path: Seq<SegView>,
    ex: DutView,
    a: DutAnswersView,
    global: Pairs,
    i: int,
)
    requires
        0 <= i < a.advanced.len(),
    ensures
        ({
            let key = a.advanced[i].0;
            match action_at(s, path, ex, a, global, i) {
                DutKeyAction::Write(e) => {
                    &&& e.key == field_of(key)
                    &&& e.comment == comment_of(key)
                    &&& e.before is None
                    &&& json_spells(e.literal)
                    &&& close_at(s, dut_container(path, key)) is Some
                },
                DutKeyAction::Missing(m) => {
                    &&& m.section == section_of(key)
                    &&& m.set.key == field_of(key)
                    &&& m.set.comment == comment_of(key)
                    &&& json_spells(m.set.literal)
                    &&& close_at(s, dut_container(path, key)) is None
                },
                DutKeyAction::Remove(op) => {
                    let container = dut_container(path, key);
                    &&& op.op == EditView::RemoveKey { path: container, key: field_of(key) }
                    &&& value_span(s, container.push(SegView::Key(field_of(key)))) is Some
                },
                _ => true,
            }
        }),
{
    reveal(action_at);
    lemma_answer_is_json(a.advanced[i].0, a.advanced[i].1);
}

/// The spots that are used up to answer `i`: those before the keys, and those
/// of the keys that were written.
spec fn used_so_far(
    s: Seq<char>,
    path: Seq<SegView>,
    ex: DutView,
    a: DutAnswersView,
    b: int,
    i: int,
    used: Seq<Spot>,
) -> bool {
    &&& 0 <= b <= used.len()
    &&& forall|k: int| 0 <= k < b ==> first_fits(s, path, ex, a, #[trigger] used[k])
    &&& keys_used(s, path, a.advanced, i, used, b)
}

proof fn lemma_used_later(
    s: Seq<char>,
    path: Seq<SegView>,
    ex: DutView,
    a: DutAnswersView,
    b: int,
    i: int,
    used: Seq<Spot>,
)
    requires
        used_so_far(s, path, ex, a, b, i, used),
    ensures
        used_so_far(s, path, ex, a, b, i + 1, used),
{
    assert forall|k: int| b <= k < used.len() implies key_used(
        s,
        path,
        a.advanced,
        i + 1,
        #[trigger] used[k],
    ) by {
        assert(key_used(s, path, a.advanced, i, used[k]));
    }
}

proof fn lemma_missing_later(
    s: Seq<char>,
    path: Seq<SegView>,
    answers: Pairs,
    i: int,
    v: Seq<MissingView>,
)
    requires
        all_missing_fit(s, path, answers, i, v),
    ensures
        all_missing_fit(s, path, answers, i + 1, v),
{
    assert forall|k: int| 0 <= k < v.len() implies missing_fits(
        s,
        path,
        answers,
        i + 1,
        #[trigger] v[k],
    ) by {
        assert(missing_fits(s, path, answers, i, v[k]));
    }
}

/// The object in which a key lives.
pub proof fn lemma_container_there(
    s: Seq<char>,
    path: Seq<SegView>,
    ex: DutView,
    a: DutAnswersView,
    key: Seq<char>,
)
    requires
        board_there(s, path, ex),
        key_parts(key),
    ensures
        close_at(s, dut_container(path, key)) is Some ==> (json_at(
            document(s)->0,
            dut_container(path, key),
        ) matches Some(v) && v is Object),
        close_at(s, dut_container(path, key)) is None ==> section_of(key).len() > 0,
{
    if section_of(key).len() > 0 {
        lemma_section_there(s, path, ex, section_of(key));
    } else {
        lemma_found_is_said(s, path);
        lemma_brackets_go_together(s, path);
    }
}

/// One advanced key that is written.
proof fn lemma_key_written(
    s: Seq<char>,
    ops: Seq<OpView>,
    cs: Seq<ChangeView>,
    n: int,
    path: Seq<SegView>,
    used: Seq<Spot>,
    ex: DutView,
    a: DutAnswersView,
    b: int,
    i: int,
    e: ScalarView,
)
    requires
        board_track(s, ops, cs, n, path, used),
        board_there(s, path, ex),
        0 <= i < a.advanced.len(),
        distinct_keys(a.advanced),
        forall|k: int| 0 <= k < a.advanced.len() ==> dut_owned((#[trigger] a.advanced[k]).0),
        used_so_far(s, path, ex, a, b, i, used),
        e.key == field_of(a.advanced[i].0),
        e.comment == comment_of(a.advanced[i].0),
        e.before is None,
        json_spells(e.literal),
        close_at(s, dut_container(path, a.advanced[i].0)) is Some,
        set_or_append(s, dut_container(path, a.advanced[i].0), e) is Ok,
    ensures
        ({
            let container = dut_container(path, a.advanced[i].0);
            let more = used.push(key_spot(a.advanced[i].0));
            &&& board_track(
                s,
                ops.push(set_or_append(s, container, e)->Ok_0),
                cs.push(member_change(s, container, e.key, spelled(e.literal))),
                n,
                path,
                more,
            )
            &&& used_so_far(s, path, ex, a, b, i + 1, more)
        }),
{
    let key = a.advanced[i].0;
    let container = dut_container(path, key);
    let x = key_spot(key);
    let set = SetView { key: e.key, literal: e.literal, comment: e.comment, desc: e.desc };
    lemma_dut_key(key);
    lemma_comment_quiet(key);
    lemma_container_there(s, path, ex, a, key);
    assert(set_edit(set) == e);
    lemma_set_spells(s, container, set);
    lemma_member_change_within(s, container, e.key, spelled(e.literal));
    lemma_key_clear(s, path, ex, a, b, i, used);
    let c = member_change(s, container, e.key, spelled(e.literal));
    lemma_spot_pushed(s, ops, cs, n, path, used, set_or_append(s, container, e)->Ok_0, c, x);
    lemma_used_more(s, path, ex, a, b, i, used);
}

/// One advanced key that is taken out.
proof fn lemma_key_removed(
    s: Seq<char>,
    ops: Seq<OpView>,
    cs: Seq<ChangeView>,
    n: int,
    path: Seq<SegView>,
    used: Seq<Spot>,
    ex: DutView,
    a: DutAnswersView,
    b: int,
    i: int,
    op: OpView,
)
    requires
        board_track(s, ops, cs, n, path, used),
        board_there(s, path, ex),
        0 <= i < a.advanced.len(),
        keys_ask(a),
        used_so_far(s, path, ex, a, b, i, used),
        ({
            let key = a.advanced[i].0;
            let container = dut_container(path, key);
            &&& op.op == EditView::RemoveKey { path: container, key: field_of(key) }
            &&& value_span(s, container.push(SegView::Key(field_of(key)))) is Some
        }),
    ensures
        ({
            let key = a.advanced[i].0;
            let c = ChangeView::Gone { path: dut_container(path, key), key: field_of(key) };
            let more = used.push(key_spot(key));
            &&& board_track(s, ops.push(op), cs.push(c), n, path, more)
            &&& used_so_far(s, path, ex, a, b, i + 1, more)
        }),
{
    let key = a.advanced[i].0;
    let container = dut_container(path, key);
    let x = key_spot(key);
    lemma_dut_key(key);
    lemma_removal_spells(s, container, field_of(key));
    lemma_brackets_go_together(s, container);
    lemma_key_clear(s, path, ex, a, b, i, used);
    let c = ChangeView::Gone { path: container, key: field_of(key) };
    lemma_spot_pushed(s, ops, cs, n, path, used, op, c, x);
    lemma_used_more(s, path, ex, a, b, i, used);
}

/// The spot of a key that is written or taken out is used.
proof fn lemma_used_more(
    s: Seq<char>,
    path: Seq<SegView>,
    ex: DutView,
    a: DutAnswersView,
    b: int,
    i: int,
    used: Seq<Spot>,
)
    requires
        0 <= i < a.advanced.len(),
        used_so_far(s, path, ex, a, b, i, used),
        ({
            let x = key_spot(a.advanced[i].0);
            x.0.len() == 0 || close_at(s, path.push(SegView::Key(x.0))) is Some
        }),
    ensures
        used_so_far(s, path, ex, a, b, i + 1, used.push(key_spot(a.advanced[i].0))),
{
    let x = key_spot(a.advanced[i].0);
    let more = used.push(x);
    lemma_used_later(s, path, ex, a, b, i, used);
    assert(key_used(s, path, a.advanced, i + 1, x)) by {
        assert(x == key_spot(a.advanced[i].0));
    }
    assert forall|k: int| 0 <= k < b implies first_fits(s, path, ex, a, #[trigger] more[k]) by {
        assert(more[k] == used[k]);
    }
    assert forall|k: int| b <= k < more.len() implies key_used(
        s,
        path,
        a.advanced,
        i + 1,
        #[trigger] more[k],
    ) by {
        if k < used.len() {
            assert(more[k] == used[k]);
        }
    }
}

/// One advanced key whose section is not there.
proof fn lemma_key_missing(
    s: Seq<char>,
    path: Seq<SegView>,
    ex: DutView,
    a: DutAnswersView,
    i: int,
    missing: Seq<MissingView>,
    x: MissingView,
)
    requires
        board_there(s, path, ex),
        0 <= i < a.advanced.len(),
        distinct_keys(a.advanced),
        forall|k: int| 0 <= k < a.advanced.len() ==> dut_owned((#[trigger] a.advanced[k]).0),
        all_missing_fit(s, path, a.advanced, i, missing),
        missing_differ(missing),
        x.section == section_of(a.advanced[i].0),
        x.set.key == field_of(a.advanced[i].0),
        x.set.comment == comment_of(a.advanced[i].0),
        json_spells(x.set.literal),
        close_at(s, dut_container(path, a.advanced[i].0)) is None,
    ensures
        all_missing_fit(s, path, a.advanced, i + 1, missing.push(x)),
        missing_differ(missing.push(x)),
{
    let key = a.advanced[i].0;
    let more = missing.push(x);
    lemma_dut_key(key);
    lemma_comment_quiet(key);
    lemma_container_there(s, path, ex, a, key);
    lemma_missing_later(s, path, a.advanced, i, missing);
    assert((x.section, x.set.key) == key_spot(a.advanced[i].0));
    assert(missing_fits(s, path, a.advanced, i + 1, x));
    assert forall|k: int| 0 <= k < more.len() implies missing_fits(
        s,
        path,
        a.advanced,
        i + 1,
        #[trigger] more[k],
    ) by {
        if k < missing.len() {
            assert(more[k] == missing[k]);
        }
    }
    assert forall|k: int, l: int| 0 <= k < l < more.len() implies (
        (#[trigger] more[k]).section,
        more[k].set.key,
    ) != ((#[trigger] more[l]).section, more[l].set.key) by {
        assert(more[k] == missing[k]);
        if l < missing.len() {
            assert(more[l] == missing[l]);
        } else {
            assert(missing_fits(s, path, a.advanced, i, missing[k]));
            let spot = (missing[k].section, missing[k].set.key);
            if spot != ("serial"@, "port"@) && spot != ("target"@, "login_user"@) {
                let o = choose|o: int|
                    0 <= o < i && o < a.advanced.len() && spot == key_spot(
                        (#[trigger] a.advanced[o]).0,
                    );
                let other = a.advanced[o].0;
                assert(other != key);
                lemma_dut_key(other);
                if key_spot(other) == key_spot(key) {
                    lemma_same_key(other, key);
                }
            }
        }
    }
}

/// The advanced keys of a board, from answer `i` on.
proof fn lemma_keys_track(
    s: Seq<char>,
    p: Plan,
    missing: Seq<MissingView>,
    cs: Seq<ChangeView>,
    n: int,
    path: Seq<SegView>,
    used: Seq<Spot>,
    ex: DutView,
    a: DutAnswersView,
    b: int,
    global: Pairs,
    i: int,
) -> (all: Seq<Spot>)
    requires
        p.1 is None,
        board_track(s, p.0, cs, n, path, used),
        board_there(s, path, ex),
        0 <= i <= a.advanced.len(),
        keys_ask(a),
        used_so_far(s, path, ex, a, b, i, used),
        ({
            let (q, _) = keys_plan(p, missing, s, path, ex, a, global, i);
            q.1 is None
        }),
    ensures
        ({
            let (q, _) = keys_plan(p, missing, s, path, ex, a, global, i);
            let n_keys = a.advanced.len() as int;
            &&& board_track(s, q.0, cs + key_changes(s, path, ex, a, global, i), n, path, all)
            &&& used_so_far(s, path, ex, a, b, n_keys, all)
        }),
    decreases a.advanced.len() - i,
{
    if i < a.advanced.len() {
        let key = a.advanced[i].0;
        let x = action_at(s, path, ex, a, global, i);
        let (q, more) = keys_next(p, missing, s, path, x, key);
        let rest = key_changes(s, path, ex, a, global, i + 1);
        lemma_keys_step(p, missing, s, path, ex, a, global, i);
        lemma_keys_ended(q, more, s, path, ex, a, global, i + 1);
        lemma_action(s, path, ex, a, global, i);
        lemma_key_changes_step(s, path, ex, a, global, i);
        lemma_used_later(s, path, ex, a, b, i, used);
        match x {
            DutKeyAction::Write(e) => {
                let c = member_change(s, dut_container(path, key), e.key, spelled(e.literal));
                lemma_key_written(s, p.0, cs, n, path, used, ex, a, b, i, e);
                let all = lemma_keys_track(
                    s,
                    q,
                    more,
                    cs.push(c),
                    n,
                    path,
                    used.push(key_spot(key)),
                    ex,
                    a,
                    b,
                    global,
                    i + 1,
                );
                assert(cs.push(c) + rest =~= cs + (seq![c] + rest));
                all
            },
            DutKeyAction::Remove(op) => {
                let c = ChangeView::Gone { path: dut_container(path, key), key: field_of(key) };
                lemma_key_removed(s, p.0, cs, n, path, used, ex, a, b, i, op);
                let all = lemma_keys_track(
                    s,
                    q,
                    more,
                    cs.push(c),
                    n,
                    path,
                    used.push(key_spot(key)),
                    ex,
                    a,
                    b,
                    global,
                    i + 1,
                );
                assert(cs.push(c) + rest =~= cs + (seq![c] + rest));
                all
            },
            _ => lemma_keys_track(s, q, more, cs, n, path, used, ex, a, b, global, i + 1),
        }
    } else {
        lemma_keys_ended(p, missing, s, path, ex, a, global, i);
        assert(cs + Seq::<ChangeView>::empty() =~= cs);
        used
    }
}

proof fn lemma_key_changes_step(
    s: Seq<char>,
    path: Seq<SegView>,
    ex: DutView,
    a: DutAnswersView,
    global: Pairs,
    i: int,
)
    requires
        0 <= i < a.advanced.len(),
    ensures
        ({
            let rest = key_changes(s, path, ex, a, global, i + 1);
            key_changes(s, path, ex, a, global, i) == (match action_at(s, path, ex, a, global, i) {
                DutKeyAction::Write(e) => seq![
                    member_change(
                        s,
                        dut_container(path, a.advanced[i].0),
                        e.key,
                        spelled(e.literal),
                    ),
                ] + rest,
                DutKeyAction::Remove(_) => seq![
                    ChangeView::Gone {
                        path: dut_container(path, a.advanced[i].0),
                        key: field_of(a.advanced[i].0),
                    },
                ] + rest,
                _ => rest,
            })
        }),
{
    reveal_with_fuel(key_changes, 2);
    let rest = key_changes(s, path, ex, a, global, i + 1);
    assert(Seq::<ChangeView>::empty() + rest =~= rest);
}

// ── Sections that are not there ──────────────────────────────────────
spec fn same_spot(x: MissingView, y: MissingView) -> bool {
    (x.section, x.set.key) == (y.section, y.set.key)
}

/// A value that is put in its place joins the others, and changes none.
proof fn lemma_put_sorted(v: Seq<MissingView>, x: MissingView)
    requires
        missing_differ(v),
        forall|k: int| 0 <= k < v.len() ==> !same_spot(#[trigger] v[k], x),
    ensures
        missing_differ(put_sorted(v, x)),
        forall|k: int|
            0 <= k < put_sorted(v, x).len() ==> (#[trigger] put_sorted(v, x)[k]) == x
                || v.contains(put_sorted(v, x)[k]),
    decreases v.len(),
{
    let r = put_sorted(v, x);
    if v.len() == 0 {
    } else if goes_before(x, v.last()) {
        let front = v.drop_last();
        let q = put_sorted(front, x);
        assert forall|k: int| 0 <= k < front.len() implies !same_spot(#[trigger] front[k], x) by {
            assert(front[k] == v[k]);
        }
        assert forall|i: int, k: int| 0 <= i < k < front.len() implies (
            (#[trigger] front[i]).section,
            front[i].set.key,
        ) != ((#[trigger] front[k]).section, front[k].set.key) by {
            assert(front[i] == v[i] && front[k] == v[k]);
        }
        lemma_put_sorted(front, x);
        assert forall|k: int| 0 <= k < r.len() implies (#[trigger] r[k]) == x || v.contains(
            r[k],
        ) by {
            if k < q.len() {
                assert(r[k] == q[k]);
                if q[k] != x {
                    let l = choose|l: int| 0 <= l < front.len() && front[l] == q[k];
                    assert(v[l] == q[k]);
                }
            } else {
                assert(r[k] == v[v.len() - 1]);
            }
        }
        assert forall|i: int, k: int| 0 <= i < k < r.len() implies (
            (#[trigger] r[i]).section,
            r[i].set.key,
        ) != ((#[trigger] r[k]).section, r[k].set.key) by {
            assert(r[i] == q[i]);
            if k < q.len() {
                assert(r[k] == q[k]);
            } else {
                assert(r[k] == v.last());
                if q[i] == x {
                    assert(!same_spot(v[v.len() - 1], x));
                } else {
                    let l = choose|l: int| 0 <= l < front.len() && front[l] == q[i];
                    assert(v[l] == q[i]);
                    assert(v[v.len() - 1] == v.last());
                }
            }
        }
    } else {
        assert(r == v.push(x));
        assert forall|k: int| 0 <= k < r.len() implies (#[trigger] r[k]) == x || v.contains(
            r[k],
        ) by {
            if k < v.len() {
                assert(r[k] == v[k]);
            }
        }
        assert forall|i: int, k: int| 0 <= i < k < r.len() implies (
            (#[trigger] r[i]).section,
            r[i].set.key,
        ) != ((#[trigger] r[k]).section, r[k].set.key) by {
            assert(r[i] == v[i]);
            if k < v.len() {
                assert(r[k] == v[k]);
            } else {
                assert(!same_spot(v[i], x));
            }
        }
    }
}

/// Values in order are the same values.
proof fn lemma_sorted_missing(v: Seq<MissingView>)
    requires
        missing_differ(v),
    ensures
        missing_differ(sorted_missing(v)),
        forall|k: int|
            0 <= k < sorted_missing(v).len() ==> v.contains(#[trigger] sorted_missing(v)[k]),
    decreases v.len(),
{
    if v.len() > 0 {
        let front = v.drop_last();
        let x = v.last();
        assert forall|i: int, k: int| 0 <= i < k < front.len() implies (
            (#[trigger] front[i]).section,
            front[i].set.key,
        ) != ((#[trigger] front[k]).section, front[k].set.key) by {
            assert(front[i] == v[i] && front[k] == v[k]);
        }
        lemma_sorted_missing(front);
        let q = sorted_missing(front);
        assert forall|k: int| 0 <= k < q.len() implies !same_spot(#[trigger] q[k], x) by {
            let l = choose|l: int| 0 <= l < front.len() && front[l] == q[k];
            assert(v[l] == q[k]);
            assert(v[v.len() - 1] == x);
        }
        lemma_put_sorted(q, x);
        let r = sorted_missing(v);
        assert forall|k: int| 0 <= k < r.len() implies v.contains(#[trigger] r[k]) by {
            if r[k] == x {
                assert(v[v.len() - 1] == x);
            } else {
                let l = choose|l: int| 0 <= l < q.len() && q[l] == r[k];
                assert(front.contains(q[l]));
                let o = choose|o: int| 0 <= o < front.len() && front[o] == q[l];
                assert(v[o] == r[k]);
            }
        }
    }
}

spec fn from_section(x: SetView, v: Seq<MissingView>, section: Seq<char>, n: int) -> bool {
    exists|l: int|
        0 <= l < n && l < v.len() && (#[trigger] v[l]).section == section && v[l].set == x
}

/// The values of one section are values of that section, for different keys.
proof fn lemma_sets_of(v: Seq<MissingView>, section: Seq<char>, n: int)
    requires
        missing_differ(v),
        0 <= n <= v.len(),
    ensures
        sets_differ(sets_of(v, section, n)),
        forall|k: int|
            0 <= k < sets_of(v, section, n).len() ==> from_section(
                #[trigger] sets_of(v, section, n)[k],
                v,
                section,
                n,
            ),
    decreases n,
{
    if n > 0 {
        lemma_sets_of(v, section, n - 1);
        let q = sets_of(v, section, n - 1);
        let r = sets_of(v, section, n);
        assert forall|k: int| 0 <= k < r.len() implies from_section(
            #[trigger] r[k],
            v,
            section,
            n,
        ) by {
            if k < q.len() {
                assert(r[k] == q[k]);
                assert(from_section(q[k], v, section, n - 1));
            } else {
                assert(v[n - 1].section == section && v[n - 1].set == r[k]);
            }
        }
        assert forall|i: int, k: int| 0 <= i < k < r.len() implies (#[trigger] r[i]).key != (
        #[trigger] r[k]).key by {
            assert(r[i] == q[i]);
            if k < q.len() {
                assert(r[k] == q[k]);
            } else {
                assert(from_section(q[i], v, section, n - 1));
                let l = choose|l: int|
                    0 <= l < n - 1 && l < v.len() && (#[trigger] v[l]).section == section
                        && v[l].set == q[i];
                assert(v[n - 1].section == section && v[n - 1].set == r[k]);
            }
        }
    }
}

/// The changes for the sections that are not there, from value `i` on.
#[verifier::opaque]
pub open spec fn group_changes(path: Seq<SegView>, v: Seq<MissingView>, i: int) -> Seq<ChangeView>
    decreases v.len() - i,
{
    if i < 0 || i >= v.len() {
        Seq::empty()
    } else if seen_before(v, i) {
        group_changes(path, v, i + 1)
    } else {
        let sets = sets_of(v, v[i].section, v.len() as int);
        seq![section_change(path, v[i].section, sets)] + group_changes(path, v, i + 1)
    }
}

/// Whether the spots from number `g` on are sections of the first `n` values.
spec fn groups_used(used: Seq<Spot>, g: int, v: Seq<MissingView>, n: int) -> bool {
    forall|k: int| g <= k < used.len() ==> group_used(#[trigger] used[k], v, n)
}

spec fn group_used(x: Spot, v: Seq<MissingView>, n: int) -> bool {
    x.1.len() == 0 && exists|l: int| 0 <= l < n && l < v.len() && x.0 == (#[trigger] v[l]).section
}

/// Whether the sections of the values are clear of these spots.
spec fn sections_clear(s: Seq<char>, path: Seq<SegView>, used: Seq<Spot>, v: Seq<MissingView>) -> bool {
    forall|i: int|
        0 <= i < v.len() ==> spot_clear(s, path, used, ((#[trigger] v[i]).section, Seq::empty()))
}

/// A section that is not there is clear of what was written before.
proof fn lemma_group_clear(
    s: Seq<char>,
    path: Seq<SegView>,
    a: DutAnswersView,
    used: Seq<Spot>,
    g: int,
    v: Seq<MissingView>,
    i: int,
)
    requires
        0 <= i < v.len(),
        all_missing_fit(s, path, a.advanced, a.advanced.len() as int, v),
        !seen_before(v, i),
        0 <= g <= used.len(),
        sections_clear(s, path, used.take(g), v),
        groups_used(used, g, v, i),
    ensures
        spot_clear(s, path, used, (v[i].section, Seq::empty())),
{
    let section = v[i].section;
    let x: Spot = (section, Seq::empty());
    assert(missing_fits(s, path, a.advanced, a.advanced.len() as int, v[i]));
    lemma_board_section(section);
    assert forall|k: int| 0 <= k < used.len() implies spots_apart(s, path, #[trigger] used[k], x) by {
        if k < g {
            assert(used.take(g)[k] == used[k]);
            assert(spot_clear(s, path, used.take(g), (v[i].section, Seq::empty())));
        } else {
            assert(group_used(used[k], v, i));
            let l = choose|l: int|
                0 <= l < i && l < v.len() && used[k].0 == (#[trigger] v[l]).section;
            assert(missing_fits(s, path, a.advanced, a.advanced.len() as int, v[l]));
            lemma_board_section(v[l].section);
            assert(v[l].section != section);
        }
    }
}

/// A section that is not there is clear of name, port and user.
proof fn lemma_early_clear(
    s: Seq<char>,
    path: Seq<SegView>,
    ex: DutView,
    a: DutAnswersView,
    v: Seq<MissingView>,
)
    requires
        all_missing_fit(s, path, a.advanced, a.advanced.len() as int, v),
    ensures
        sections_clear(s, path, board_spots(s, path, ex, a), v),
{
    let used = board_spots(s, path, ex, a);
    lemma_spot_lengths();
    assert forall|i: int| 0 <= i < v.len() implies spot_clear(
        s,
        path,
        used,
        ((#[trigger] v[i]).section, Seq::empty()),
    ) by {
        let x: Spot = (v[i].section, Seq::empty());
        assert(missing_fits(s, path, a.advanced, a.advanced.len() as int, v[i]));
        lemma_board_section(v[i].section);
        assert forall|k: int| 0 <= k < used.len() implies spots_apart(s, path, #[trigger] used[k], x) by {
            lemma_board_spots(s, path, ex, a, k);
        }
    }
}

/// A section that neither the port nor the user needs is clear of all that was
/// written before.
proof fn lemma_late_clear(
    s: Seq<char>,
    path: Seq<SegView>,
    ex: DutView,
    a: DutAnswersView,
    b: int,
    used: Seq<Spot>,
    v: Seq<MissingView>,
)
    requires
        keys_ask(a),
        all_missing_fit(s, path, a.advanced, a.advanced.len() as int, v),
        used_so_far(s, path, ex, a, b, a.advanced.len() as int, used),
        forall|i: int|
            0 <= i < v.len() ==> !is_section_of(
                quick_missing(s, path, ex, a),
                (#[trigger] v[i]).section,
            ),
    ensures
        sections_clear(s, path, used, v),
{
    lemma_spot_lengths();
    assert forall|i: int| 0 <= i < v.len() implies spot_clear(
        s,
        path,
        used,
        ((#[trigger] v[i]).section, Seq::empty()),
    ) by {
        let x: Spot = (v[i].section, Seq::empty());
        assert(missing_fits(s, path, a.advanced, a.advanced.len() as int, v[i]));
        lemma_board_section(v[i].section);
        assert forall|k: int| 0 <= k < used.len() implies spots_apart(s, path, #[trigger] used[k], x) by {
            if k < b {
                assert(first_fits(s, path, ex, a, used[k]));
                if added_section(s, path, ex, a, used[k]) {
                    lemma_board_section(used[k].0);
                }
            } else {
                assert(key_used(s, path, a.advanced, a.advanced.len() as int, used[k]));
                let l = choose|l: int|
                    0 <= l < a.advanced.len() && used[k] == key_spot((#[trigger] a.advanced[l]).0);
                lemma_dut_key(a.advanced[l].0);
                lemma_key_name(a.advanced[l].0);
            }
        }
    }
}

/// The plan with the new sections from value `i` on.
#[verifier::opaque]
spec fn groups_plan(
    p: Plan,
    s: Seq<char>,
    path: Seq<SegView>,
    v: Seq<MissingView>,
    i: int,
) -> Plan {
    groups_from(p, s, path, v, i)
}

proof fn lemma_groups_step(p: Plan, s: Seq<char>, path: Seq<SegView>, v: Seq<MissingView>, i: int)
    requires
        p.1 is None,
        0 <= i < v.len(),
        groups_plan(p, s, path, v, i).1 is None,
    ensures
        seen_before(v, i) ==> {
            &&& groups_plan(p, s, path, v, i) == groups_plan(p, s, path, v, i + 1)
            &&& group_changes(path, v, i) == group_changes(path, v, i + 1)
        },
        !seen_before(v, i) ==> {
            let sets = sets_of(v, v[i].section, v.len() as int);
            let next = new_section(p.0, s, path, v[i].section, sets);
            &&& next.1 is None
            &&& groups_plan(p, s, path, v, i) == groups_plan(next, s, path, v, i + 1)
            &&& group_changes(path, v, i) == seq![section_change(path, v[i].section, sets)]
                + group_changes(path, v, i + 1)
        },
{
    reveal(groups_plan);
    reveal_with_fuel(group_changes, 2);
    if !seen_before(v, i) {
        let sets = sets_of(v, v[i].section, v.len() as int);
        let next = match bad_field(sets, 0) {
            Some(e) => (p.0, Some(e)),
            None => new_section(p.0, s, path, v[i].section, sets),
        };
        if next.1 is Some {
            assert(groups_from(next, s, path, v, i + 1) == next);
        }
    }
}

proof fn lemma_groups_ended(p: Plan, s: Seq<char>, path: Seq<SegView>, v: Seq<MissingView>, i: int)
    requires
        i >= v.len(),
    ensures
        groups_plan(p, s, path, v, i) == p,
        group_changes(path, v, i) == Seq::<ChangeView>::empty(),
{
    reveal(groups_plan);
    reveal(group_changes);
}

/// One section that is not there.
proof fn lemma_group_track(
    s: Seq<char>,
    ops: Seq<OpView>,
    cs: Seq<ChangeView>,
    n: int,
    path: Seq<SegView>,
    used: Seq<Spot>,
    g: int,
    ex: DutView,
    a: DutAnswersView,
    v: Seq<MissingView>,
    i: int,
)
    requires
        board_track(s, ops, cs, n, path, used),
        board_there(s, path, ex),
        0 <= i < v.len(),
        all_missing_fit(s, path, a.advanced, a.advanced.len() as int, v),
        missing_differ(v),
        !seen_before(v, i),
        0 <= g <= used.len(),
        sections_clear(s, path, used.take(g), v),
        groups_used(used, g, v, i),
        new_section(
            ops,
            s,
            path,
            v[i].section,
            sets_of(v, v[i].section, v.len() as int),
        ).1 is None,
    ensures
        ({
            let sets = sets_of(v, v[i].section, v.len() as int);
            let more = used.push((v[i].section, Seq::empty()));
            &&& board_track(
                s,
                new_section(ops, s, path, v[i].section, sets).0,
                cs.push(section_change(path, v[i].section, sets)),
                n,
                path,
                more,
            )
            &&& more.take(g) == used.take(g)
            &&& groups_used(more, g, v, i + 1)
        }),
{
    let section = v[i].section;
    let sets = sets_of(v, section, v.len() as int);
    let x: Spot = (section, Seq::empty());
    let more = used.push(x);
    let n_keys = a.advanced.len() as int;
    assert(missing_fits(s, path, a.advanced, n_keys, v[i]));
    lemma_board_section(section);
    lemma_section_there(s, path, ex, section);
    lemma_sets_of(v, section, v.len() as int);
    assert forall|k: int| 0 <= k < sets.len() implies set_fits(#[trigger] sets[k]) by {
        assert(from_section(sets[k], v, section, v.len() as int));
        let l = choose|l: int|
            0 <= l < v.len() && (#[trigger] v[l]).section == section && v[l].set == sets[k];
        assert(missing_fits(s, path, a.advanced, n_keys, v[l]));
    }
    lemma_group_clear(s, path, a, used, g, v, i);
    lemma_section_track(s, ops, cs, n, path, used, section, sets);
    assert(more.take(g) =~= used.take(g));
    assert forall|k: int| g <= k < more.len() implies group_used(#[trigger] more[k], v, i + 1) by {
        if k < used.len() {
            assert(more[k] == used[k]);
            assert(group_used(used[k], v, i));
        } else {
            assert(more[k].0 == v[i].section);
        }
    }
}

/// The sections that are not there.
proof fn lemma_groups_track(
    s: Seq<char>,
    p: Plan,
    cs: Seq<ChangeView>,
    n: int,
    path: Seq<SegView>,
    used: Seq<Spot>,
    g: int,
    ex: DutView,
    a: DutAnswersView,
    v: Seq<MissingView>,
    i: int,
) -> (all: Seq<Spot>)
    requires
        p.1 is None,
        board_track(s, p.0, cs, n, path, used),
        board_there(s, path, ex),
        0 <= i <= v.len(),
        all_missing_fit(s, path, a.advanced, a.advanced.len() as int, v),
        missing_differ(v),
        0 <= g <= used.len(),
        sections_clear(s, path, used.take(g), v),
        groups_used(used, g, v, i),
        groups_plan(p, s, path, v, i).1 is None,
    ensures
        board_track(
            s,
            groups_plan(p, s, path, v, i).0,
            cs + group_changes(path, v, i),
            n,
            path,
            all,
        ),
        g <= all.len(),
        all.take(g) == used.take(g),
        groups_used(all, g, v, v.len() as int),
    decreases v.len() - i,
{
    if i < v.len() {
        lemma_groups_step(p, s, path, v, i);
        if seen_before(v, i) {
            assert forall|k: int| g <= k < used.len() implies group_used(
                #[trigger] used[k],
                v,
                i + 1,
            ) by {
                assert(group_used(used[k], v, i));
            }
            lemma_groups_track(s, p, cs, n, path, used, g, ex, a, v, i + 1)
        } else {
            let sets = sets_of(v, v[i].section, v.len() as int);
            let next = new_section(p.0, s, path, v[i].section, sets);
            let c = section_change(path, v[i].section, sets);
            lemma_group_track(s, p.0, cs, n, path, used, g, ex, a, v, i);
            let more = used.push((v[i].section, Seq::empty()));
            let all = lemma_groups_track(
                s,
                next,
                cs.push(c),
                n,
                path,
                more,
                g,
                ex,
                a,
                v,
                i + 1,
            );
            let rest = group_changes(path, v, i + 1);
            assert(cs.push(c) + rest =~= cs + (seq![c] + rest));
            all
        }
    } else {
        lemma_groups_ended(p, s, path, v, i);
        assert(cs + Seq::<ChangeView>::empty() =~= cs);
        used
    }
}

// ── The whole board ──────────────────────────────────────────────────
/// The sections that the port and the user need, with all their values.
pub open spec fn early_missing(
    s: Seq<char>,
    path: Seq<SegView>,
    ex: DutView,
    a: DutAnswersView,
    global: Pairs,
) -> Seq<MissingView> {
    part(dut_missing(s, path, ex, a, global), quick_missing(s, path, ex, a), true)
}

/// The other sections that are added, with all their values.
pub open spec fn late_missing(
    s: Seq<char>,
    path: Seq<SegView>,
    ex: DutView,
    a: DutAnswersView,
    global: Pairs,
) -> Seq<MissingView> {
    part(dut_missing(s, path, ex, a, global), quick_missing(s, path, ex, a), false)
}

/// Whether all answers for a board can be read back.
pub open spec fn board_asks(
    s: Seq<char>,
    path: Seq<SegView>,
    ex: DutView,
    a: DutAnswersView,
    global: Pairs,
) -> bool {
    &&& relay_asks(s, path, ex, a)
    &&& keys_ask(a)
}

/// All changes that the answers for a board ask for.
pub open spec fn all_board_changes(
    s: Seq<char>,
    path: Seq<SegView>,
    ex: DutView,
    a: DutAnswersView,
    global: Pairs,
) -> Seq<ChangeView> {
    board_changes(s, path, ex, a) + group_changes(path, early_missing(s, path, ex, a, global), 0)
        + relay_changes_of(s, path, ex, a) + key_changes(s, path, ex, a, global, 0)
        + group_changes(path, late_missing(s, path, ex, a, global), 0)
}

// ── Sections that are added ──────────────────────────────────────────
/// The values for sections that are not there fit, from answer `i` on.
proof fn lemma_all_missing(
    s: Seq<char>,
    path: Seq<SegView>,
    ex: DutView,
    a: DutAnswersView,
    global: Pairs,
    missing: Seq<MissingView>,
    i: int,
)
    requires
        board_there(s, path, ex),
        keys_ask(a),
        0 <= i <= a.advanced.len(),
        all_missing_fit(s, path, a.advanced, i, missing),
        missing_differ(missing),
    ensures
        ({
            let all = missing + absent_from(s, path, dut_current_of(ex), global, a.advanced, i);
            &&& all_missing_fit(s, path, a.advanced, a.advanced.len() as int, all)
            &&& missing_differ(all)
        }),
    decreases a.advanced.len() - i,
{
    let own = dut_current_of(ex);
    let all = missing + absent_from(s, path, own, global, a.advanced, i);
    if i < a.advanced.len() {
        let rest = absent_from(s, path, own, global, a.advanced, i + 1);
        lemma_action(s, path, ex, a, global, i);
        lemma_missing_later(s, path, a.advanced, i, missing);
        let x = action_at(s, path, ex, a, global, i);
        assert(x == dut_key_action(s, path, own, global, a.advanced[i].0, a.advanced[i].1)) by {
            reveal(action_at);
        }
        match x {
            DutKeyAction::Missing(m) => {
                lemma_key_missing(s, path, ex, a, i, missing, m);
                lemma_all_missing(s, path, ex, a, global, missing.push(m), i + 1);
                assert(missing.push(m) + rest =~= all);
            },
            _ => {
                lemma_all_missing(s, path, ex, a, global, missing, i + 1);
                assert(missing + rest =~= all);
            },
        }
    } else {
        assert(all =~= missing);
    }
}

/// The port and the user, where their sections are not there.
proof fn lemma_quick_missing(s: Seq<char>, path: Seq<SegView>, ex: DutView, a: DutAnswersView)
    ensures
        all_missing_fit(s, path, a.advanced, 0, quick_missing(s, path, ex, a)),
        missing_differ(quick_missing(s, path, ex, a)),
{
    lemma_board_keys();
    lemma_port_set(ex, a);
    lemma_user_set(ex, a);
    let v = quick_missing(s, path, ex, a);
    assert forall|k: int| 0 <= k < v.len() implies missing_fits(
        s,
        path,
        a.advanced,
        0,
        #[trigger] v[k],
    ) by {
        assert(v[k].set == port_set(ex, a) || v[k].set == user_set(ex, a));
    }
}

/// A part of the values holds some of them, in different fields.
proof fn lemma_part(v: Seq<MissingView>, quick: Seq<MissingView>, want: bool)
    requires
        missing_differ(v),
    ensures
        missing_differ(part(v, quick, want)),
        forall|k: int|
            0 <= k < part(v, quick, want).len() ==> v.contains(#[trigger] part(v, quick, want)[k])
                && is_section_of(quick, part(v, quick, want)[k].section) == want,
    decreases v.len(),
{
    if v.len() > 0 {
        let front = v.drop_last();
        let x = v.last();
        assert forall|i: int, k: int| 0 <= i < k < front.len() implies (
            (#[trigger] front[i]).section,
            front[i].set.key,
        ) != ((#[trigger] front[k]).section, front[k].set.key) by {
            assert(front[i] == v[i] && front[k] == v[k]);
        }
        lemma_part(front, quick, want);
        let q = part(front, quick, want);
        let r = part(v, quick, want);
        assert forall|k: int| 0 <= k < r.len() implies v.contains(#[trigger] r[k]) && is_section_of(
            quick,
            r[k].section,
        ) == want by {
            if k < q.len() {
                assert(r[k] == q[k]);
                let l = choose|l: int| 0 <= l < front.len() && front[l] == q[k];
                assert(v[l] == q[k]);
            } else {
                assert(v[v.len() - 1] == r[k]);
            }
        }
        assert forall|i: int, k: int| 0 <= i < k < r.len() implies (
            (#[trigger] r[i]).section,
            r[i].set.key,
        ) != ((#[trigger] r[k]).section, r[k].set.key) by {
            assert(r[i] == q[i]);
            if k < q.len() {
                assert(r[k] == q[k]);
            } else {
                let l = choose|l: int| 0 <= l < front.len() && front[l] == q[i];
                assert(v[l] == q[i]);
                assert(v[v.len() - 1] == r[k]);
            }
        }
    }
}

/// The values of both parts fit, and no two of one part are for one field.
proof fn lemma_parts_fit(
    s: Seq<char>,
    path: Seq<SegView>,
    ex: DutView,
    a: DutAnswersView,
    global: Pairs,
    want: bool,
)
    requires
        board_there(s, path, ex),
        keys_ask(a),
    ensures
        ({
            let quick = quick_missing(s, path, ex, a);
            let v = part(dut_missing(s, path, ex, a, global), quick, want);
            &&& all_missing_fit(s, path, a.advanced, a.advanced.len() as int, v)
            &&& missing_differ(v)
            &&& forall|k: int| 0 <= k < v.len() ==> is_section_of(quick, (#[trigger] v[k]).section) == want
        }),
{
    let quick = quick_missing(s, path, ex, a);
    let n = a.advanced.len() as int;
    let missing = quick + absent_from(s, path, dut_current_of(ex), global, a.advanced, 0);
    let all = sorted_missing(missing);
    let v = part(all, quick, want);
    lemma_quick_missing(s, path, ex, a);
    lemma_all_missing(s, path, ex, a, global, quick, 0);
    lemma_sorted_missing(missing);
    lemma_part(all, quick, want);
    assert forall|k: int| 0 <= k < v.len() implies missing_fits(
        s,
        path,
        a.advanced,
        n,
        #[trigger] v[k],
    ) by {
        let l = choose|l: int| 0 <= l < all.len() && all[l] == v[k];
        assert(missing.contains(all[l]));
        let o = choose|o: int| 0 <= o < missing.len() && missing[o] == all[l];
        assert(missing_fits(s, path, a.advanced, n, missing[o]));
    }
}

// ── The plan of a board ──────────────────────────────────────────────
/// The plan with the quick values of a board.
#[verifier::opaque]
spec fn quick_plan(
    ops: Seq<OpView>,
    s: Seq<char>,
    path: Seq<SegView>,
    ex: DutView,
    a: DutAnswersView,
) -> Plan {
    dut_quick_changes(ops, s, path, ex, a)
}

/// The plan with the relay of a board.
#[verifier::opaque]
spec fn relay_plan(p: Plan, s: Seq<char>, path: Seq<SegView>, ex: DutView, a: DutAnswersView) -> Plan {
    relay_step(p, s, path, ex, a)
}

proof fn lemma_board_plan(
    ops: Seq<OpView>,
    s: Seq<char>,
    path: Seq<SegView>,
    ex: DutView,
    a: DutAnswersView,
    global: Pairs,
)
    requires
        dut_changes(ops, s, path, ex, a, global).1 is None,
    ensures
        ({
            let p = quick_plan(ops, s, path, ex, a);
            let q = groups_plan(p, s, path, early_missing(s, path, ex, a, global), 0);
            let r = relay_plan(q, s, path, ex, a);
            let (k, _) = keys_plan(r, Seq::empty(), s, path, ex, a, global, 0);
            let e = groups_plan(k, s, path, late_missing(s, path, ex, a, global), 0);
            &&& p.1 is None
            &&& q.1 is None
            &&& r.1 is None
            &&& k.1 is None
            &&& dut_changes(ops, s, path, ex, a, global) == e
        }),
{
    reveal(quick_plan);
    reveal(relay_plan);
    reveal(keys_plan);
    reveal(groups_plan);
    let early = early_missing(s, path, ex, a, global);
    let late = late_missing(s, path, ex, a, global);
    let own = dut_current_of(ex);
    let p = dut_quick_changes(ops, s, path, ex, a);
    let q = groups_from(p, s, path, early, 0);
    let r = relay_step(q, s, path, ex, a);
    let (k, _) = dut_keys_from(r, Seq::empty(), s, path, own, global, a.advanced, 0);
    assert(k.1 is Some ==> groups_from(k, s, path, late, 0) == k);
    assert(r.1 is Some ==> k == r);
    assert(q.1 is Some ==> r == q);
    assert(p.1 is Some ==> q == p);
}

proof fn lemma_quick_steps(
    ops: Seq<OpView>,
    s: Seq<char>,
    path: Seq<SegView>,
    ex: DutView,
    a: DutAnswersView,
)
    requires
        quick_plan(ops, s, path, ex, a).1 is None,
    ensures
        ({
            let p1 = name_step((ops, None), s, path, ex, a);
            let p2 = port_step((p1.0, None), s, path, ex, a);
            let p3 = user_step((p2.0, None), s, path, ex, a);
            &&& p1.1 is None
            &&& p2.1 is None
            &&& p3.1 is None
            &&& quick_plan(ops, s, path, ex, a) == p3
        }),
{
    reveal(quick_plan);
    let p1 = name_step((ops, None), s, path, ex, a);
    if p1.1 is None {
        assert(p1 == (p1.0, None::<Seq<char>>));
        let p2 = port_step(p1, s, path, ex, a);
        if p2.1 is None {
            assert(p2 == (p2.0, None::<Seq<char>>));
        }
    }
}

/// The quick values of a board.
proof fn lemma_quick_track(
    s: Seq<char>,
    ops: Seq<OpView>,
    cs: Seq<ChangeView>,
    n: int,
    path: Seq<SegView>,
    ex: DutView,
    a: DutAnswersView,
)
    requires
        board_track(s, ops, cs, n, path, Seq::empty()),
        board_there(s, path, ex),
        quick_plan(ops, s, path, ex, a).1 is None,
    ensures
        board_track(
            s,
            quick_plan(ops, s, path, ex, a).0,
            cs + board_changes(s, path, ex, a),
            n,
            path,
            board_spots(s, path, ex, a),
        ),
{
    lemma_quick_steps(ops, s, path, ex, a);
    let p1 = name_step((ops, None), s, path, ex, a);
    let p2 = port_step((p1.0, None), s, path, ex, a);
    let c1 = name_changes(s, path, ex, a);
    let c2 = port_changes(s, path, ex, a);
    let c3 = user_changes(s, path, ex, a);
    lemma_name_track(s, ops, cs, n, path, ex, a);
    lemma_port_track(s, p1.0, cs + c1, n, path, ex, a);
    lemma_user_track(s, p2.0, cs + c1 + c2, n, path, ex, a);
    assert(cs + c1 + c2 + c3 =~= cs + (c1 + c2 + c3));
}

/// The changes of a tracked board lie in it.
proof fn lemma_tracked_below(
    s: Seq<char>,
    ops: Seq<OpView>,
    cs: Seq<ChangeView>,
    n: int,
    path: Seq<SegView>,
    used: Seq<Spot>,
)
    requires
        board_track(s, ops, cs, n, path, used),
    ensures
        on_track(s, ops, cs),
        forall|k: int| n <= k < cs.len() ==> below(#[trigger] cs[k], path),
{
    reveal(board_track);
    assert forall|k: int| n <= k < cs.len() implies below(#[trigger] cs[k], path) by {
        let x = used[k - n];
        assert(in_spot(s, cs[n + (k - n)], path, x));
        lemma_spot_within(s, cs[k], path, x);
        lemma_within_below(cs[k], path, spot_name(x));
    }
}

/// The sections that the port and the user need, and the relay behind them.
proof fn lemma_early_track(
    s: Seq<char>,
    p: Plan,
    cs: Seq<ChangeView>,
    n: int,
    path: Seq<SegView>,
    ex: DutView,
    a: DutAnswersView,
    global: Pairs,
) -> (first: Seq<Spot>)
    requires
        p.1 is None,
        board_track(s, p.0, cs, n, path, board_spots(s, path, ex, a)),
        board_there(s, path, ex),
        board_asks(s, path, ex, a, global),
        ({
            let q = groups_plan(p, s, path, early_missing(s, path, ex, a, global), 0);
            q.1 is None && relay_plan(q, s, path, ex, a).1 is None
        }),
    ensures
        ({
            let early = early_missing(s, path, ex, a, global);
            let q = groups_plan(p, s, path, early, 0);
            &&& board_track(
                s,
                relay_plan(q, s, path, ex, a).0,
                cs + group_changes(path, early, 0) + relay_changes_of(s, path, ex, a),
                n,
                path,
                first,
            )
            &&& forall|k: int| 0 <= k < first.len() ==> first_fits(s, path, ex, a, #[trigger] first[k])
        }),
{
    let used = board_spots(s, path, ex, a);
    let early = early_missing(s, path, ex, a, global);
    let quick = quick_missing(s, path, ex, a);
    let g = used.len() as int;
    let q = groups_plan(p, s, path, early, 0);
    lemma_parts_fit(s, path, ex, a, global, true);
    lemma_early_clear(s, path, ex, a, early);
    assert(used.take(g) =~= used);
    let with = lemma_groups_track(s, p, cs, n, path, used, g, ex, a, early, 0);
    assert(before_relay(s, path, ex, a, with)) by {
        assert forall|k: int| 0 <= k < with.len() implies first_fits(s, path, ex, a, #[trigger] with[k])
            && spot_name(with[k]) != "relay"@ by {
            if k < g {
                assert(with.take(g)[k] == used[k]);
                lemma_board_spots(s, path, ex, a, k);
            } else {
                assert(group_used(with[k], early, early.len() as int));
                let l = choose|l: int|
                    0 <= l < early.len() && with[k].0 == (#[trigger] early[l]).section;
                assert(missing_fits(s, path, a.advanced, a.advanced.len() as int, early[l]));
                lemma_board_section(early[l].section);
                lemma_spot_lengths();
                assert(is_section_of(quick, early[l].section));
            }
        }
    }
    assert(q == (q.0, None::<Seq<char>>));
    assert(relay_plan(q, s, path, ex, a) == relay_step((q.0, None), s, path, ex, a)) by {
        reveal(relay_plan);
    }
    lemma_relay_track(s, q.0, cs + group_changes(path, early, 0), n, path, with, ex, a);
    let first = with + relay_spots(s, path, ex, a);
    assert forall|k: int| 0 <= k < first.len() implies first_fits(s, path, ex, a, #[trigger] first[k]) by {
        if k < with.len() {
            assert(first[k] == with[k]);
        } else {
            lemma_relay_spots(s, path, ex, a, k - with.len());
        }
    }
    first
}

/// The advanced keys of a board, and the other sections that are added.
proof fn lemma_rest_track(
    s: Seq<char>,
    p: Plan,
    cs: Seq<ChangeView>,
    n: int,
    path: Seq<SegView>,
    first: Seq<Spot>,
    ex: DutView,
    a: DutAnswersView,
    global: Pairs,
) -> (spots: Seq<Spot>)
    requires
        p.1 is None,
        board_track(s, p.0, cs, n, path, first),
        board_there(s, path, ex),
        board_asks(s, path, ex, a, global),
        forall|k: int| 0 <= k < first.len() ==> first_fits(s, path, ex, a, #[trigger] first[k]),
        ({
            let (q, _) = keys_plan(p, Seq::empty(), s, path, ex, a, global, 0);
            q.1 is None && groups_plan(
                q,
                s,
                path,
                late_missing(s, path, ex, a, global),
                0,
            ).1 is None
        }),
    ensures
        ({
            let late = late_missing(s, path, ex, a, global);
            let (q, _) = keys_plan(p, Seq::empty(), s, path, ex, a, global, 0);
            board_track(
                s,
                groups_plan(q, s, path, late, 0).0,
                cs + key_changes(s, path, ex, a, global, 0) + group_changes(path, late, 0),
                n,
                path,
                spots,
            )
        }),
{
    let b = first.len() as int;
    let late = late_missing(s, path, ex, a, global);
    let (q, _) = keys_plan(p, Seq::empty(), s, path, ex, a, global, 0);
    let used = lemma_keys_track(s, p, Seq::empty(), cs, n, path, first, ex, a, b, global, 0);
    lemma_parts_fit(s, path, ex, a, global, false);
    lemma_late_clear(s, path, ex, a, b, used, late);
    let g = used.len() as int;
    assert(used.take(g) =~= used);
    lemma_groups_track(
        s,
        q,
        cs + key_changes(s, path, ex, a, global, 0),
        n,
        path,
        used,
        g,
        ex,
        a,
        late,
        0,
    )
}

/// The plan with all changes of a board.
#[verifier::opaque]
pub open spec fn board_plan(
    ops: Seq<OpView>,
    s: Seq<char>,
    path: Seq<SegView>,
    ex: DutView,
    a: DutAnswersView,
    global: Pairs,
) -> Plan {
    dut_changes(ops, s, path, ex, a, global)
}

/// The plan of a board is on track.
pub proof fn lemma_board_is_on_track(
    s: Seq<char>,
    ops: Seq<OpView>,
    cs: Seq<ChangeView>,
    path: Seq<SegView>,
    ex: DutView,
    a: DutAnswersView,
    global: Pairs,
)
    requires
        on_track(s, ops, cs),
        forall|k: int, d: ChangeView|
            0 <= k < cs.len() && below(d, path) ==> #[trigger] apart(cs[k], d),
        board_there(s, path, ex),
        board_asks(s, path, ex, a, global),
        board_plan(ops, s, path, ex, a, global).1 is None,
    ensures
        ({
            let all = cs + all_board_changes(s, path, ex, a, global);
            &&& on_track(s, board_plan(ops, s, path, ex, a, global).0, all)
            &&& forall|k: int| cs.len() <= k < all.len() ==> below(#[trigger] all[k], path)
        }),
{
    let n = cs.len() as int;
    let early = early_missing(s, path, ex, a, global);
    let late = late_missing(s, path, ex, a, global);
    let p = quick_plan(ops, s, path, ex, a);
    let q = groups_plan(p, s, path, early, 0);
    let r = relay_plan(q, s, path, ex, a);
    let (k, _) = keys_plan(r, Seq::empty(), s, path, ex, a, global, 0);
    assert(p.1 is None && q.1 is None && r.1 is None && k.1 is None && board_plan(
        ops,
        s,
        path,
        ex,
        a,
        global,
    ) == groups_plan(k, s, path, late, 0)) by {
        reveal(board_plan);
        lemma_board_plan(ops, s, path, ex, a, global);
    }
    assert(board_track(s, ops, cs, n, path, Seq::<Spot>::empty())) by {
        reveal(board_track);
    }
    let c1 = board_changes(s, path, ex, a);
    let c2 = group_changes(path, early, 0);
    let c3 = relay_changes_of(s, path, ex, a);
    let c4 = key_changes(s, path, ex, a, global, 0);
    let c5 = group_changes(path, late, 0);
    lemma_quick_track(s, ops, cs, n, path, ex, a);
    let first = lemma_early_track(s, p, cs + c1, n, path, ex, a, global);
    let spots = lemma_rest_track(s, r, cs + c1 + c2 + c3, n, path, first, ex, a, global);
    let all = cs + all_board_changes(s, path, ex, a, global);
    assert(cs + c1 + c2 + c3 + c4 + c5 =~= all);
    lemma_tracked_below(s, board_plan(ops, s, path, ex, a, global).0, all, n, path, spots);
}

} // verus!

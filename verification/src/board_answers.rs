//! What the changes for a board make of each answer to an advanced key, and
//! which of its keys they pass by.
use crate::advanced::{dut_owned, field_of, keywords, literal_of, scalar_of, section_of};
use crate::answers::DutAnswersView;
use crate::append::lemma_json_behind;
use crate::board::{
    board_changes, board_there, member_change, name_changes, port_changes, user_changes,
};
use crate::board_fields::{
    action_at, all_board_changes, early_missing, group_changes, key_changes, keys_ask,
    late_missing, lemma_container_there, lemma_spelled, relay_changes_of, relay_sets, relay_unsets,
    section_change, set_changes, set_members, spelled, unset_changes,
};
use crate::board_keys::{board_sections, lemma_board_section, lemma_dut_key};
use crate::changes::ChangeView;
use crate::config::{member, DutView, NumberView};
use crate::current::dut_current_of;
use crate::jsonc::{quoted, JsonView};
use crate::kept::{
    items_json, lemma_real_is_number, lemma_texts_from, lemma_unsigned_decimal, scalar_json,
};
use crate::key_texts::{key_spot_at, shown};
use crate::locate::SegView;
use crate::number::{decimal, real_value, unsigned};
use crate::pieces::{lemma_reads_decimal, lemma_reads_quoted};
use crate::place::{json_at, under};
use crate::spared::{lemma_member_is_one, passes, spares};
use crate::spelling::lemma_scalar_spellable;
use crate::text::{joined, trimmed};
use crate::text_map::Pairs;
use crate::tidy::{lemma_array_is_tidy, lemma_scalar_is_tidy};
use crate::together::{lemma_some_member, says_change};
use crate::update_dut::{
    absent_from, dut_container, dut_missing, is_section_of, lemma_sorted_missing, part,
    quick_missing, seen_before, sets_of, sorted_missing, DutKeyAction, MissingView, SetView,
};
use crate::written::{lemma_reads_scalar, lemma_reads_texts};
use vstd::prelude::*;

verus! {

// ── Answers and texts ────────────────────────────────────────────────
/// Whether a text says what was answered under a key of a board: the answer
/// itself, but for white space around it; the number that it spells, where the
/// key holds one; the words that it lists, where the key holds a list.
pub open spec fn says_answer(key: Seq<char>, x: Seq<char>, answer: Seq<char>) -> bool {
    let t = trimmed(answer);
    ||| x == answer
    ||| x == t
    ||| (key == "serial.baudrate"@ || key == "monitor.max_archived_logs"@) && (unsigned(
        t,
        u64::MAX as nat,
    ) matches Some(n) && x == decimal(n))
    ||| key == "serial.baudrate"@ && (real_value(t) matches Some(r) && (x == r.text || (unsigned(
        r.text,
        u64::MAX as nat,
    ) matches Some(n) && x == decimal(n))))
    ||| key == "monitor.crash_keywords"@ && x == joined(keywords(t), ", "@)
}

/// What an answer is written as says the answer.
pub proof fn lemma_literal_says_answer(key: Seq<char>, value: Seq<char>, literal: Seq<char>)
    requires
        dut_owned(key),
        literal_of(key, value) == Ok::<Option<Seq<char>>, Seq<char>>(Some(literal)),
    ensures
        shown(Some(spelled(literal))) matches Some(x) && says_answer(key, x, value),
{
    let t = trimmed(value);
    crate::text::lemma_trimmed_idempotent(value);
    crate::key_texts::lemma_which(key);
    crate::key_texts::lemma_names_differ();
    crate::key_texts::lemma_other_names_differ();
    if key == "serial.baudrate"@ {
        let v = scalar_of(t);
        lemma_scalar_spellable(t);
        lemma_reads_scalar(v);
        lemma_scalar_is_tidy(scalar_json(v));
        lemma_spelled(literal, scalar_json(v));
        if let NumberView::Int(n) = v {
            lemma_unsigned_decimal(n, u64::MAX as nat);
        }
        if real_value(t) is Some {
            lemma_real_is_number(t);
        }
    } else if key == "monitor.max_archived_logs"@ {
        let n = unsigned(t, u64::MAX as nat)->0;
        lemma_reads_decimal(n);
        lemma_scalar_is_tidy(JsonView::Number(literal));
        lemma_spelled(literal, JsonView::Number(literal));
        lemma_unsigned_decimal(n, u64::MAX as nat);
    } else if key == "monitor.crash_keywords"@ {
        let items = items_json(keywords(t));
        lemma_reads_texts(keywords(t), 0);
        assert forall|k: int| 0 <= k < items.len() implies crate::place::tidy(#[trigger] items[k]) by {
            lemma_scalar_is_tidy(items[k]);
        }
        lemma_array_is_tidy(items);
        lemma_spelled(literal, JsonView::Array(items));
        lemma_texts_from(keywords(t), 0);
        assert(keywords(t).take(0) =~= Seq::empty());
    } else {
        assert(literal == quoted(t));
        lemma_reads_quoted(t);
        lemma_scalar_is_tidy(JsonView::Text(t));
        lemma_spelled(literal, JsonView::Text(t));
    }
}

// ── Places in a board ────────────────────────────────────────────────
/// Whether a section and a field are another place than that of a key; without
/// a section, the field is a member of the board.
pub open spec fn elsewhere(section: Seq<char>, field: Seq<char>, key: Seq<char>) -> bool {
    if section_of(key).len() == 0 {
        if section.len() == 0 {
            field != field_of(key)
        } else {
            section != field_of(key)
        }
    } else if section.len() == 0 {
        field != section_of(key)
    } else {
        section != section_of(key) || field != field_of(key)
    }
}

/// Where a field stands in a board.
pub open spec fn holder(path: Seq<SegView>, section: Seq<char>) -> Seq<SegView> {
    if section.len() == 0 {
        path
    } else {
        path.push(SegView::Key(section))
    }
}

proof fn lemma_diverge(p: Seq<SegView>, q: Seq<SegView>, k: int)
    requires
        0 <= k < p.len(),
        k < q.len(),
        p[k] != q[k],
    ensures
        !under(p, q),
        !under(q, p),
{
    if under(p, q) {
        assert(q.take(p.len() as int)[k] == p[k]);
    }
    if under(q, p) {
        assert(p.take(q.len() as int)[k] == q[k]);
    }
}

proof fn lemma_place_differs(
    path: Seq<SegView>,
    section: Seq<char>,
    field: Seq<char>,
    key: Seq<char>,
)
    requires
        elsewhere(section, field, key),
    ensures
        ({
            let p = holder(path, section).push(SegView::Key(field));
            let q = key_spot_at(path, key);
            !under(p, q) && !under(q, p)
        }),
{
    let p = holder(path, section).push(SegView::Key(field));
    let q = key_spot_at(path, key);
    let n = path.len() as int;
    if p[n] != q[n] {
        lemma_diverge(p, q, n);
    } else {
        lemma_diverge(p, q, n + 1);
    }
}

proof fn lemma_on_the_way(path: Seq<SegView>, section: Seq<char>, key: Seq<char>)
    ensures
        ({
            let c = holder(path, section);
            let q = key_spot_at(path, key);
            &&& !under(q, c) || (section_of(key).len() == 0 && section == field_of(key))
            &&& under(path, q)
            &&& under(path, c)
            &&& under(c, q) && section.len() > 0 ==> section == (if section_of(key).len() == 0 {
                field_of(key)
            } else {
                section_of(key)
            })
        }),
{
    let c = holder(path, section);
    let q = key_spot_at(path, key);
    let n = path.len() as int;
    assert(q.take(n) =~= path);
    assert(c.take(n) =~= path);
    if under(q, c) && section.len() > 0 {
        assert(c.take(q.len() as int)[n] == q[n]);
    }
    if under(c, q) && section.len() > 0 {
        assert(q.take(c.len() as int)[n] == c[n]);
    }
}

/// A change of a member of a board passes by the keys that stand elsewhere.
pub proof fn lemma_member_passes(
    s: Seq<char>,
    path: Seq<SegView>,
    section: Seq<char>,
    field: Seq<char>,
    w: JsonView,
    key: Seq<char>,
)
    requires
        elsewhere(section, field, key),
    ensures
        passes(
            member_change(s, holder(path, section), field, w),
            key_spot_at(path, key),
            path,
        ),
{
    let c = holder(path, section);
    let p = c.push(SegView::Key(field));
    let q = key_spot_at(path, key);
    lemma_place_differs(path, section, field, key);
    lemma_on_the_way(path, section, key);
    let n = path.len() as int;
    assert(!under(p, path));
    if under(c, q) {
        assert(q[c.len() as int] != SegView::Key(field));
    }
}

/// Taking a member out of a board passes by the keys that stand elsewhere.
pub proof fn lemma_gone_passes(
    path: Seq<SegView>,
    section: Seq<char>,
    field: Seq<char>,
    key: Seq<char>,
)
    requires
        elsewhere(section, field, key),
    ensures
        passes(
            ChangeView::Gone { path: holder(path, section), key: field },
            key_spot_at(path, key),
            path,
        ),
{
    lemma_place_differs(path, section, field, key);
    assert(!under(holder(path, section).push(SegView::Key(field)), path));
}

/// A section that is added passes by the keys that are not among its members.
pub proof fn lemma_section_passes(
    path: Seq<SegView>,
    section: Seq<char>,
    sets: Seq<SetView>,
    key: Seq<char>,
)
    requires
        section_of(key).len() == 0 ==> section != field_of(key),
        section_of(key).len() > 0 ==> forall|k: int|
            0 <= k < sets.len() ==> section != section_of(key) || (#[trigger] sets[k]).key
                != field_of(key),
    ensures
        passes(section_change(path, section, sets), key_spot_at(path, key), path),
{
    let q = key_spot_at(path, key);
    let n = path.len() as int;
    lemma_on_the_way(path, Seq::empty(), key);
    assert(!under(q, path));
    let m = set_members(sets);
    let added = seq![(section, JsonView::Object(m))];
    if section_of(key).len() > 0 && section == section_of(key) {
        let r = q.skip(n + 1);
        assert(r =~= seq![SegView::Key(field_of(key))]);
        if member(m, field_of(key)) is Some {
            let k = lemma_member_is_one(m, field_of(key), 0);
            assert(sets[k].key == field_of(key));
        }
        assert(json_at(JsonView::Object(m), r) is None);
    }
    assert(spares(section_change(path, section, sets), q));
}

// ── Which places the answers aim at ──────────────────────────────────
/// The names that the members of a board have beside the sections of its own
/// keys.
proof fn lemma_fixed_names()
    ensures
        "serial"@.len() > 0,
        "target"@.len() > 0,
        "relay"@.len() > 0,
        "serial"@ != "loader"@,
        "target"@ != "loader"@,
        "relay"@ != "loader"@,
        "dut_name"@ != "loader"@,
{
    assert(board_sections()[0] == "serial"@);
    assert(board_sections()[1] == "target"@);
    lemma_board_section("serial"@);
    lemma_board_section("target"@);
    reveal_strlit("relay");
    reveal_strlit("loader");
    reveal_strlit("dut_name");
    assert("relay"@.len() == 5 && "loader"@.len() == 6 && "dut_name"@.len() == 8);
}

/// The places that are not those of advanced keys.
proof fn lemma_other_places(key: Seq<char>, field: Seq<char>)
    requires
        dut_owned(key),
    ensures
        elsewhere(Seq::empty(), "dut_name"@, key),
        elsewhere("serial"@, "port"@, key),
        elsewhere("target"@, "login_user"@, key),
        elsewhere("relay"@, field, key),
{
    lemma_dut_key(key);
    lemma_fixed_names();
    if section_of(key).len() > 0 {
        lemma_board_section(section_of(key));
    }
}

/// Two keys of a board stand in different places.
proof fn lemma_keys_elsewhere(other: Seq<char>, key: Seq<char>)
    requires
        dut_owned(other),
        dut_owned(key),
        other != key,
    ensures
        elsewhere(section_of(other), field_of(other), key),
{
    lemma_dut_key(key);
    lemma_dut_key(other);
    if section_of(key).len() > 0 {
        lemma_board_section(section_of(key));
    }
    if section_of(other).len() > 0 {
        lemma_board_section(section_of(other));
    }
}

/// Whether a value for a section that is not there is that of the port or the
/// user, or comes from an answer.
pub open spec fn comes_from_answer(
    s: Seq<char>,
    path: Seq<SegView>,
    ex: DutView,
    a: DutAnswersView,
    global: Pairs,
    x: MissingView,
) -> bool {
    ||| x.section == "serial"@ && x.set.key == "port"@
    ||| x.section == "target"@ && x.set.key == "login_user"@
    ||| exists|i: int|
        0 <= i < a.advanced.len() && (#[trigger] action_at(s, path, ex, a, global, i))
            == DutKeyAction::Missing(x)
}

proof fn lemma_absent(
    s: Seq<char>,
    path: Seq<SegView>,
    ex: DutView,
    a: DutAnswersView,
    global: Pairs,
    i: int,
)
    requires
        0 <= i,
    ensures
        ({
            let v = absent_from(s, path, dut_current_of(ex), global, a.advanced, i);
            &&& forall|k: int|
                0 <= k < v.len() ==> comes_from_answer(s, path, ex, a, global, #[trigger] v[k])
            &&& forall|n: int, x: MissingView|
                i <= n < a.advanced.len() && (#[trigger] action_at(s, path, ex, a, global, n))
                    == DutKeyAction::Missing(x) ==> #[trigger] v.contains(x)
        }),
    decreases a.advanced.len() - i,
{
    let v = absent_from(s, path, dut_current_of(ex), global, a.advanced, i);
    if i < a.advanced.len() {
        lemma_absent(s, path, ex, a, global, i + 1);
        let rest = absent_from(s, path, dut_current_of(ex), global, a.advanced, i + 1);
        let here = action_at(s, path, ex, a, global, i);
        reveal(action_at);
        let front = match here {
            DutKeyAction::Missing(m) => seq![m],
            _ => Seq::empty(),
        };
        assert(v == front + rest);
        assert forall|k: int| 0 <= k < v.len() implies comes_from_answer(
            s,
            path,
            ex,
            a,
            global,
            #[trigger] v[k],
        ) by {
            if k < front.len() {
                assert(action_at(s, path, ex, a, global, i) == DutKeyAction::Missing(v[k]));
            } else {
                assert(v[k] == rest[k - front.len()]);
            }
        }
        assert forall|n: int, x: MissingView|
            i <= n < a.advanced.len() && (#[trigger] action_at(s, path, ex, a, global, n))
                == DutKeyAction::Missing(x) implies #[trigger] v.contains(x) by {
            if n == i {
                assert(v[0] == x);
            } else {
                assert(rest.contains(x));
                let k = choose|k: int| 0 <= k < rest.len() && rest[k] == x;
                assert(v[front.len() + k] == x);
            }
        }
    }
}

proof fn lemma_part_of(v: Seq<MissingView>, quick: Seq<MissingView>, want: bool, x: MissingView)
    ensures
        part(v, quick, want).contains(x) <==> v.contains(x) && is_section_of(quick, x.section)
            == want,
    decreases v.len(),
{
    if v.len() > 0 {
        let front = part(v.drop_last(), quick, want);
        lemma_part_of(v.drop_last(), quick, want, x);
        let p = part(v, quick, want);
        if v.drop_last().contains(x) {
            let k = choose|k: int| 0 <= k < v.drop_last().len() && v.drop_last()[k] == x;
            assert(v[k] == x);
        }
        if v.contains(x) && x != v.last() {
            let k = choose|k: int| 0 <= k < v.len() && v[k] == x;
            assert(v.drop_last()[k] == x);
        }
        if front.contains(x) {
            let k = choose|k: int| 0 <= k < front.len() && front[k] == x;
            assert(p[k] == x);
        }
        if p.contains(x) && x != v.last() {
            let k = choose|k: int| 0 <= k < p.len() && p[k] == x;
            assert(front[k] == x);
        }
        if is_section_of(quick, v.last().section) == want {
            assert(p.last() == v.last());
            assert(p[p.len() - 1] == v.last());
        }
        assert(v[v.len() - 1] == v.last());
    }
}

proof fn lemma_sorted_has(v: Seq<MissingView>, x: MissingView)
    ensures
        sorted_missing(v).contains(x) == v.contains(x),
{
    lemma_sorted_missing(v);
    broadcast use vstd::seq_lib::group_to_multiset_ensures;

    assert(sorted_missing(v).to_multiset().count(x) == v.to_multiset().count(x));
}

/// The values for sections that are not there come from answers, and every
/// answer for such a section is among them.
proof fn lemma_missing_values(
    s: Seq<char>,
    path: Seq<SegView>,
    ex: DutView,
    a: DutAnswersView,
    global: Pairs,
    x: MissingView,
)
    ensures
        ({
            let early = early_missing(s, path, ex, a, global);
            let late = late_missing(s, path, ex, a, global);
            &&& early.contains(x) || late.contains(x) ==> comes_from_answer(
                s,
                path,
                ex,
                a,
                global,
                x,
            )
            &&& forall|n: int|
                0 <= n < a.advanced.len() && (#[trigger] action_at(s, path, ex, a, global, n))
                    == DutKeyAction::Missing(x) ==> early.contains(x) || late.contains(x)
        }),
{
    let quick = quick_missing(s, path, ex, a);
    let absent = absent_from(s, path, dut_current_of(ex), global, a.advanced, 0);
    let all = quick + absent;
    lemma_absent(s, path, ex, a, global, 0);
    lemma_sorted_has(all, x);
    lemma_part_of(dut_missing(s, path, ex, a, global), quick, true, x);
    lemma_part_of(dut_missing(s, path, ex, a, global), quick, false, x);
    if all.contains(x) {
        let k = choose|k: int| 0 <= k < all.len() && all[k] == x;
        if k < quick.len() {
            assert(quick[k] == x);
        } else {
            assert(absent[k - quick.len()] == x);
        }
    }
    assert forall|n: int|
        0 <= n < a.advanced.len() && (#[trigger] action_at(s, path, ex, a, global, n))
            == DutKeyAction::Missing(x) implies all.contains(x) by {
        assert(absent.contains(x));
        let k = choose|k: int| 0 <= k < absent.len() && absent[k] == x;
        assert(all[quick.len() + k] == x);
    }
}

/// A value for a section that is not there stands elsewhere than a key, or it is
/// the answer to that key.
proof fn lemma_missing_elsewhere(
    s: Seq<char>,
    path: Seq<SegView>,
    ex: DutView,
    a: DutAnswersView,
    global: Pairs,
    x: MissingView,
    i: int,
)
    requires
        keys_ask(a),
        0 <= i < a.advanced.len(),
        comes_from_answer(s, path, ex, a, global, x),
    ensures
        elsewhere(x.section, x.set.key, a.advanced[i].0) || action_at(s, path, ex, a, global, i)
            == DutKeyAction::Missing(x),
        section_of(a.advanced[i].0).len() == 0 && x.section.len() > 0 ==> x.section != field_of(
            a.advanced[i].0,
        ),
{
    let key = a.advanced[i].0;
    assert(dut_owned(key));
    lemma_other_places(key, Seq::empty());
    lemma_dut_key(key);
    lemma_fixed_names();
    if !(x.section == "serial"@ && x.set.key == "port"@) && !(x.section == "target"@ && x.set.key
        == "login_user"@) {
        let n = choose|n: int|
            0 <= n < a.advanced.len() && (#[trigger] action_at(s, path, ex, a, global, n))
                == DutKeyAction::Missing(x);
        let other = a.advanced[n].0;
        assert(dut_owned(other));
        lemma_dut_key(other);
        reveal(action_at);
        assert(x.section == section_of(other) && x.set.key == field_of(other));
        if section_of(other).len() > 0 {
            lemma_board_section(section_of(other));
        }
        if other != key {
            lemma_keys_elsewhere(other, key);
        } else {
            assert(n == i);
        }
    }
}

/// Whether all changes pass by a key of the board at a path.
pub open spec fn all_pass(cs: Seq<ChangeView>, path: Seq<SegView>, key: Seq<char>) -> bool {
    forall|n: int| 0 <= n < cs.len() ==> passes(#[trigger] cs[n], key_spot_at(path, key), path)
}

proof fn lemma_both_pass(
    a: Seq<ChangeView>,
    b: Seq<ChangeView>,
    path: Seq<SegView>,
    key: Seq<char>,
)
    requires
        all_pass(a, path, key),
        all_pass(b, path, key),
    ensures
        all_pass(a + b, path, key),
{
    let all = a + b;
    assert forall|n: int| 0 <= n < all.len() implies passes(
        #[trigger] all[n],
        key_spot_at(path, key),
        path,
    ) by {
        if n < a.len() {
            assert(all[n] == a[n]);
        } else {
            assert(all[n] == b[n - a.len()]);
        }
    }
}

// ── Name, port and user ──────────────────────────────────────────────
proof fn lemma_quick_pass(
    s: Seq<char>,
    path: Seq<SegView>,
    ex: DutView,
    a: DutAnswersView,
    key: Seq<char>,
)
    requires
        dut_owned(key),
    ensures
        all_pass(board_changes(s, path, ex, a), path, key),
{
    lemma_other_places(key, Seq::empty());
    lemma_fixed_names();
    lemma_member_passes(s, path, Seq::empty(), "dut_name"@, JsonView::Text(a.dut_name), key);
    lemma_member_passes(
        s,
        path,
        "serial"@,
        "port"@,
        scalar_json(scalar_of(a.serial_port)),
        key,
    );
    lemma_member_passes(s, path, "target"@, "login_user"@, JsonView::Text(a.login_user), key);
    lemma_both_pass(name_changes(s, path, ex, a), port_changes(s, path, ex, a), path, key);
    lemma_both_pass(
        name_changes(s, path, ex, a) + port_changes(s, path, ex, a),
        user_changes(s, path, ex, a),
        path,
        key,
    );
}

// ── The relay ────────────────────────────────────────────────────────
proof fn lemma_sets_pass(
    s: Seq<char>,
    path: Seq<SegView>,
    sets: Seq<SetView>,
    i: int,
    key: Seq<char>,
)
    requires
        dut_owned(key),
        0 <= i,
    ensures
        all_pass(set_changes(s, path.push(SegView::Key("relay"@)), sets, i), path, key),
    decreases sets.len() - i,
{
    if i < sets.len() {
        lemma_fixed_names();
        lemma_other_places(key, sets[i].key);
        let w = spelled(sets[i].literal);
        let relay = path.push(SegView::Key("relay"@));
        lemma_member_passes(s, path, "relay"@, sets[i].key, w, key);
        lemma_sets_pass(s, path, sets, i + 1, key);
        lemma_both_pass(
            seq![member_change(s, relay, sets[i].key, w)],
            set_changes(s, relay, sets, i + 1),
            path,
            key,
        );
    }
}

proof fn lemma_unsets_pass(
    path: Seq<SegView>,
    unsets: Seq<(Seq<char>, Seq<char>)>,
    i: int,
    key: Seq<char>,
)
    requires
        dut_owned(key),
        0 <= i,
    ensures
        all_pass(unset_changes(path.push(SegView::Key("relay"@)), unsets, i), path, key),
    decreases unsets.len() - i,
{
    if i < unsets.len() {
        lemma_fixed_names();
        lemma_other_places(key, unsets[i].0);
        let relay = path.push(SegView::Key("relay"@));
        lemma_gone_passes(path, "relay"@, unsets[i].0, key);
        lemma_unsets_pass(path, unsets, i + 1, key);
        lemma_both_pass(
            seq![ChangeView::Gone { path: relay, key: unsets[i].0 }],
            unset_changes(relay, unsets, i + 1),
            path,
            key,
        );
    }
}

proof fn lemma_relay_passes(
    s: Seq<char>,
    path: Seq<SegView>,
    ex: DutView,
    a: DutAnswersView,
    key: Seq<char>,
)
    requires
        dut_owned(key),
    ensures
        all_pass(relay_changes_of(s, path, ex, a), path, key),
{
    reveal(relay_changes_of);
    let relay = path.push(SegView::Key("relay"@));
    lemma_sets_pass(s, path, relay_sets(ex, a), 0, key);
    lemma_unsets_pass(path, relay_unsets(ex, a), 0, key);
    lemma_both_pass(
        unset_changes(relay, relay_unsets(ex, a), 0),
        set_changes(s, relay, relay_sets(ex, a), 0),
        path,
        key,
    );
    lemma_dut_key(key);
    lemma_fixed_names();
    if section_of(key).len() > 0 {
        lemma_board_section(section_of(key));
    }
    lemma_section_passes(path, "relay"@, relay_sets(ex, a), key);
}

// ── Sections that are added ──────────────────────────────────────────
proof fn lemma_sets_of_come(v: Seq<MissingView>, section: Seq<char>, n: int, k: int) -> (i: int)
    requires
        0 <= n <= v.len(),
        0 <= k < sets_of(v, section, n).len(),
    ensures
        0 <= i < n,
        v[i].section == section,
        v[i].set == sets_of(v, section, n)[k],
    decreases n,
{
    if v[n - 1].section == section && k == sets_of(v, section, n).len() - 1 {
        n - 1
    } else {
        lemma_sets_of_come(v, section, n - 1, k)
    }
}

proof fn lemma_sets_of_has(v: Seq<MissingView>, n: int, i: int) -> (k: int)
    requires
        0 <= i < n <= v.len(),
    ensures
        0 <= k < sets_of(v, v[i].section, n).len(),
        sets_of(v, v[i].section, n)[k] == v[i].set,
    decreases n,
{
    if i == n - 1 {
        sets_of(v, v[i].section, n).len() - 1
    } else {
        lemma_sets_of_has(v, n - 1, i)
    }
}

proof fn lemma_groups_pass(path: Seq<SegView>, v: Seq<MissingView>, i: int, key: Seq<char>)
    requires
        dut_owned(key),
        0 <= i,
        forall|k: int|
            0 <= k < v.len() ==> elsewhere((#[trigger] v[k]).section, v[k].set.key, key) && (
            section_of(key).len() == 0 && v[k].section.len() > 0 ==> v[k].section != field_of(key)),
    ensures
        all_pass(group_changes(path, v, i), path, key),
    decreases v.len() - i,
{
    reveal_with_fuel(group_changes, 1);
    if i < v.len() {
        lemma_groups_pass(path, v, i + 1, key);
        if !seen_before(v, i) {
            let section = v[i].section;
            let sets = sets_of(v, section, v.len() as int);
            assert forall|k: int| 0 <= k < sets.len() implies section_of(key).len() > 0 ==> (section
                != section_of(key) || (#[trigger] sets[k]).key != field_of(key)) by {
                let n = lemma_sets_of_come(v, section, v.len() as int, k);
                assert(elsewhere(v[n].section, v[n].set.key, key));
            }
            lemma_dut_key(key);
            if section_of(key).len() == 0 {
                reveal_strlit("loader");
                assert(field_of(key).len() > 0);
            }
            lemma_section_passes(path, section, sets, key);
            lemma_both_pass(
                seq![section_change(path, section, sets)],
                group_changes(path, v, i + 1),
                path,
                key,
            );
        }
    }
}

/// A value for a section that is not there comes with its section.
proof fn lemma_group_among(path: Seq<SegView>, v: Seq<MissingView>, i: int, n: int)
    requires
        0 <= i <= n < v.len(),
        forall|k: int| 0 <= k < i ==> (#[trigger] v[k]).section != v[n].section,
    ensures
        group_changes(path, v, i).contains(
            section_change(path, v[n].section, sets_of(v, v[n].section, v.len() as int)),
        ),
    decreases v.len() - i,
{
    reveal_with_fuel(group_changes, 1);
    let c = section_change(path, v[n].section, sets_of(v, v[n].section, v.len() as int));
    let cs = group_changes(path, v, i);
    if v[i].section == v[n].section {
        if seen_before(v, i) {
            let k = choose|k: int| 0 <= k < i && (#[trigger] v[k]).section == v[i].section;
            assert(v[k].section != v[n].section);
        }
        assert(cs[0] == c);
    } else {
        lemma_group_among(path, v, i + 1, n);
        let rest = group_changes(path, v, i + 1);
        let k = choose|k: int| 0 <= k < rest.len() && rest[k] == c;
        if seen_before(v, i) {
            assert(cs[k] == c);
        } else {
            assert(cs[k + 1] == c);
        }
    }
}

// ── Sections that are there ──────────────────────────────────────────
proof fn lemma_keys_pass(
    s: Seq<char>,
    path: Seq<SegView>,
    ex: DutView,
    a: DutAnswersView,
    global: Pairs,
    n: int,
    i: int,
)
    requires
        keys_ask(a),
        0 <= n,
        0 <= i < a.advanced.len(),
        action_at(s, path, ex, a, global, i) is Nothing,
    ensures
        all_pass(key_changes(s, path, ex, a, global, n), path, a.advanced[i].0),
    decreases a.advanced.len() - n,
{
    reveal_with_fuel(key_changes, 1);
    let key = a.advanced[i].0;
    if n < a.advanced.len() {
        lemma_keys_pass(s, path, ex, a, global, n + 1, i);
        let other = a.advanced[n].0;
        assert(dut_owned(other) && dut_owned(key));
        let rest = key_changes(s, path, ex, a, global, n + 1);
        if n != i {
            assert(other != key);
            lemma_keys_elsewhere(other, key);
            let place = holder(path, section_of(other));
            assert(place == dut_container(path, other));
            match action_at(s, path, ex, a, global, n) {
                DutKeyAction::Write(e) => {
                    assert(e.key == field_of(other)) by {
                        reveal(action_at);
                    }
                    lemma_member_passes(
                        s,
                        path,
                        section_of(other),
                        e.key,
                        spelled(e.literal),
                        key,
                    );
                    lemma_both_pass(
                        seq![member_change(s, place, e.key, spelled(e.literal))],
                        rest,
                        path,
                        key,
                    );
                },
                DutKeyAction::Remove(_) => {
                    lemma_gone_passes(path, section_of(other), field_of(other), key);
                    lemma_both_pass(
                        seq![ChangeView::Gone { path: place, key: field_of(other) }],
                        rest,
                        path,
                        key,
                    );
                },
                _ => {
                    assert(Seq::<ChangeView>::empty() + rest =~= rest);
                },
            }
        } else {
            assert(Seq::<ChangeView>::empty() + rest =~= rest);
        }
    }
}

proof fn lemma_key_among(
    s: Seq<char>,
    path: Seq<SegView>,
    ex: DutView,
    a: DutAnswersView,
    global: Pairs,
    n: int,
    i: int,
)
    requires
        0 <= n <= i < a.advanced.len(),
    ensures
        ({
            let cs = key_changes(s, path, ex, a, global, n);
            let key = a.advanced[i].0;
            match action_at(s, path, ex, a, global, i) {
                DutKeyAction::Write(e) => cs.contains(
                    member_change(s, dut_container(path, key), e.key, spelled(e.literal)),
                ),
                DutKeyAction::Remove(_) => cs.contains(
                    ChangeView::Gone { path: dut_container(path, key), key: field_of(key) },
                ),
                _ => true,
            }
        }),
    decreases i - n,
{
    reveal_with_fuel(key_changes, 1);
    let cs = key_changes(s, path, ex, a, global, n);
    let rest = key_changes(s, path, ex, a, global, n + 1);
    if n < i {
        lemma_key_among(s, path, ex, a, global, n + 1, i);
        let front = (cs.len() - rest.len()) as int;
        assert forall|c: ChangeView| rest.contains(c) implies cs.contains(c) by {
            let k = choose|k: int| 0 <= k < rest.len() && rest[k] == c;
            assert(cs[front + k] == c);
        }
    } else {
        match action_at(s, path, ex, a, global, i) {
            DutKeyAction::Write(e) => {
                assert(cs[0] == member_change(
                    s,
                    dut_container(path, a.advanced[i].0),
                    e.key,
                    spelled(e.literal),
                ));
            },
            DutKeyAction::Remove(_) => {
                assert(cs[0] == (ChangeView::Gone {
                    path: dut_container(path, a.advanced[i].0),
                    key: field_of(a.advanced[i].0),
                }));
            },
            _ => {},
        }
    }
}

// ── The whole board ──────────────────────────────────────────────────
/// The changes for a board pass by a key whose answer asks for nothing.
pub proof fn lemma_board_passes(
    s: Seq<char>,
    path: Seq<SegView>,
    ex: DutView,
    a: DutAnswersView,
    global: Pairs,
    i: int,
)
    requires
        keys_ask(a),
        0 <= i < a.advanced.len(),
        action_at(s, path, ex, a, global, i) is Nothing,
    ensures
        all_pass(all_board_changes(s, path, ex, a, global), path, a.advanced[i].0),
{
    let key = a.advanced[i].0;
    assert(dut_owned(key));
    let early = early_missing(s, path, ex, a, global);
    let late = late_missing(s, path, ex, a, global);
    assert forall|k: int| 0 <= k < early.len() implies elsewhere(
        (#[trigger] early[k]).section,
        early[k].set.key,
        key,
    ) && (section_of(key).len() == 0 && early[k].section.len() > 0 ==> early[k].section != field_of(
        key,
    )) by {
        assert(early.contains(early[k]));
        lemma_missing_values(s, path, ex, a, global, early[k]);
        lemma_missing_elsewhere(s, path, ex, a, global, early[k], i);
    }
    assert forall|k: int| 0 <= k < late.len() implies elsewhere(
        (#[trigger] late[k]).section,
        late[k].set.key,
        key,
    ) && (section_of(key).len() == 0 && late[k].section.len() > 0 ==> late[k].section != field_of(
        key,
    )) by {
        assert(late.contains(late[k]));
        lemma_missing_values(s, path, ex, a, global, late[k]);
        lemma_missing_elsewhere(s, path, ex, a, global, late[k], i);
    }
    lemma_quick_pass(s, path, ex, a, key);
    lemma_groups_pass(path, early, 0, key);
    lemma_relay_passes(s, path, ex, a, key);
    lemma_keys_pass(s, path, ex, a, global, 0, i);
    lemma_groups_pass(path, late, 0, key);
    let c1 = board_changes(s, path, ex, a);
    let c2 = c1 + group_changes(path, early, 0);
    let c3 = c2 + relay_changes_of(s, path, ex, a);
    let c4 = c3 + key_changes(s, path, ex, a, global, 0);
    lemma_both_pass(c1, group_changes(path, early, 0), path, key);
    lemma_both_pass(c2, relay_changes_of(s, path, ex, a), path, key);
    lemma_both_pass(c3, key_changes(s, path, ex, a, global, 0), path, key);
    lemma_both_pass(c4, group_changes(path, late, 0), path, key);
}

/// Of what is said at a key in a document that says every change for a board:
/// the answer where it is to be written, nothing where it is to be taken out.
pub proof fn lemma_board_says_answer(
    s: Seq<char>,
    path: Seq<SegView>,
    ex: DutView,
    a: DutAnswersView,
    global: Pairs,
    i: int,
    k: JsonView,
)
    requires
        board_there(s, path, ex),
        keys_ask(a),
        0 <= i < a.advanced.len(),
        forall|c: ChangeView| #[trigger]
            all_board_changes(s, path, ex, a, global).contains(c) ==> says_change(k, c),
    ensures
        match action_at(s, path, ex, a, global, i) {
            DutKeyAction::Write(e) => json_at(k, key_spot_at(path, a.advanced[i].0)) == Some(
                spelled(e.literal),
            ),
            DutKeyAction::Remove(_) => json_at(k, key_spot_at(path, a.advanced[i].0)) is None,
            DutKeyAction::Missing(m) => json_at(k, key_spot_at(path, a.advanced[i].0)) == Some(
                spelled(m.set.literal),
            ),
            _ => true,
        },
{
    let all = all_board_changes(s, path, ex, a, global);
    let key = a.advanced[i].0;
    let c1 = board_changes(s, path, ex, a);
    let early = early_missing(s, path, ex, a, global);
    let late = late_missing(s, path, ex, a, global);
    let g1 = group_changes(path, early, 0);
    let r = relay_changes_of(s, path, ex, a);
    let ks = key_changes(s, path, ex, a, global, 0);
    let g2 = group_changes(path, late, 0);
    assert forall|c: ChangeView| ks.contains(c) || g1.contains(c) || g2.contains(c) implies all.contains(
        c,
    ) by {
        if ks.contains(c) {
            let n = choose|n: int| 0 <= n < ks.len() && ks[n] == c;
            assert(all[c1.len() + g1.len() + r.len() + n] == c);
        } else if g1.contains(c) {
            let n = choose|n: int| 0 <= n < g1.len() && g1[n] == c;
            assert(all[c1.len() + n] == c);
        } else {
            let n = choose|n: int| 0 <= n < g2.len() && g2[n] == c;
            assert(all[c1.len() + g1.len() + r.len() + ks.len() + n] == c);
        }
    }
    lemma_key_among(s, path, ex, a, global, 0, i);
    match action_at(s, path, ex, a, global, i) {
        DutKeyAction::Write(e) => {
            assert(e.key == field_of(key)) by {
                reveal(action_at);
            }
            let w = spelled(e.literal);
            let c = member_change(s, dut_container(path, key), e.key, w);
            assert(all.contains(c));
            assert(says_change(k, c));
            if c is Members {
                assert(c->Members_added[0] == (e.key, w));
            }
        },
        DutKeyAction::Remove(_) => {
            let c = ChangeView::Gone { path: dut_container(path, key), key: field_of(key) };
            assert(all.contains(c));
            assert(says_change(k, c));
        },
        DutKeyAction::Missing(m) => {
            lemma_missing_values(s, path, ex, a, global, m);
            let v = if early.contains(m) {
                early
            } else {
                late
            };
            assert(v.contains(m));
            let n = choose|n: int| 0 <= n < v.len() && v[n] == m;
            lemma_group_among(path, v, 0, n);
            let sets = sets_of(v, m.section, v.len() as int);
            let c = section_change(path, m.section, sets);
            assert(all.contains(c));
            assert(says_change(k, c));
            let members = set_members(sets);
            let section = path.push(SegView::Key(m.section));
            assert(c->Members_added[0] == (m.section, JsonView::Object(members)));
            assert(json_at(k, section) == Some(JsonView::Object(members)));
            let field = m.set.key;
            let l = lemma_sets_of_has(v, v.len() as int, n);
            assert(members[l].0 == field);
            lemma_some_member(members, field, 0, l);
            let o = lemma_member_is_one(members, field, 0);
            let p = lemma_sets_of_come(v, m.section, v.len() as int, o);
            assert(v.contains(v[p]));
            lemma_missing_values(s, path, ex, a, global, v[p]);
            lemma_missing_elsewhere(s, path, ex, a, global, v[p], i);
            assert(dut_owned(key));
            lemma_dut_key(key);
            assert(m.section == section_of(key) && field == field_of(key) && m.section.len() > 0) by {
                reveal(action_at);
                lemma_container_there(s, path, ex, a, key);
            }
            assert(v[p] == m);
            lemma_json_behind(k, section, JsonView::Object(members), SegView::Key(field));
            let one = seq![SegView::Key(field)];
            let w = spelled(m.set.literal);
            assert(json_at(w, one.drop_first()) == Some(w));
            assert(json_at(JsonView::Object(members), one) == Some(w));
        },
        _ => {},
    }
}

} // verus!

//! Once the edits of an update are applied the document says every answer that
//! differs from what was there.
use crate::advanced::{C_HOST_IP, C_HOST_NAME, C_HOST_PASS, C_HOST_USER};
use crate::answered::{lemma_absent, lemma_line_starts};
use crate::answers::{dut_config, host_config, DutAnswersView, HostAnswersView, WizardAnswersView};
use crate::append::{lemma_json_behind, starts_with};
use crate::board::{
    apart_from_all, below, board_there, edits_of, lemma_one_edit_more, lemma_one_more,
    lemma_within_apart, on_track, spells_one, within,
};
use crate::board_fields::{all_board_changes, board_asks, board_plan, lemma_board_is_on_track};
use crate::changes::{changed_from, list_at, ChangeView};
use crate::config::{
    config_of, config_text, host_of, hosts_from, member, ConfigView, DutView, HostView,
};
use crate::current::current_of;
use crate::edit::{edited, edited_from, entry_indent, EditView};
use crate::fixed_texts::{
    lemma_c_host_ip, lemma_c_host_name, lemma_c_host_pass, lemma_c_host_user, lemma_host_names,
};
use crate::jsonc::{document, quoted, JsonView};
use crate::kept::{
    dut_slots, dut_spellable, host_slots, host_spellable, lemma_dut_object, lemma_host_object,
};
use crate::locate::SegView;
use crate::pieces::{
    lemma_lists_void, lemma_reads_array, lemma_reads_quoted, lemma_void_spaces, plain, reads,
    unbroken,
};
use crate::place::{is_name, is_scalar, json_at, named, tidy, under, well_named};
use crate::render::{dut_block, host_block};
use crate::slots::filled;
use crate::spelling::{lemma_dut_is_sound, lemma_host_is_sound};
use crate::splice::{lemma_replace_container_is_read, lemma_replaced_at, replaced};
use crate::text::{or_empty, spaces};
use crate::text_map::Pairs;
use crate::tidy::{
    downloads_tidy, lemma_configuration_is_tidy, lemma_dut_is_tidy, lemma_host_is_tidy,
    lemma_scalar_is_tidy,
};
use crate::together::{
    all_have_lines, apart, cuts, lemma_found_is_said, lemma_named_join,
    lemma_planned_edits_take_effect, path_of, says_change,
};
use crate::top_level::{
    lemma_sections_on_track, no_null_top, sections_plan, top, top_asks, top_changes, top_there,
};
use crate::update::{
    change_desc, host_changes, host_text_step, planned, present, set_or_append, OpView, Plan,
    ScalarView,
};
use crate::update_config::{
    duts_path, host_path, host_step, hosts_path, new_dut, new_host, sections_from, update_plan,
};
use crate::written::{lemma_dut_text, lemma_element_line, lemma_host_text, lemma_member_line};
use vstd::prelude::*;

verus! {

// ── Where hosts and boards stand ─────────────────────────────────────
pub proof fn lemma_hosts_listed(v: Seq<JsonView>, i: int, before: Seq<HostView>, k: int)
    requires
        0 <= i,
        hosts_from(v, i, before) is Some,
    ensures
        hosts_from(v, i, before)->0.len() == before.len() + (if i <= v.len() {
            v.len() - i
        } else {
            0
        }),
        0 <= k < before.len() ==> hosts_from(v, i, before)->0[k] == before[k],
        before.len() <= k < before.len() + v.len() - i ==> host_of(v[k - before.len() + i]) == Some(
            hosts_from(v, i, before)->0[k],
        ),
    decreases v.len() - i,
{
    if i < v.len() {
        let h = host_of(v[i])->0;
        lemma_hosts_listed(v, i + 1, before.push(h), k);
        lemma_hosts_listed(v, i + 1, before.push(h), before.len() as int);
    }
}

/// A host of a configuration stands in the document.
pub proof fn lemma_host_there(j: JsonView, ex: ConfigView, hi: nat)
    requires
        config_of(j) == Some(ex),
        hi < ex.dev_hosts.len(),
    ensures
        json_at(j, hosts_path()) matches Some(x) && x is Array,
        json_at(j, host_path(hi)) matches Some(x) && host_of(x) == Some(ex.dev_hosts[hi as int]),
{
    if let JsonView::Object(m) = j {
        let hosts = SegView::Key("dev_hosts"@);
        lemma_json_behind(j, Seq::empty(), j, hosts);
        if let Some(JsonView::Array(v)) = member(m, "dev_hosts"@) {
            let x = JsonView::Array(v);
            assert(json_at(x, seq![hosts].drop_first()) == Some(x));
            assert(json_at(j, hosts_path()) == Some(x));
            lemma_hosts_listed(v, 0, Seq::empty(), hi as int);
            let a = SegView::Index(hi);
            lemma_json_behind(j, hosts_path(), x, a);
            assert(json_at(v[hi as int], seq![a].drop_first()) == Some(v[hi as int]));
        }
    }
}

// ── Where the changes aim ────────────────────────────────────────────
/// Whether a change aims at something that comes before board `di` of host
/// `hi` in the plan: an earlier host, a text of this host, an earlier board,
/// or the end of a list.
pub open spec fn comes_first(c: ChangeView, hi: nat, di: nat) -> bool {
    let q = path_of(c);
    &&& q.len() >= 1
    &&& q[0] == SegView::Key("dev_hosts"@)
    &&& q.len() == 1 ==> c is Items
    &&& q.len() >= 2 ==> (q[1] matches SegView::Index(h) && (h < hi || (h == hi && (q.len() == 2
        ==> !cuts(c)) && (q.len() >= 3 && q[2] == SegView::Key("duts"@) ==> {
        &&& q.len() == 3 ==> c is Items
        &&& q.len() >= 4 ==> (q[3] matches SegView::Index(d) && d < di)
    }))))
}

/// Whether all changes aim at what comes before a board.
pub open spec fn all_come_first(cs: Seq<ChangeView>, hi: nat, di: nat) -> bool {
    forall|n: int| 0 <= n < cs.len() ==> comes_first(#[trigger] cs[n], hi, di)
}

proof fn lemma_differ(p: Seq<SegView>, q: Seq<SegView>, k: int)
    requires
        0 <= k < p.len(),
        k < q.len(),
        p[k] != q[k],
    ensures
        !under(p, q),
        !under(q, p),
        p != q,
{
    if under(p, q) {
        assert(q.take(p.len() as int)[k] == p[k]);
    }
    if under(q, p) {
        assert(p.take(q.len() as int)[k] == q[k]);
    }
}

proof fn lemma_at_board(q: Seq<SegView>, hi: nat, di: nat)
    requires
        under(duts_path(hi).push(SegView::Index(di)), q),
    ensures
        q.len() >= 4,
        q[0] == SegView::Key("dev_hosts"@),
        q[1] == SegView::Index(hi),
        q[2] == SegView::Key("duts"@),
        q[3] == SegView::Index(di),
{
    let r = duts_path(hi).push(SegView::Index(di));
    assert forall|k: int| 0 <= k < 4 implies q[k] == r[k] by {
        assert(q.take(4)[k] == r[k]);
    }
}

/// A change in a board aims apart from one that comes first.
proof fn lemma_first_apart(c: ChangeView, d: ChangeView, hi: nat, di: nat)
    requires
        comes_first(c, hi, di),
        below(d, duts_path(hi).push(SegView::Index(di))),
    ensures
        apart(c, d),
{
    let p = path_of(c);
    let q = path_of(d);
    lemma_at_board(q, hi, di);
    if p.len() >= 2 {
        if p[1] != q[1] {
            lemma_differ(p, q, 1);
        } else if p.len() >= 3 {
            if p[2] != q[2] {
                lemma_differ(p, q, 2);
            } else if p.len() >= 4 {
                lemma_differ(p, q, 3);
            }
        }
    }
}

/// A change in a board comes before the next board.
proof fn lemma_board_first(d: ChangeView, hi: nat, di: nat)
    requires
        below(d, duts_path(hi).push(SegView::Index(di))),
    ensures
        comes_first(d, hi, di + 1),
{
    lemma_at_board(path_of(d), hi, di);
}

// ── One board ────────────────────────────────────────────────────────
/// The plan of a board is on track, behind changes that come first.
proof fn lemma_board_on_track(
    s: Seq<char>,
    ops: Seq<OpView>,
    cs: Seq<ChangeView>,
    hi: nat,
    di: nat,
    ex: DutView,
    a: DutAnswersView,
    global: Pairs,
)
    requires
        on_track(s, ops, cs),
        all_come_first(cs, hi, di),
        board_there(s, duts_path(hi).push(SegView::Index(di)), ex),
        board_asks(s, duts_path(hi).push(SegView::Index(di)), ex, a, global),
        board_plan(ops, s, duts_path(hi).push(SegView::Index(di)), ex, a, global).1 is None,
    ensures
        ({
            let path = duts_path(hi).push(SegView::Index(di));
            let p = board_plan(ops, s, path, ex, a, global);
            let all = cs + all_board_changes(s, path, ex, a, global);
            on_track(s, p.0, all) && all_come_first(all, hi, di + 1)
        }),
{
    let path = duts_path(hi).push(SegView::Index(di));
    let all = cs + all_board_changes(s, path, ex, a, global);
    assert forall|k: int, d: ChangeView| 0 <= k < cs.len() && below(d, path) implies #[trigger] apart(
        cs[k],
        d,
    ) by {
        assert(comes_first(cs[k], hi, di));
        lemma_first_apart(cs[k], d, hi, di);
    }
    lemma_board_is_on_track(s, ops, cs, path, ex, a, global);
    assert forall|n: int| 0 <= n < all.len() implies comes_first(#[trigger] all[n], hi, di + 1) by {
        if n < cs.len() {
            assert(all[n] == cs[n]);
            assert(comes_first(cs[n], hi, di));
        } else {
            lemma_board_first(all[n], hi, di);
        }
    }
}

// ── The boards of a host ─────────────────────────────────────────────
/// What a board is read as once it was written.
pub open spec fn dut_json(d: DutView) -> JsonView {
    JsonView::Object(filled(dut_slots(d)))
}

/// What a host is read as once it was written.
pub open spec fn host_json(h: HostView) -> JsonView {
    JsonView::Object(filled(host_slots(h)))
}

/// The changes for the boards of host `hi`, from board `di` on: those of a
/// board that is there, and one board more for each that is not.
#[verifier::opaque]
pub open spec fn dut_list_changes(
    s: Seq<char>,
    hi: nat,
    ex: Seq<DutView>,
    a: Seq<DutAnswersView>,
    global: Pairs,
    di: int,
) -> Seq<ChangeView>
    decreases a.len() - di,
{
    if di < 0 || di >= a.len() {
        Seq::empty()
    } else {
        let here = if di < ex.len() {
            all_board_changes(
                s,
                duts_path(hi).push(SegView::Index(di as nat)),
                ex[di],
                a[di],
                global,
            )
        } else {
            seq![
                ChangeView::Items {
                    path: duts_path(hi),
                    added: seq![dut_json(dut_config(a[di])->Ok_0)],
                },
            ]
        };
        here + dut_list_changes(s, hi, ex, a, global, di + 1)
    }
}

/// Whether all answers for the boards of a host can be read back. A new board
/// is one that JSON can spell.
#[verifier::opaque]
pub open spec fn readable_boards(
    s: Seq<char>,
    hi: nat,
    ex: Seq<DutView>,
    a: Seq<DutAnswersView>,
    global: Pairs,
) -> bool {
    forall|di: int|
        0 <= di < a.len() ==> {
            let path = duts_path(hi).push(SegView::Index(di as nat));
            di < ex.len() ==> board_there(s, path, ex[di]) && board_asks(
                s,
                path,
                ex[di],
                #[trigger] a[di],
                global,
            )
        }
}

/// A list grows apart from changes that come first.
proof fn lemma_duts_apart(cs: Seq<ChangeView>, c: ChangeView, hi: nat, di: nat)
    requires
        all_come_first(cs, hi, di),
        c is Items,
        path_of(c) == duts_path(hi),
    ensures
        apart_from_all(cs, c),
        comes_first(c, hi, di + 1),
{
    let q = duts_path(hi);
    assert(q.len() == 3 && q[0] == SegView::Key("dev_hosts"@) && q[1] == SegView::Index(hi) && q[2]
        == SegView::Key("duts"@));
    assert forall|n: int| 0 <= n < cs.len() implies apart(#[trigger] cs[n], c) by {
        let p = path_of(cs[n]);
        assert(comes_first(cs[n], hi, di));
        if cuts(cs[n]) && under(p, q) {
            if p[1] != q[1] {
                lemma_differ(p, q, 1);
            } else if p[2] != q[2] {
                lemma_differ(p, q, 2);
            }
        }
    }
}

/// Whether a host stands in the document, as the configuration has it.
#[verifier::opaque]
pub open spec fn host_in(s: Seq<char>, hi: nat, h: HostView) -> bool {
    document(s) matches Some(j) && tidy(j) && !is_scalar(j) && (json_at(j, host_path(hi)) matches Some(
        x,
    ) && host_of(x) == Some(h))
}

/// The edit that adds a board spells that change.
proof fn lemma_new_dut_spells(s: Seq<char>, hi: nat, h: HostView, d: DutView, n: nat)
    requires
        host_in(s, hi, h),
        entry_indent(s, duts_path(hi)) == Some(n),
        dut_spellable(d),
    ensures
        spells_one(
            s,
            EditView::AppendBlock { path: duts_path(hi), block: dut_block(d, n) },
            ChangeView::Items { path: duts_path(hi), added: seq![dut_json(d)] },
        ),
{
    reveal(host_in);
    reveal(spells_one);
    let j = document(s)->0;
    let x = json_at(j, host_path(hi))->0;
    let duts = SegView::Key("duts"@);
    lemma_found_is_said(s, duts_path(hi));
    lemma_json_behind(j, host_path(hi), x, duts);
    if let JsonView::Object(m) = x {
        if let Some(v) = member(m, "duts"@) {
            assert(json_at(v, seq![duts].drop_first()) == Some(v));
        }
    }
    assert(list_at(s, duts_path(hi)));
    let literal = lemma_dut_text(d, n);
    lemma_element_line(n, literal, dut_json(d));
    assert(starts_with(dut_block(d, n), n, '{'));
    lemma_dut_object(d);
    lemma_dut_is_tidy(dut_json(d));
}

/// One board that is not there.
proof fn lemma_new_dut_on_track(
    s: Seq<char>,
    ops: Seq<OpView>,
    cs: Seq<ChangeView>,
    hi: nat,
    di: nat,
    h: HostView,
    a: DutAnswersView,
)
    requires
        on_track(s, ops, cs),
        all_come_first(cs, hi, di),
        host_in(s, hi, h),
        new_dut(s, hi, di, a) is Ok,
    ensures
        ({
            let c = ChangeView::Items {
                path: duts_path(hi),
                added: seq![dut_json(dut_config(a)->Ok_0)],
            };
            &&& on_track(s, ops.push(new_dut(s, hi, di, a)->Ok_0), cs.push(c))
            &&& all_come_first(cs.push(c), hi, di + 1)
        }),
{
    let d = dut_config(a)->Ok_0;
    lemma_dut_is_sound(a);
    let n = entry_indent(s, duts_path(hi))->0;
    let c = ChangeView::Items { path: duts_path(hi), added: seq![dut_json(d)] };
    lemma_new_dut_spells(s, hi, h, d, n);
    lemma_duts_apart(cs, c, hi, di);
    lemma_one_edit_more(s, ops, cs, new_dut(s, hi, di, a)->Ok_0, c);
}

/// The plan with one board.
#[verifier::opaque]
spec fn dut_next(
    p: Plan,
    s: Seq<char>,
    hi: nat,
    ex: Seq<DutView>,
    a: Seq<DutAnswersView>,
    global: Pairs,
    di: int,
) -> Plan {
    if di < ex.len() {
        board_plan(p.0, s, duts_path(hi).push(SegView::Index(di as nat)), ex[di], a[di], global)
    } else {
        planned(p.0, new_dut(s, hi, di as nat, a[di]))
    }
}

/// The changes for one board.
#[verifier::opaque]
spec fn dut_here(
    s: Seq<char>,
    hi: nat,
    ex: Seq<DutView>,
    a: Seq<DutAnswersView>,
    global: Pairs,
    di: int,
) -> Seq<ChangeView> {
    if di < ex.len() {
        all_board_changes(
                s,
                duts_path(hi).push(SegView::Index(di as nat)),
                ex[di],
                a[di],
                global,
            )
    } else {
        seq![
            ChangeView::Items {
                path: duts_path(hi),
                added: seq![dut_json(dut_config(a[di])->Ok_0)],
            },
        ]
    }
}

/// The plan with the boards from number `di` on.
#[verifier::opaque]
spec fn duts_plan(
    p: Plan,
    s: Seq<char>,
    hi: nat,
    ex: Seq<DutView>,
    a: Seq<DutAnswersView>,
    global: Pairs,
    di: int,
) -> Plan {
    crate::update_config::duts_from(p, s, hi, ex, a, global, di)
}

proof fn lemma_duts_step(
    p: Plan,
    s: Seq<char>,
    hi: nat,
    ex: Seq<DutView>,
    a: Seq<DutAnswersView>,
    global: Pairs,
    di: int,
)
    requires
        p.1 is None,
        0 <= di < a.len(),
    ensures
        duts_plan(p, s, hi, ex, a, global, di) == duts_plan(
            dut_next(p, s, hi, ex, a, global, di),
            s,
            hi,
            ex,
            a,
            global,
            di + 1,
        ),
        dut_list_changes(s, hi, ex, a, global, di) == dut_here(s, hi, ex, a, global, di) + dut_list_changes(
            s,
            hi,
            ex,
            a,
            global,
            di + 1,
        ),
{
    reveal(board_plan);
    reveal(dut_next);
    reveal(duts_plan);
    reveal(dut_here);
    reveal_with_fuel(dut_list_changes, 2);
}

proof fn lemma_duts_ended(
    p: Plan,
    s: Seq<char>,
    hi: nat,
    ex: Seq<DutView>,
    a: Seq<DutAnswersView>,
    global: Pairs,
    di: int,
)
    ensures
        p.1 is Some || di >= a.len() ==> duts_plan(p, s, hi, ex, a, global, di) == p,
        di >= a.len() ==> dut_list_changes(s, hi, ex, a, global, di) == Seq::<ChangeView>::empty(),
{
    reveal(duts_plan);
    reveal(dut_list_changes);
}

proof fn lemma_dut_next_on_track(
    s: Seq<char>,
    p: Plan,
    cs: Seq<ChangeView>,
    hi: nat,
    h: HostView,
    a: Seq<DutAnswersView>,
    global: Pairs,
    di: int,
)
    requires
        p.1 is None,
        on_track(s, p.0, cs),
        0 <= di < a.len(),
        all_come_first(cs, hi, di as nat),
        host_in(s, hi, h),
        readable_boards(s, hi, h.duts, a, global),
        dut_next(p, s, hi, h.duts, a, global, di).1 is None,
    ensures
        ({
            let q = dut_next(p, s, hi, h.duts, a, global, di);
            let all = cs + dut_here(s, hi, h.duts, a, global, di);
            on_track(s, q.0, all) && all_come_first(all, hi, (di + 1) as nat)
        }),
{
    reveal(readable_boards);
    reveal(dut_next);
    reveal(dut_here);
    let ex = h.duts;
    if di < ex.len() {
        let path = duts_path(hi).push(SegView::Index(di as nat));
        assert(board_there(s, path, ex[di]));
        lemma_board_on_track(s, p.0, cs, hi, di as nat, ex[di], a[di], global);
    } else {
        lemma_new_dut_on_track(s, p.0, cs, hi, di as nat, h, a[di]);
        let here = dut_here(s, hi, ex, a, global, di);
        assert(cs.push(here[0]) =~= cs + here);
    }
}

/// The boards of a host.
proof fn lemma_duts_on_track(
    s: Seq<char>,
    p: Plan,
    cs: Seq<ChangeView>,
    hi: nat,
    h: HostView,
    a: Seq<DutAnswersView>,
    global: Pairs,
    di: int,
)
    requires
        p.1 is None,
        on_track(s, p.0, cs),
        0 <= di <= a.len(),
        all_come_first(cs, hi, di as nat),
        host_in(s, hi, h),
        readable_boards(s, hi, h.duts, a, global),
        duts_plan(p, s, hi, h.duts, a, global, di).1 is None,
    ensures
        ({
            let q = duts_plan(p, s, hi, h.duts, a, global, di);
            let all = cs + dut_list_changes(s, hi, h.duts, a, global, di);
            on_track(s, q.0, all) && all_come_first(all, hi, a.len())
        }),
    decreases a.len() - di,
{
    let ex = h.duts;
    if di < a.len() {
        let next = dut_next(p, s, hi, ex, a, global, di);
        let here = dut_here(s, hi, ex, a, global, di);
        lemma_duts_step(p, s, hi, ex, a, global, di);
        lemma_duts_ended(next, s, hi, ex, a, global, di + 1);
        lemma_dut_next_on_track(s, p, cs, hi, h, a, global, di);
        lemma_duts_on_track(s, next, cs + here, hi, h, a, global, di + 1);
        let rest = dut_list_changes(s, hi, ex, a, global, di + 1);
        assert(cs + here + rest =~= cs + (here + rest));
    } else {
        lemma_duts_ended(p, s, hi, ex, a, global, di);
        assert(cs + Seq::<ChangeView>::empty() =~= cs);
    }
}

// ── The texts of a host ──────────────────────────────────────────────
/// The change of one text of a host: another value where it is there. A text
/// that is not there goes above the boards, or to the end of a host without
/// boards.
pub open spec fn host_text_change(s: Seq<char>, hi: nat, key: Seq<char>, answer: Seq<char>) -> ChangeView {
    let host = host_path(hi);
    let path = host.push(SegView::Key(key));
    let added = seq![(key, JsonView::Text(answer))];
    if present(s, path) {
        ChangeView::Value { path, value: JsonView::Text(answer) }
    } else if present(s, host.push(SegView::Key("duts"@))) {
        ChangeView::Above { path: host, key: "duts"@, added }
    } else {
        ChangeView::Members { path: host, added }
    }
}

/// The change of one text of a host, where the answer differs.
pub open spec fn text_change(
    s: Seq<char>,
    hi: nat,
    key: Seq<char>,
    now: Option<Seq<char>>,
    answer: Seq<char>,
) -> Seq<ChangeView> {
    if or_empty(now) == answer {
        Seq::empty()
    } else {
        seq![host_text_change(s, hi, key, answer)]
    }
}

/// The changes of the texts of a host.
pub open spec fn host_text_changes(
    s: Seq<char>,
    hi: nat,
    ex: HostView,
    a: HostAnswersView,
) -> Seq<ChangeView> {
    text_change(s, hi, "ip"@, ex.ip, a.ip) + text_change(s, hi, "user"@, ex.user, a.user)
        + text_change(s, hi, "pass"@, ex.pass, a.pass) + text_change(
        s,
        hi,
        "host_name"@,
        ex.host_name,
        a.host_name,
    )
}

/// Whether a change aims at an earlier host, or at the end of the hosts.
pub open spec fn before_host(c: ChangeView, hi: nat) -> bool {
    let q = path_of(c);
    &&& q.len() >= 1
    &&& q[0] == SegView::Key("dev_hosts"@)
    &&& q.len() == 1 ==> c is Items
    &&& q.len() >= 2 ==> (q[1] matches SegView::Index(h) && h < hi)
}

/// Whether all changes aim at earlier hosts, or at the end of the hosts.
pub open spec fn all_before_host(cs: Seq<ChangeView>, hi: nat) -> bool {
    forall|n: int| 0 <= n < cs.len() ==> before_host(#[trigger] cs[n], hi)
}

/// The texts of a host in the order in which they are written.
spec fn text_keys() -> Seq<Seq<char>> {
    seq!["ip"@, "user"@, "pass"@, "host_name"@]
}

proof fn lemma_text_keys()
    ensures
        forall|i: int| 0 <= i < 4 ==> is_name(#[trigger] text_keys()[i]) && plain(text_keys()[i]),
        forall|i: int, k: int|
            0 <= i < k < 4 ==> (#[trigger] text_keys()[i]) != (#[trigger] text_keys()[k]),
        forall|i: int| 0 <= i < 4 ==> (#[trigger] text_keys()[i]) != "duts"@,
{
    reveal_strlit("ip");
    reveal_strlit("user");
    reveal_strlit("pass");
    reveal_strlit("host_name");
    reveal_strlit("duts");
    assert("ip"@.len() == 2);
    assert("user"@.len() == 4 && "user"@[0] == 'u');
    assert("pass"@.len() == 4 && "pass"@[0] == 'p');
    assert("host_name"@.len() == 9);
    assert("duts"@.len() == 4 && "duts"@[0] == 'd');
    lemma_host_names();
    assert(is_name("ip"@) && is_name("user"@) && is_name("pass"@) && is_name("host_name"@));
}

/// Whether a change sets one of the first `n` texts of a host.
spec fn sets_text(c: ChangeView, hi: nat, n: int) -> bool {
    exists|i: int| 0 <= i < n && within(c, host_path(hi), #[trigger] text_keys()[i])
}

/// The changes of a host behind others: those from number `k` on set its first
/// `n` texts.
spec fn texts_so_far(
    s: Seq<char>,
    ops: Seq<OpView>,
    cs: Seq<ChangeView>,
    k: int,
    hi: nat,
    n: int,
) -> bool {
    &&& on_track(s, ops, cs)
    &&& 0 <= k <= cs.len()
    &&& forall|i: int| 0 <= i < k ==> before_host(#[trigger] cs[i], hi)
    &&& forall|i: int| k <= i < cs.len() ==> sets_text(#[trigger] cs[i], hi, n)
}

/// A change of a text of a host aims at the host or below it.
proof fn lemma_within_host(c: ChangeView, hi: nat, key: Seq<char>)
    requires
        within(c, host_path(hi), key),
    ensures
        ({
            let q = path_of(c);
            &&& q.len() >= 2
            &&& q[0] == SegView::Key("dev_hosts"@)
            &&& q[1] == SegView::Index(hi)
            &&& q.len() == 2 ==> !cuts(c)
            &&& q.len() >= 3 ==> q[2] == SegView::Key(key)
        }),
{
    let q = path_of(c);
    let x = host_path(hi).push(SegView::Key(key));
    assert(x.len() == 3 && x[0] == SegView::Key("dev_hosts"@) && x[1] == SegView::Index(hi) && x[2]
        == SegView::Key(key));
    if under(x, q) {
        assert forall|k: int| 0 <= k < 3 implies q[k] == x[k] by {
            assert(q.take(3)[k] == x[k]);
        }
    }
}

proof fn lemma_text_apart(c: ChangeView, d: ChangeView, hi: nat, n: int)
    requires
        before_host(c, hi) || sets_text(c, hi, n),
        0 <= n < 4,
        within(d, host_path(hi), text_keys()[n]),
    ensures
        apart(c, d),
{
    let p = path_of(c);
    let q = path_of(d);
    lemma_text_keys();
    lemma_within_host(d, hi, text_keys()[n]);
    if before_host(c, hi) {
        if p.len() >= 2 {
            lemma_differ(p, q, 1);
        }
    } else {
        let i = choose|i: int| 0 <= i < n && within(c, host_path(hi), #[trigger] text_keys()[i]);
        lemma_within_apart(c, d, host_path(hi), text_keys()[i], text_keys()[n]);
    }
}

/// The edit that writes a text of a host spells its change.
proof fn lemma_text_spells(
    s: Seq<char>,
    hi: nat,
    h: HostView,
    n: int,
    answer: Seq<char>,
    comment: Seq<char>,
    desc: Seq<char>,
)
    requires
        host_in(s, hi, h),
        0 <= n < 4,
        unbroken(comment),
        ({
            let e = ScalarView {
                key: text_keys()[n],
                literal: quoted(answer),
                comment: Some(comment),
                desc,
                before: Some("duts"@),
            };
            set_or_append(s, host_path(hi), e) is Ok
        }),
    ensures
        ({
            let e = ScalarView {
                key: text_keys()[n],
                literal: quoted(answer),
                comment: Some(comment),
                desc,
                before: Some("duts"@),
            };
            spells_one(
                s,
                set_or_append(s, host_path(hi), e)->Ok_0.op,
                host_text_change(s, hi, text_keys()[n], answer),
            )
        }),
{
    reveal(host_in);
    reveal(spells_one);
    let key = text_keys()[n];
    let host = host_path(hi);
    let j = document(s)->0;
    let w = JsonView::Text(answer);
    let m = json_at(j, host)->0->Object_0;
    lemma_reads_quoted(answer);
    lemma_scalar_is_tidy(w);
    lemma_text_keys();
    if !present(s, host.push(SegView::Key(key))) {
        lemma_absent(s, host, m, key);
        let k = entry_indent(s, host)->0;
        lemma_member_line(k, key, quoted(answer), w, Some(comment));
        lemma_line_starts(k, key, quoted(answer), Some(comment));
        lemma_one_more(j, host, m, key, w);
        lemma_found_is_said(s, host.push(SegView::Key("duts"@)));
        let added = seq![(key, w)];
        assert(named(m)) by {
            assert(well_named(json_at(j, host)));
        }
        lemma_named_join(m, added, "duts"@);
    }
}

/// One text of a host more.
proof fn lemma_text_on_track(
    s: Seq<char>,
    p: Plan,
    cs: Seq<ChangeView>,
    k: int,
    hi: nat,
    h: HostView,
    n: int,
    now: Option<Seq<char>>,
    answer: Seq<char>,
    comment: Seq<char>,
)
    requires
        host_in(s, hi, h),
        unbroken(comment),
        p.1 is None ==> texts_so_far(s, p.0, cs, k, hi, n),
        0 <= n < 4,
    ensures
        ({
            let q = host_text_step(p, s, host_path(hi), text_keys()[n], now, answer, comment);
            let more = cs + text_change(s, hi, text_keys()[n], now, answer);
            q.1 is None ==> p.1 is None && texts_so_far(s, q.0, more, k, hi, n + 1)
        }),
{
    let key = text_keys()[n];
    let more = cs + text_change(s, hi, key, now, answer);
    let q = host_text_step(p, s, host_path(hi), key, now, answer, comment);
    if q.1 is None && p.1 is None {
        assert forall|i: int| k <= i < cs.len() implies sets_text(#[trigger] cs[i], hi, n + 1) by {
            assert(sets_text(cs[i], hi, n));
        }
        if or_empty(now) == answer {
            assert(more =~= cs);
        } else {
            let c = host_text_change(s, hi, key, answer);
            let desc = change_desc("dev_hosts[..]."@ + key, or_empty(now), answer);
            let e = ScalarView {
                key,
                literal: quoted(answer),
                comment: Some(comment),
                desc,
                before: Some("duts"@),
            };
            let op = set_or_append(s, host_path(hi), e)->Ok_0;
            assert(more =~= cs.push(c));
            lemma_text_spells(s, hi, h, n, answer, comment, desc);
            let path = host_path(hi).push(SegView::Key(key));
            assert(path.take(path.len() as int) =~= path);
            assert(within(c, host_path(hi), key));
            assert forall|i: int| 0 <= i < cs.len() implies apart(#[trigger] cs[i], c) by {
                lemma_text_apart(cs[i], c, hi, n);
            }
            lemma_one_edit_more(s, p.0, cs, op, c);
            assert(sets_text(c, hi, n + 1));
        }
    }
}

/// The texts of a host.
proof fn lemma_texts_on_track(
    s: Seq<char>,
    ops: Seq<OpView>,
    cs: Seq<ChangeView>,
    hi: nat,
    ex: HostView,
    a: HostAnswersView,
)
    requires
        host_in(s, hi, ex),
        on_track(s, ops, cs),
        all_before_host(cs, hi),
        host_changes(ops, s, host_path(hi), ex, a).1 is None,
    ensures
        ({
            let p = host_changes(ops, s, host_path(hi), ex, a);
            let all = cs + host_text_changes(s, hi, ex, a);
            on_track(s, p.0, all) && all_come_first(all, hi, 0)
        }),
{
    let path = host_path(hi);
    let k = cs.len() as int;
    let p0: Plan = (ops, None);
    lemma_c_host_ip();
    lemma_c_host_user();
    lemma_c_host_pass();
    lemma_c_host_name();
    let p1 = host_text_step(p0, s, path, "ip"@, ex.ip, a.ip, C_HOST_IP@);
    let c1 = cs + text_change(s, hi, "ip"@, ex.ip, a.ip);
    lemma_text_on_track(s, p0, cs, k, hi, ex, 0, ex.ip, a.ip, C_HOST_IP@);
    let p2 = host_text_step(p1, s, path, "user"@, ex.user, a.user, C_HOST_USER@);
    let c2 = c1 + text_change(s, hi, "user"@, ex.user, a.user);
    lemma_text_on_track(s, p1, c1, k, hi, ex, 1, ex.user, a.user, C_HOST_USER@);
    let p3 = host_text_step(p2, s, path, "pass"@, ex.pass, a.pass, C_HOST_PASS@);
    let c3 = c2 + text_change(s, hi, "pass"@, ex.pass, a.pass);
    lemma_text_on_track(s, p2, c2, k, hi, ex, 2, ex.pass, a.pass, C_HOST_PASS@);
    let c4 = c3 + text_change(s, hi, "host_name"@, ex.host_name, a.host_name);
    lemma_text_on_track(s, p3, c3, k, hi, ex, 3, ex.host_name, a.host_name, C_HOST_NAME@);
    let all = cs + host_text_changes(s, hi, ex, a);
    assert(c4 =~= all);
    lemma_text_keys();
    assert forall|n: int| 0 <= n < all.len() implies comes_first(#[trigger] all[n], hi, 0) by {
        if n >= k {
            assert(sets_text(all[n], hi, 4));
            let i = choose|i: int|
                0 <= i < 4 && within(all[n], host_path(hi), #[trigger] text_keys()[i]);
            lemma_within_host(all[n], hi, text_keys()[i]);
        } else {
            assert(before_host(all[n], hi));
        }
    }
}

// ── All hosts ────────────────────────────────────────────────────────
/// The changes for host `hi`: those of a host that is there and of its boards,
/// or one host more.
pub open spec fn host_changes_of(
    s: Seq<char>,
    hi: nat,
    ex: Seq<HostView>,
    a: HostAnswersView,
    global: Pairs,
) -> Seq<ChangeView> {
    if hi < ex.len() {
        let h = ex[hi as int];
        host_text_changes(s, hi, h, a) + dut_list_changes(s, hi, h.duts, a.duts, global, 0)
    } else {
        seq![
            ChangeView::Items {
                path: hosts_path(),
                added: seq![host_json(host_config(a)->Ok_0)],
            },
        ]
    }
}

/// The changes for the hosts from number `hi` on.
#[verifier::opaque]
pub open spec fn host_list_changes(
    s: Seq<char>,
    ex: Seq<HostView>,
    a: Seq<HostAnswersView>,
    global: Pairs,
    hi: int,
) -> Seq<ChangeView>
    decreases a.len() - hi,
{
    if hi < 0 || hi >= a.len() {
        Seq::empty()
    } else {
        host_changes_of(s, hi as nat, ex, a[hi], global) + host_list_changes(s, ex, a, global, hi + 1)
    }
}

/// Whether all answers for a host can be read back: those for its boards can.
pub open spec fn readable_host(
    s: Seq<char>,
    hi: nat,
    ex: Seq<HostView>,
    a: HostAnswersView,
    global: Pairs,
) -> bool {
    hi < ex.len() ==> {
        let h = ex[hi as int];
        readable_boards(s, hi, h.duts, a.duts, global)
    }
}

/// Whether a text is a tidy document that holds a configuration.
#[verifier::opaque]
spec fn config_in(s: Seq<char>, ex: ConfigView) -> bool {
    document(s) matches Some(j) && tidy(j) && !is_scalar(j) && config_of(j) == Some(ex)
}

proof fn lemma_host_in(s: Seq<char>, ex: ConfigView, hi: nat)
    requires
        config_in(s, ex),
        hi < ex.dev_hosts.len(),
    ensures
        host_in(s, hi, ex.dev_hosts[hi as int]),
{
    reveal(host_in);
    reveal(config_in);
    lemma_host_there(document(s)->0, ex, hi);
}

/// The edit that adds a host spells that change.
proof fn lemma_new_host_spells(s: Seq<char>, ex: ConfigView, h: HostView, n: nat)
    requires
        config_in(s, ex),
        entry_indent(s, hosts_path()) == Some(n),
        host_spellable(h),
    ensures
        spells_one(
            s,
            EditView::AppendBlock { path: hosts_path(), block: host_block(h, n) },
            ChangeView::Items { path: hosts_path(), added: seq![host_json(h)] },
        ),
{
    reveal(spells_one);
    reveal(config_in);
    let j = document(s)->0;
    let hosts = SegView::Key("dev_hosts"@);
    lemma_found_is_said(s, hosts_path());
    lemma_json_behind(j, Seq::empty(), j, hosts);
    if let JsonView::Object(m) = j {
        if let Some(v) = member(m, "dev_hosts"@) {
            assert(json_at(v, seq![hosts].drop_first()) == Some(v));
        }
    }
    assert(list_at(s, hosts_path()));
    let literal = lemma_host_text(h, n);
    lemma_element_line(n, literal, host_json(h));
    assert(starts_with(host_block(h, n), n, '{'));
    lemma_host_object(h);
    lemma_host_is_tidy(host_json(h));
}

/// The plan with one host.
#[verifier::opaque]
spec fn host_next(
    p: Plan,
    s: Seq<char>,
    hi: nat,
    ex: Seq<HostView>,
    a: HostAnswersView,
    global: Pairs,
) -> Plan {
    host_step(p, s, hi, ex, a, global)
}

/// What comes before a board of a host comes before the next host.
proof fn lemma_next_host(cs: Seq<ChangeView>, hi: nat, di: nat)
    requires
        all_come_first(cs, hi, di),
    ensures
        all_before_host(cs, hi + 1),
{
    assert forall|n: int| 0 <= n < cs.len() implies before_host(#[trigger] cs[n], hi + 1) by {
        assert(comes_first(cs[n], hi, di));
    }
}

proof fn lemma_host_plan(
    p: Plan,
    s: Seq<char>,
    hi: nat,
    ex: Seq<HostView>,
    a: HostAnswersView,
    global: Pairs,
)
    requires
        p.1 is None,
    ensures
        hi < ex.len() ==> host_next(p, s, hi, ex, a, global) == duts_plan(
            host_texts_plan(p.0, s, hi, ex[hi as int], a),
            s,
            hi,
            ex[hi as int].duts,
            a.duts,
            global,
            0,
        ),
        hi >= ex.len() ==> host_next(p, s, hi, ex, a, global) == planned(p.0, new_host(s, hi, a)),
{
    reveal(host_next);
    reveal(duts_plan);
    reveal(host_texts_plan);
}

/// The plan with the texts of a host.
#[verifier::opaque]
spec fn host_texts_plan(
    ops: Seq<OpView>,
    s: Seq<char>,
    hi: nat,
    ex: HostView,
    a: HostAnswersView,
) -> Plan {
    host_changes(ops, s, host_path(hi), ex, a)
}

/// A host that is there, and its boards.
proof fn lemma_known_host_on_track(
    s: Seq<char>,
    p: Plan,
    cs: Seq<ChangeView>,
    hi: nat,
    h: HostView,
    a: HostAnswersView,
    global: Pairs,
)
    requires
        p.1 is None,
        on_track(s, p.0, cs),
        all_before_host(cs, hi),
        host_in(s, hi, h),
        readable_boards(s, hi, h.duts, a.duts, global),
        duts_plan(
            host_texts_plan(p.0, s, hi, h, a),
            s,
            hi,
            h.duts,
            a.duts,
            global,
            0,
        ).1 is None,
    ensures
        ({
            let q = duts_plan(
                host_texts_plan(p.0, s, hi, h, a),
                s,
                hi,
                h.duts,
                a.duts,
                global,
                0,
            );
            let all = cs + host_text_changes(s, hi, h, a) + dut_list_changes(
                s,
                hi,
                h.duts,
                a.duts,
                global,
                0,
            );
            on_track(s, q.0, all) && all_before_host(all, hi + 1)
        }),
{
    let q = host_texts_plan(p.0, s, hi, h, a);
    let texts = cs + host_text_changes(s, hi, h, a);
    assert(q.1 is None) by {
        lemma_duts_ended(q, s, hi, h.duts, a.duts, global, 0);
    }
    assert(on_track(s, q.0, texts) && all_come_first(texts, hi, 0)) by {
        reveal(host_texts_plan);
        lemma_texts_on_track(s, p.0, cs, hi, h, a);
    }
    lemma_duts_on_track(s, q, texts, hi, h, a.duts, global, 0);
    lemma_next_host(texts + dut_list_changes(s, hi, h.duts, a.duts, global, 0), hi, a.duts.len());
}

/// A host that is not there.
proof fn lemma_new_host_on_track(
    s: Seq<char>,
    ops: Seq<OpView>,
    cs: Seq<ChangeView>,
    hi: nat,
    ex: ConfigView,
    a: HostAnswersView,
)
    requires
        on_track(s, ops, cs),
        all_before_host(cs, hi),
        config_in(s, ex),
        new_host(s, hi, a) is Ok,
    ensures
        ({
            let c = ChangeView::Items {
                path: hosts_path(),
                added: seq![host_json(host_config(a)->Ok_0)],
            };
            &&& on_track(s, ops.push(new_host(s, hi, a)->Ok_0), cs.push(c))
            &&& all_before_host(cs.push(c), hi + 1)
        }),
{
    let h = host_config(a)->Ok_0;
    lemma_host_is_sound(a);
    let n = entry_indent(s, hosts_path())->0;
    let c = ChangeView::Items { path: hosts_path(), added: seq![host_json(h)] };
    lemma_new_host_spells(s, ex, h, n);
    assert forall|i: int| 0 <= i < cs.len() implies apart(#[trigger] cs[i], c) by {
        assert(before_host(cs[i], hi));
    }
    lemma_one_edit_more(s, ops, cs, new_host(s, hi, a)->Ok_0, c);
}

#[verifier::rlimit(40)]
#[verifier::spinoff_prover]
proof fn lemma_host_on_track(
    s: Seq<char>,
    p: Plan,
    cs: Seq<ChangeView>,
    hi: nat,
    ex: ConfigView,
    a: HostAnswersView,
    global: Pairs,
)
    requires
        p.1 is None,
        on_track(s, p.0, cs),
        all_before_host(cs, hi),
        config_in(s, ex),
        readable_host(s, hi, ex.dev_hosts, a, global),
        host_next(p, s, hi, ex.dev_hosts, a, global).1 is None,
    ensures
        ({
            let q = host_next(p, s, hi, ex.dev_hosts, a, global);
            let all = cs + host_changes_of(s, hi, ex.dev_hosts, a, global);
            on_track(s, q.0, all) && all_before_host(all, hi + 1)
        }),
{
    let hosts = ex.dev_hosts;
    lemma_host_plan(p, s, hi, hosts, a, global);
    if hi < hosts.len() {
        let h = hosts[hi as int];
        lemma_host_in(s, ex, hi);
        lemma_known_host_on_track(s, p, cs, hi, h, a, global);
        assert(cs + host_text_changes(s, hi, h, a) + dut_list_changes(s, hi, h.duts, a.duts, global, 0) =~= cs
            + host_changes_of(s, hi, hosts, a, global));
    } else {
        lemma_new_host_on_track(s, p.0, cs, hi, ex, a);
        let here = host_changes_of(s, hi, hosts, a, global);
        assert(cs.push(here[0]) =~= cs + here);
    }
}

/// The plan with the hosts from number `hi` on.
#[verifier::opaque]
pub open spec fn hosts_plan(
    p: Plan,
    s: Seq<char>,
    ex: Seq<HostView>,
    a: Seq<HostAnswersView>,
    global: Pairs,
    hi: int,
) -> Plan {
    crate::update_config::hosts_from(p, s, ex, a, global, hi)
}

proof fn lemma_hosts_step(
    p: Plan,
    s: Seq<char>,
    ex: Seq<HostView>,
    a: Seq<HostAnswersView>,
    global: Pairs,
    hi: int,
)
    requires
        p.1 is None,
        0 <= hi < a.len(),
    ensures
        hosts_plan(p, s, ex, a, global, hi) == hosts_plan(
            host_next(p, s, hi as nat, ex, a[hi], global),
            s,
            ex,
            a,
            global,
            hi + 1,
        ),
        host_list_changes(s, ex, a, global, hi) == host_changes_of(s, hi as nat, ex, a[hi], global)
            + host_list_changes(s, ex, a, global, hi + 1),
{
    reveal(host_next);
    reveal(hosts_plan);
    reveal_with_fuel(host_list_changes, 2);
}

proof fn lemma_hosts_ended(
    p: Plan,
    s: Seq<char>,
    ex: Seq<HostView>,
    a: Seq<HostAnswersView>,
    global: Pairs,
    hi: int,
)
    ensures
        p.1 is Some || hi >= a.len() ==> hosts_plan(p, s, ex, a, global, hi) == p,
        hi >= a.len() ==> host_list_changes(s, ex, a, global, hi) == Seq::<ChangeView>::empty(),
{
    reveal(hosts_plan);
    reveal(host_list_changes);
}

proof fn lemma_hosts_on_track(
    s: Seq<char>,
    p: Plan,
    cs: Seq<ChangeView>,
    ex: ConfigView,
    a: Seq<HostAnswersView>,
    global: Pairs,
    hi: int,
)
    requires
        p.1 is None,
        on_track(s, p.0, cs),
        0 <= hi <= a.len(),
        all_before_host(cs, hi as nat),
        config_in(s, ex),
        forall|k: int|
            0 <= k < a.len() ==> readable_host(s, k as nat, ex.dev_hosts, #[trigger] a[k], global),
        hosts_plan(p, s, ex.dev_hosts, a, global, hi).1 is None,
    ensures
        ({
            let q = hosts_plan(p, s, ex.dev_hosts, a, global, hi);
            let all = cs + host_list_changes(s, ex.dev_hosts, a, global, hi);
            on_track(s, q.0, all) && all_before_host(all, a.len())
        }),
    decreases a.len() - hi,
{
    let hosts = ex.dev_hosts;
    if hi < a.len() {
        let next = host_next(p, s, hi as nat, hosts, a[hi], global);
        let here = host_changes_of(s, hi as nat, hosts, a[hi], global);
        lemma_hosts_step(p, s, hosts, a, global, hi);
        lemma_hosts_ended(next, s, hosts, a, global, hi + 1);
        lemma_host_on_track(s, p, cs, hi as nat, ex, a[hi], global);
        lemma_hosts_on_track(s, next, cs + here, ex, a, global, hi + 1);
        let rest = host_list_changes(s, hosts, a, global, hi + 1);
        assert(cs + here + rest =~= cs + (here + rest));
    } else {
        lemma_hosts_ended(p, s, hosts, a, global, hi);
        assert(cs + Seq::<ChangeView>::empty() =~= cs);
    }
}

// ── The whole update ─────────────────────────────────────────────────
/// Whether all answers of an update can be read back.
pub open spec fn readable_update(s: Seq<char>, ex: ConfigView, a: WizardAnswersView) -> bool {
    let global = current_of(ex);
    &&& a.hosts.len() > 0 || ex.dev_hosts.len() == 0
    &&& forall|k: int|
        0 <= k < a.hosts.len() ==> readable_host(
            s,
            k as nat,
            ex.dev_hosts,
            #[trigger] a.hosts[k],
            global,
        )
    &&& document(s) matches Some(j) && no_null_top(j->Object_0)
    &&& top_asks(s, a.advanced)
}

/// All changes that the answers of an update ask for.
pub open spec fn update_changes(s: Seq<char>, ex: ConfigView, a: WizardAnswersView) -> Seq<
    ChangeView,
> {
    let global = current_of(ex);
    host_list_changes(s, ex.dev_hosts, a.hosts, global, 0) + top_changes(s, global, a.advanced, 0)
}

/// Changes of hosts lie in the list of hosts.
proof fn lemma_hosts_within(cs: Seq<ChangeView>, hi: nat)
    requires
        all_before_host(cs, hi),
    ensures
        forall|k: int| 0 <= k < cs.len() ==> within(#[trigger] cs[k], top(), "dev_hosts"@),
{
    let x = top().push(SegView::Key("dev_hosts"@));
    assert forall|k: int| 0 <= k < cs.len() implies within(#[trigger] cs[k], top(), "dev_hosts"@) by {
        assert(before_host(cs[k], hi));
        let q = path_of(cs[k]);
        assert(q.take(x.len() as int) =~= x);
    }
}

/// The hosts and the sections of a plan.
pub proof fn lemma_update_steps(s: Seq<char>, ex: ConfigView, a: WizardAnswersView)
    requires
        a.hosts.len() > 0 || ex.dev_hosts.len() == 0,
        update_plan(s, ex, a).1 is None,
    ensures
        ({
            let global = current_of(ex);
            let p: Plan = (Seq::empty(), None);
            let q = hosts_plan(p, s, ex.dev_hosts, a.hosts, global, 0);
            q.1 is None && update_plan(s, ex, a) == sections_plan(q, s, global, a.advanced, 0)
        }),
{
    reveal(hosts_plan);
    reveal(sections_plan);
    let global = current_of(ex);
    let p: Plan = (Seq::empty(), None);
    let q = hosts_plan(p, s, ex.dev_hosts, a.hosts, global, 0);
    if q.1 is Some {
        assert(sections_from(q, s, global, a.advanced, 0) == q);
    }
}

/// The plan of an update is on track.
proof fn lemma_update_on_track(s: Seq<char>, ex: ConfigView, a: WizardAnswersView)
    requires
        config_text(s) == Some(ex),
        downloads_tidy(ex),
        readable_update(s, ex, a),
        update_plan(s, ex, a).1 is None,
    ensures
        on_track(s, update_plan(s, ex, a).0, update_changes(s, ex, a)),
{
    let global = current_of(ex);
    let hosts = host_list_changes(s, ex.dev_hosts, a.hosts, global, 0);
    let none = Seq::<OpView>::empty();
    let p: Plan = (none, None);
    lemma_configuration_is_tidy(s);
    assert(on_track(s, none, Seq::<ChangeView>::empty())) by {
        reveal(on_track);
    }
    assert(config_in(s, ex)) by {
        reveal(config_in);
    }
    assert(top_there(s, ex)) by {
        reveal(top_there);
    }
    lemma_update_steps(s, ex, a);
    let q = hosts_plan(p, s, ex.dev_hosts, a.hosts, global, 0);
    lemma_hosts_on_track(s, p, Seq::empty(), ex, a.hosts, global, 0);
    assert(Seq::<ChangeView>::empty() + hosts =~= hosts);
    lemma_hosts_within(hosts, a.hosts.len());
    lemma_sections_on_track(s, q, hosts, ex, global, a.advanced);
}

/// After an update the document says every answer that differs from what was
/// there, and every new host and board; what an answer took out is not there
/// any more; and nothing else of what the document says has changed. A text
/// that goes above the boards of a host needs a line that the boards begin when
/// its turn comes, and a value that is taken out has its line for itself.
pub proof fn lemma_answers_are_read(s: Seq<char>, ex: ConfigView, a: WizardAnswersView)
    requires
        config_text(s) == Some(ex),
        downloads_tidy(ex),
        readable_update(s, ex, a),
        update_plan(s, ex, a).1 is None,
        edited_from(s, edits_of(update_plan(s, ex, a).0), 0) is Ok,
        all_have_lines(s, edits_of(update_plan(s, ex, a).0), update_changes(s, ex, a), 0),
    ensures
        ({
            let cs = update_changes(s, ex, a);
            let t = edited_from(s, edits_of(update_plan(s, ex, a).0), 0)->Ok_0;
            &&& document(t) == Some(changed_from(document(s)->0, cs, 0))
            &&& forall|n: int|
                0 <= n < cs.len() ==> says_change(document(t)->0, #[trigger] cs[n])
        }),
{
    lemma_configuration_is_tidy(s);
    lemma_update_on_track(s, ex, a);
    reveal(on_track);
    lemma_planned_edits_take_effect(s, edits_of(update_plan(s, ex, a).0), update_changes(s, ex, a));
}

/// An update without hosts takes all hosts out of the document, and nothing
/// else of what it says changes.
pub proof fn lemma_no_hosts_are_read(s: Seq<char>, ex: ConfigView, a: WizardAnswersView)
    requires
        config_text(s) == Some(ex),
        downloads_tidy(ex),
        a.hosts.len() == 0,
        ex.dev_hosts.len() > 0,
    ensures
        ({
            let p = update_plan(s, ex, a);
            let r = edited(s, p.0[0].op);
            let none = JsonView::Array(Seq::empty());
            &&& p.1 is None
            &&& p.0.len() == 1
            &&& r is Ok
            &&& document(r->Ok_0) == Some(replaced(document(s)->0, hosts_path(), none))
            &&& document(r->Ok_0) matches Some(k) && json_at(k, hosts_path()) == Some(none)
        }),
{
    let none = JsonView::Array(Seq::empty());
    let j = document(s)->0;
    lemma_configuration_is_tidy(s);
    lemma_host_there(j, ex, 0);
    lemma_found_is_said(s, hosts_path());
    assert(reads("[]"@, none)) by {
        reveal_strlit("[]");
        lemma_void_spaces(0);
        assert(spaces(0) =~= Seq::<char>::empty());
        lemma_lists_void(Seq::empty());
        lemma_reads_array(Seq::empty(), Seq::empty(), 0);
        assert("[]"@ =~= seq!['['] + Seq::<char>::empty() + spaces(0) + seq![']']);
    }
    reveal_strlit("[]");
    lemma_replace_container_is_read(s, hosts_path(), "[]"@, none);
    lemma_replaced_at(j, hosts_path(), none);
}

} // verus!

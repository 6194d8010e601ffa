//! After an update every answer to an advanced key of a board is in force for
//! that board.
use crate::advanced::{dut_owned, field_of, literal_of, section_of};
use crate::answers::{DutAnswersView, HostAnswersView, WizardAnswersView};
use crate::board::{
    board_changes, board_there, edits_of, member_change, name_changes, port_changes, user_changes,
};
use crate::board_answers::{
    all_pass, elsewhere, holder, lemma_board_passes, lemma_board_says_answer, lemma_gone_passes,
    lemma_literal_says_answer, lemma_member_passes, lemma_section_passes, says_answer,
};
use crate::board_fields::{
    action_at, all_board_changes, early_missing, group_changes, key_changes, keys_ask,
    late_missing, relay_changes_of, relay_sets, relay_unsets, section_change, set_changes, spelled,
    unset_changes,
};
use crate::changes::ChangeView;
use crate::config::{
    config_of, config_text, dut_of, duts_from, host_of, member, ConfigView, DutView, HostView,
};
use crate::current::{current_of, dut_current_of};
use crate::edit::{edited_from, lemma_edits_stay_valid};
use crate::jsonc::{document, JsonView};
use crate::key_texts::{key_spot_at, lemma_board_says_key, lemma_top_says_key, under_key};
use crate::locate::SegView;
use crate::place::{json_at, under};
use crate::spared::{lemma_all_spared, lemma_json_through, passes};
use crate::text_map::{lookup, Pairs};
use crate::tidy::downloads_tidy;
use crate::together::{all_have_lines, path_of, says_change};
use crate::top_keys::{lemma_top_key, lemma_top_section, lemma_written_key};
use crate::top_level::{lemma_top_changes_all, top};
use crate::update_config::{duts_path, host_path, hosts_path, section_path, update_plan};
use crate::update_dut::{dut_container, seen_before, sets_of, DutKeyAction, MissingView, SetView};
use crate::updated::{
    dut_list_changes, host_changes_of, host_list_changes, host_text_change, host_text_changes,
    hosts_plan, lemma_answers_are_read, lemma_hosts_listed, lemma_update_steps, readable_boards,
    readable_host, readable_update, update_changes,
};
use vstd::prelude::*;

verus! {

// ── What is in force ─────────────────────────────────────────────────
/// The path of board `di` of host `hi`.
pub open spec fn board_path(hi: nat, di: nat) -> Seq<SegView> {
    duts_path(hi).push(SegView::Index(di))
}

/// The value of an advanced key that is in force for a board, as text: its own
/// where it has one, and that of the top level otherwise.
pub open spec fn in_force(c: ConfigView, hi: nat, di: nat, key: Seq<char>) -> Option<Seq<char>> {
    match lookup(dut_current_of(c.dev_hosts[hi as int].duts[di as int]), key) {
        Some(x) => Some(x),
        None => lookup(current_of(c), key),
    }
}

// ── Where the changes aim ────────────────────────────────────────────
/// Whether all changes are of what stands at a path or below it, and none makes
/// a list longer or puts something above a member.
spec fn all_within(cs: Seq<ChangeView>, path: Seq<SegView>) -> bool {
    forall|n: int|
        0 <= n < cs.len() ==> under(path, path_of(#[trigger] cs[n])) && !(cs[n] is Items) && !(
        cs[n] is Above)
}

proof fn lemma_both_within(a: Seq<ChangeView>, b: Seq<ChangeView>, path: Seq<SegView>)
    requires
        all_within(a, path),
        all_within(b, path),
    ensures
        all_within(a + b, path),
{
    let all = a + b;
    assert forall|n: int| 0 <= n < all.len() implies under(path, path_of(#[trigger] all[n])) && !(
    all[n] is Items) && !(all[n] is Above) by {
        if n < a.len() {
            assert(all[n] == a[n]);
        } else {
            assert(all[n] == b[n - a.len()]);
        }
    }
}

proof fn lemma_under_more(p: Seq<SegView>, a: SegView, b: SegView)
    ensures
        under(p, p),
        under(p, p.push(a)),
        under(p, p.push(a).push(b)),
{
    let n = p.len() as int;
    assert(p.take(n) =~= p);
    assert(p.push(a).take(n) =~= p);
    assert(p.push(a).push(b).take(n) =~= p);
}

proof fn lemma_member_within(
    s: Seq<char>,
    path: Seq<SegView>,
    section: Seq<char>,
    field: Seq<char>,
    w: JsonView,
)
    ensures
        all_within(seq![member_change(s, holder(path, section), field, w)], path),
        all_within(seq![ChangeView::Gone { path: holder(path, section), key: field }], path),
{
    lemma_under_more(path, SegView::Key(section), SegView::Key(field));
    lemma_under_more(path, SegView::Key(field), SegView::Key(field));
}

proof fn lemma_sets_within(s: Seq<char>, path: Seq<SegView>, section: Seq<char>, sets: Seq<SetView>, i: int)
    requires
        0 <= i,
        section.len() > 0,
    ensures
        all_within(set_changes(s, path.push(SegView::Key(section)), sets, i), path),
    decreases sets.len() - i,
{
    if i < sets.len() {
        lemma_sets_within(s, path, section, sets, i + 1);
        lemma_member_within(s, path, section, sets[i].key, spelled(sets[i].literal));
        lemma_both_within(
            seq![
                member_change(
                    s,
                    path.push(SegView::Key(section)),
                    sets[i].key,
                    spelled(sets[i].literal),
                ),
            ],
            set_changes(s, path.push(SegView::Key(section)), sets, i + 1),
            path,
        );
    }
}

proof fn lemma_unsets_within(
    path: Seq<SegView>,
    section: Seq<char>,
    unsets: Seq<(Seq<char>, Seq<char>)>,
    i: int,
)
    requires
        0 <= i,
        section.len() > 0,
    ensures
        all_within(unset_changes(path.push(SegView::Key(section)), unsets, i), path),
    decreases unsets.len() - i,
{
    if i < unsets.len() {
        lemma_unsets_within(path, section, unsets, i + 1);
        lemma_member_within(Seq::empty(), path, section, unsets[i].0, JsonView::Null);
        lemma_both_within(
            seq![ChangeView::Gone { path: path.push(SegView::Key(section)), key: unsets[i].0 }],
            unset_changes(path.push(SegView::Key(section)), unsets, i + 1),
            path,
        );
    }
}

proof fn lemma_groups_within(path: Seq<SegView>, v: Seq<MissingView>, i: int)
    requires
        0 <= i,
    ensures
        all_within(group_changes(path, v, i), path),
    decreases v.len() - i,
{
    reveal_with_fuel(group_changes, 1);
    lemma_under_more(path, SegView::Index(0), SegView::Index(0));
    if i < v.len() {
        lemma_groups_within(path, v, i + 1);
        if !seen_before(v, i) {
            let sets = sets_of(v, v[i].section, v.len() as int);
            lemma_both_within(
                seq![section_change(path, v[i].section, sets)],
                group_changes(path, v, i + 1),
                path,
            );
        }
    }
}

proof fn lemma_keys_within(
    s: Seq<char>,
    path: Seq<SegView>,
    ex: DutView,
    a: DutAnswersView,
    global: Pairs,
    n: int,
)
    requires
        0 <= n,
    ensures
        all_within(key_changes(s, path, ex, a, global, n), path),
    decreases a.advanced.len() - n,
{
    reveal_with_fuel(key_changes, 1);
    if n < a.advanced.len() {
        lemma_keys_within(s, path, ex, a, global, n + 1);
        let key = a.advanced[n].0;
        let rest = key_changes(s, path, ex, a, global, n + 1);
        assert(holder(path, section_of(key)) == dut_container(path, key));
        match action_at(s, path, ex, a, global, n) {
            DutKeyAction::Write(e) => {
                lemma_member_within(s, path, section_of(key), e.key, spelled(e.literal));
                lemma_both_within(
                    seq![member_change(s, dut_container(path, key), e.key, spelled(e.literal))],
                    rest,
                    path,
                );
            },
            DutKeyAction::Remove(_) => {
                lemma_member_within(s, path, section_of(key), field_of(key), JsonView::Null);
                lemma_both_within(
                    seq![ChangeView::Gone { path: dut_container(path, key), key: field_of(key) }],
                    rest,
                    path,
                );
            },
            _ => {
                assert(Seq::<ChangeView>::empty() + rest =~= rest);
            },
        }
    }
}

/// The changes for a board are all within it.
proof fn lemma_board_within(
    s: Seq<char>,
    path: Seq<SegView>,
    ex: DutView,
    a: DutAnswersView,
    global: Pairs,
)
    ensures
        all_within(all_board_changes(s, path, ex, a, global), path),
{
    let early = early_missing(s, path, ex, a, global);
    let late = late_missing(s, path, ex, a, global);
    let relay = path.push(SegView::Key("relay"@));
    reveal_strlit("serial");
    reveal_strlit("target");
    reveal_strlit("relay");
    lemma_under_more(path, SegView::Index(0), SegView::Index(0));
    lemma_member_within(s, path, Seq::empty(), "dut_name"@, JsonView::Text(a.dut_name));
    lemma_member_within(
        s,
        path,
        "serial"@,
        "port"@,
        crate::kept::scalar_json(crate::advanced::scalar_of(a.serial_port)),
    );
    lemma_member_within(s, path, "target"@, "login_user"@, JsonView::Text(a.login_user));
    let c1 = name_changes(s, path, ex, a);
    let c2 = port_changes(s, path, ex, a);
    let c3 = user_changes(s, path, ex, a);
    lemma_both_within(c1, c2, path);
    lemma_both_within(c1 + c2, c3, path);
    let c = board_changes(s, path, ex, a);
    lemma_groups_within(path, early, 0);
    lemma_groups_within(path, late, 0);
    lemma_sets_within(s, path, "relay"@, relay_sets(ex, a), 0);
    lemma_unsets_within(path, "relay"@, relay_unsets(ex, a), 0);
    lemma_both_within(
        unset_changes(relay, relay_unsets(ex, a), 0),
        set_changes(s, relay, relay_sets(ex, a), 0),
        path,
    );
    let r = relay_changes_of(s, path, ex, a);
    assert(all_within(r, path)) by {
        reveal(relay_changes_of);
    }
    lemma_keys_within(s, path, ex, a, global, 0);
    let d = c + group_changes(path, early, 0);
    lemma_both_within(c, group_changes(path, early, 0), path);
    lemma_both_within(d, r, path);
    lemma_both_within(d + r, key_changes(s, path, ex, a, global, 0), path);
    lemma_both_within(
        d + r + key_changes(s, path, ex, a, global, 0),
        group_changes(path, late, 0),
        path,
    );
}

proof fn lemma_diverge(p: Seq<SegView>, q: Seq<SegView>, k: int)
    requires
        0 <= k < p.len(),
        k < q.len(),
        p[k] != q[k],
    ensures
        !under(p, q),
        !under(q, p),
{
    if under(p, q) {
        assert(q.take(p.len() as int)[k] == p[k]);
    }
    if under(q, p) {
        assert(p.take(q.len() as int)[k] == q[k]);
    }
}

/// A change within one place passes another by.
proof fn lemma_far_passes(c: ChangeView, p: Seq<SegView>, q: Seq<SegView>, b: Seq<SegView>, k: int)
    requires
        under(p, path_of(c)),
        !(c is Items),
        !(c is Above),
        under(b, q),
        0 <= k < p.len(),
        k < b.len() || (b.len() == 0 && k < q.len()),
        p[k] != q[k],
    ensures
        passes(c, q, b),
{
    let x = path_of(c);
    assert(x[k] == p[k]) by {
        assert(x.take(p.len() as int)[k] == p[k]);
    }
    lemma_diverge(x, q, k);
    if k < b.len() {
        assert(b[k] == q[k]) by {
            assert(q.take(b.len() as int)[k] == b[k]);
        }
        lemma_diverge(x, b, k);
    }
}

// ── Hosts ────────────────────────────────────────────────────────────
/// A list that grows.
spec fn items_at(path: Seq<SegView>, added: Seq<JsonView>) -> ChangeView {
    ChangeView::Items { path, added }
}

/// Whether something holds of every change that the answers for some hosts can
/// ask for.
spec fn holds_of_hosts(
    s: Seq<char>,
    ex: Seq<HostView>,
    a: Seq<HostAnswersView>,
    global: Pairs,
    f: spec_fn(ChangeView) -> bool,
) -> bool {
    &&& forall|h: nat, x: Seq<char>| h < ex.len() ==> f(#[trigger] host_text_change(s, h, "ip"@, x))
    &&& forall|h: nat, x: Seq<char>| h < ex.len() ==> f(#[trigger] host_text_change(s, h, "user"@, x))
    &&& forall|h: nat, x: Seq<char>| h < ex.len() ==> f(#[trigger] host_text_change(s, h, "pass"@, x))
    &&& forall|h: nat, x: Seq<char>|
        h < ex.len() ==> f(#[trigger] host_text_change(s, h, "host_name"@, x))
    &&& forall|added: Seq<JsonView>| f(#[trigger] items_at(hosts_path(), added))
    &&& forall|h: nat, added: Seq<JsonView>| f(#[trigger] items_at(duts_path(h), added))
    &&& forall|h: nat, d: nat, n: int|
        h < ex.len() && h < a.len() && d < ex[h as int].duts.len() && d < a[h as int].duts.len() && 0
            <= n < all_board_changes(
            s,
            board_path(h, d),
            ex[h as int].duts[d as int],
            a[h as int].duts[d as int],
            global,
        ).len() ==> f(
            #[trigger] all_board_changes(
                s,
                board_path(h, d),
                ex[h as int].duts[d as int],
                a[h as int].duts[d as int],
                global,
            )[n],
        )
}

proof fn lemma_duts_all(
    s: Seq<char>,
    ex: Seq<HostView>,
    a: Seq<HostAnswersView>,
    global: Pairs,
    f: spec_fn(ChangeView) -> bool,
    hi: nat,
    di: int,
)
    requires
        holds_of_hosts(s, ex, a, global, f),
        hi < ex.len(),
        hi < a.len(),
        0 <= di,
    ensures
        forall|n: int|
            0 <= n < dut_list_changes(
                s,
                hi,
                ex[hi as int].duts,
                a[hi as int].duts,
                global,
                di,
            ).len() ==> f(
                #[trigger] dut_list_changes(
                    s,
                    hi,
                    ex[hi as int].duts,
                    a[hi as int].duts,
                    global,
                    di,
                )[n],
            ),
    decreases a[hi as int].duts.len() - di,
{
    reveal_with_fuel(dut_list_changes, 1);
    let (e, b) = (ex[hi as int].duts, a[hi as int].duts);
    let cs = dut_list_changes(s, hi, e, b, global, di);
    if di < b.len() {
        lemma_duts_all(s, ex, a, global, f, hi, di + 1);
        let rest = dut_list_changes(s, hi, e, b, global, di + 1);
        let d = (cs.len() - rest.len()) as int;
        assert forall|n: int| 0 <= n < cs.len() implies f(#[trigger] cs[n]) by {
            if n >= d {
                assert(cs[n] == rest[n - d]);
            } else if di < e.len() {
                let here = all_board_changes(
                    s,
                    board_path(hi, di as nat),
                    ex[hi as int].duts[(di as nat) as int],
                    a[hi as int].duts[(di as nat) as int],
                    global,
                );
                assert(cs[n] == here[n]);
            } else {
                let added = seq![crate::updated::dut_json(crate::answers::dut_config(b[di])->Ok_0)];
                assert(cs[n] == items_at(duts_path(hi), added));
            }
        }
    }
}

proof fn lemma_hosts_all(
    s: Seq<char>,
    ex: Seq<HostView>,
    a: Seq<HostAnswersView>,
    global: Pairs,
    f: spec_fn(ChangeView) -> bool,
    hi: int,
)
    requires
        holds_of_hosts(s, ex, a, global, f),
        0 <= hi,
    ensures
        forall|n: int|
            0 <= n < host_list_changes(s, ex, a, global, hi).len() ==> f(
                #[trigger] host_list_changes(s, ex, a, global, hi)[n],
            ),
    decreases a.len() - hi,
{
    reveal_with_fuel(host_list_changes, 1);
    let cs = host_list_changes(s, ex, a, global, hi);
    if hi < a.len() {
        lemma_hosts_all(s, ex, a, global, f, hi + 1);
        let rest = host_list_changes(s, ex, a, global, hi + 1);
        let here = host_changes_of(s, hi as nat, ex, a[hi], global);
        assert forall|n: int| 0 <= n < here.len() implies f(#[trigger] here[n]) by {
            if hi < ex.len() {
                lemma_duts_all(s, ex, a, global, f, hi as nat, 0);
                let texts = host_text_changes(s, hi as nat, ex[hi], a[hi]);
                let duts = dut_list_changes(s, hi as nat, ex[hi].duts, a[hi].duts, global, 0);
                if n >= texts.len() {
                    assert(here[n] == duts[n - texts.len()]);
                } else {
                    assert(here[n] == texts[n]);
                    let h = hi as nat;
                    assert(texts[n] == host_text_change(s, h, "ip"@, a[hi].ip) || texts[n]
                        == host_text_change(s, h, "user"@, a[hi].user) || texts[n]
                        == host_text_change(s, h, "pass"@, a[hi].pass) || texts[n]
                        == host_text_change(s, h, "host_name"@, a[hi].host_name));
                }
            } else {
                let added = seq![
                    crate::updated::host_json(crate::answers::host_config(a[hi])->Ok_0),
                ];
                assert(here[n] == items_at(hosts_path(), added));
            }
        }
        assert forall|n: int| 0 <= n < cs.len() implies f(#[trigger] cs[n]) by {
            if n < here.len() {
                assert(cs[n] == here[n]);
            } else {
                assert(cs[n] == rest[n - here.len()]);
            }
        }
    }
}

// ── What an update passes by ─────────────────────────────────────────
/// The names that a host has beside the list of its boards.
proof fn lemma_host_names()
    ensures
        "ip"@ != "duts"@,
        "user"@ != "duts"@,
        "pass"@ != "duts"@,
        "host_name"@ != "duts"@,
{
    reveal_strlit("ip");
    reveal_strlit("user");
    reveal_strlit("pass");
    reveal_strlit("host_name");
    reveal_strlit("duts");
    assert("ip"@.len() == 2 && "host_name"@.len() == 9 && "duts"@.len() == 4);
    assert("user"@[0] == 'u' && "pass"@[0] == 'p' && "duts"@[0] == 'd');
}

/// The steps of the path of a board.
proof fn lemma_board_steps(hi: nat, di: nat, key: Seq<char>)
    ensures
        ({
            let p = board_path(hi, di);
            let q = key_spot_at(p, key);
            &&& p.len() == 4
            &&& p[0] == SegView::Key("dev_hosts"@)
            &&& p[1] == SegView::Index(hi)
            &&& p[2] == SegView::Key("duts"@)
            &&& p[3] == SegView::Index(di)
            &&& under(p, q)
            &&& q.len() > 4
            &&& forall|k: int| 0 <= k < 4 ==> q[k] == p[k]
        }),
{
    let p = board_path(hi, di);
    let q = key_spot_at(p, key);
    assert(q.take(4) =~= p);
}

/// The change of a text of a host passes by the keys of the boards.
proof fn lemma_host_text_passes(
    s: Seq<char>,
    h: nat,
    name: Seq<char>,
    x: Seq<char>,
    hi: nat,
    di: nat,
    key: Seq<char>,
)
    requires
        name != "duts"@,
    ensures
        passes(host_text_change(s, h, name, x), key_spot_at(board_path(hi, di), key), board_path(hi, di)),
{
    let p = board_path(hi, di);
    let q = key_spot_at(p, key);
    lemma_board_steps(hi, di, key);
    let host = host_path(h);
    let path = host.push(SegView::Key(name));
    assert(path.len() == 3 && host.len() == 2);
    if h != hi {
        lemma_diverge(path, q, 1);
        lemma_diverge(path, p, 1);
        lemma_diverge(host, q, 1);
        lemma_diverge(host, p, 1);
    } else {
        lemma_diverge(path, q, 2);
        lemma_diverge(path, p, 2);
    }
    assert(!under(q, host));
}

/// A change of a list of hosts or boards passes by the keys of the boards.
proof fn lemma_items_pass(path: Seq<SegView>, added: Seq<JsonView>, hi: nat, di: nat, key: Seq<char>)
    requires
        path.len() < 4,
    ensures
        passes(items_at(path, added), key_spot_at(board_path(hi, di), key), board_path(hi, di)),
{
    lemma_board_steps(hi, di, key);
}

/// A change at the top level passes by the keys of the boards.
proof fn lemma_top_change_passes_board(
    s: Seq<char>,
    section: Seq<char>,
    field: Seq<char>,
    w: JsonView,
    sets: Seq<SetView>,
    hi: nat,
    di: nat,
    key: Seq<char>,
)
    requires
        section.len() > 0 ==> section != "dev_hosts"@,
        section.len() == 0 ==> field != "dev_hosts"@,
    ensures
        ({
            let b = board_path(hi, di);
            let q = key_spot_at(b, key);
            &&& passes(member_change(s, section_path(section), field, w), q, b)
            &&& passes(ChangeView::Gone { path: section_path(section), key: field }, q, b)
            &&& section.len() > 0 ==> passes(section_change(top(), section, sets), q, b)
        }),
{
    let b = board_path(hi, di);
    let q = key_spot_at(b, key);
    lemma_board_steps(hi, di, key);
    let c = section_path(section);
    let p = c.push(SegView::Key(field));
    assert(p[0] != q[0]);
    lemma_diverge(p, q, 0);
    lemma_diverge(p, b, 0);
    if section.len() > 0 {
        lemma_diverge(c, q, 0);
    }
    assert(!under(q, c));
    assert(!under(q, top()));
}

/// The keys that answers at the top level are written or taken out for.
proof fn lemma_top_answer_parts(s: Seq<char>, answers: Pairs, l: int)
    requires
        crate::top_level::top_asks(s, answers),
        0 <= l < answers.len(),
        literal_of(answers[l].0, answers[l].1) matches Ok(Some(_)) || (literal_of(
            answers[l].0,
            answers[l].1,
        ) matches Ok(None) && crate::locate::value_span(
            s,
            section_path(section_of(answers[l].0)).push(SegView::Key(field_of(answers[l].0))),
        ) is Some),
    ensures
        crate::top_keys::top_parts(answers[l].0),
        section_of(answers[l].0).len() > 0 ==> section_of(answers[l].0) != "dev_hosts"@
            && section_of(answers[l].0) != "loader"@ && section_of(answers[l].0) != "lock_dir"@,
        section_of(answers[l].0).len() == 0 ==> field_of(answers[l].0) != "dev_hosts"@,
{
    let key = answers[l].0;
    assert(crate::top_level::top_answer_fits(s, answers[l]));
    if let Ok(Some(_)) = literal_of(key, answers[l].1) {
        lemma_written_key(key, answers[l].1);
    }
    lemma_top_key(key);
    crate::top_keys::lemma_other_names();
    if section_of(key).len() > 0 {
        lemma_top_section(section_of(key));
    }
}

/// An update passes by a key of a board whose answer asks for nothing.
#[verifier::spinoff_prover]
proof fn lemma_update_passes_board(
    s: Seq<char>,
    ex: ConfigView,
    a: WizardAnswersView,
    hi: nat,
    di: nat,
    i: int,
)
    requires
        readable_update(s, ex, a),
        update_plan(s, ex, a).1 is None,
        hi < ex.dev_hosts.len(),
        hi < a.hosts.len(),
        di < ex.dev_hosts[hi as int].duts.len(),
        di < a.hosts[hi as int].duts.len(),
        0 <= i < a.hosts[hi as int].duts[di as int].advanced.len(),
        keys_ask(a.hosts[hi as int].duts[di as int]),
        action_at(
            s,
            board_path(hi, di),
            ex.dev_hosts[hi as int].duts[di as int],
            a.hosts[hi as int].duts[di as int],
            current_of(ex),
            i,
        ) is Nothing,
    ensures
        all_pass(
            update_changes(s, ex, a),
            board_path(hi, di),
            a.hosts[hi as int].duts[di as int].advanced[i].0,
        ),
{
    let global = current_of(ex);
    let key = a.hosts[hi as int].duts[di as int].advanced[i].0;
    let b = board_path(hi, di);
    let q = key_spot_at(b, key);
    let f = |c: ChangeView| passes(c, q, b);
    lemma_board_steps(hi, di, key);
    lemma_host_names();
    assert forall|h: nat, x: Seq<char>| h < ex.dev_hosts.len() implies f(
        #[trigger] host_text_change(s, h, "ip"@, x),
    ) by {
        lemma_host_text_passes(s, h, "ip"@, x, hi, di, key);
    }
    assert forall|h: nat, x: Seq<char>| h < ex.dev_hosts.len() implies f(
        #[trigger] host_text_change(s, h, "user"@, x),
    ) by {
        lemma_host_text_passes(s, h, "user"@, x, hi, di, key);
    }
    assert forall|h: nat, x: Seq<char>| h < ex.dev_hosts.len() implies f(
        #[trigger] host_text_change(s, h, "pass"@, x),
    ) by {
        lemma_host_text_passes(s, h, "pass"@, x, hi, di, key);
    }
    assert forall|h: nat, x: Seq<char>| h < ex.dev_hosts.len() implies f(
        #[trigger] host_text_change(s, h, "host_name"@, x),
    ) by {
        lemma_host_text_passes(s, h, "host_name"@, x, hi, di, key);
    }
    assert forall|added: Seq<JsonView>| f(#[trigger] items_at(hosts_path(), added)) by {
        lemma_items_pass(hosts_path(), added, hi, di, key);
    }
    assert forall|h: nat, added: Seq<JsonView>| f(#[trigger] items_at(duts_path(h), added)) by {
        lemma_items_pass(duts_path(h), added, hi, di, key);
    }
    assert forall|h: nat, d: nat, n: int|
        h < ex.dev_hosts.len() && h < a.hosts.len() && d < ex.dev_hosts[h as int].duts.len() && d
            < a.hosts[h as int].duts.len() && 0 <= n < all_board_changes(
            s,
            board_path(h, d),
            ex.dev_hosts[h as int].duts[d as int],
            a.hosts[h as int].duts[d as int],
            global,
        ).len() implies f(
        #[trigger] all_board_changes(
            s,
            board_path(h, d),
            ex.dev_hosts[h as int].duts[d as int],
            a.hosts[h as int].duts[d as int],
            global,
        )[n],
    ) by {
        let (e, x) = (ex.dev_hosts[h as int].duts[d as int], a.hosts[h as int].duts[d as int]);
        let cs = all_board_changes(s, board_path(h, d), e, x, global);
        if h == hi && d == di {
            lemma_board_passes(s, b, e, x, global, i);
            assert(passes(cs[n], q, b));
        } else {
            lemma_board_within(s, board_path(h, d), e, x, global);
            lemma_board_steps(h, d, key);
            lemma_far_passes(
                cs[n],
                board_path(h, d),
                q,
                b,
                if h != hi {
                    1
                } else {
                    3
                },
            );
        }
    }
    assert(holds_of_hosts(s, ex.dev_hosts, a.hosts, global, f));
    lemma_hosts_all(s, ex.dev_hosts, a.hosts, global, f, 0);
    lemma_update_steps(s, ex, a);
    let p = hosts_plan((Seq::empty(), None), s, ex.dev_hosts, a.hosts, global, 0);
    assert forall|l: int|
        0 <= l < a.advanced.len() && crate::top_level::asks_value(
            global,
            (#[trigger] a.advanced[l]).0,
            a.advanced[l].1,
        ) implies f(
        member_change(
            s,
            section_path(section_of(a.advanced[l].0)),
            field_of(a.advanced[l].0),
            spelled(crate::top_level::top_set(a.advanced[l].0, a.advanced[l].1).literal),
        ),
    ) by {
        lemma_top_answer_parts(s, a.advanced, l);
        lemma_top_change_passes_board(
            s,
            section_of(a.advanced[l].0),
            field_of(a.advanced[l].0),
            spelled(crate::top_level::top_set(a.advanced[l].0, a.advanced[l].1).literal),
            Seq::empty(),
            hi,
            di,
            key,
        );
    }
    assert forall|l: int|
        0 <= l < a.advanced.len() && crate::top_level::asks_removal(
            s,
            section_of((#[trigger] a.advanced[l]).0),
            global,
            a.advanced[l].0,
            a.advanced[l].1,
        ) implies f(
        ChangeView::Gone {
            path: section_path(section_of(a.advanced[l].0)),
            key: field_of(a.advanced[l].0),
        },
    ) by {
        lemma_top_answer_parts(s, a.advanced, l);
        lemma_top_change_passes_board(
            s,
            section_of(a.advanced[l].0),
            field_of(a.advanced[l].0),
            JsonView::Null,
            Seq::empty(),
            hi,
            di,
            key,
        );
    }
    assert forall|section: Seq<char>, sets: Seq<SetView>|
        sets.len() > 0 && section.len() > 0 && (forall|k: int|
            0 <= k < sets.len() ==> crate::top_level::set_among(
                #[trigger] sets[k],
                a.advanced,
                section,
                a.advanced.len() as int,
            )) implies f(#[trigger] section_change(top(), section, sets)) by {
        assert(crate::top_level::set_among(sets[0], a.advanced, section, a.advanced.len() as int));
        let l = choose|l: int|
            0 <= l < a.advanced.len() && section_of((#[trigger] a.advanced[l]).0) == section
                && crate::top_level::has_literal(a.advanced[l]);
        lemma_top_answer_parts(s, a.advanced, l);
        lemma_top_change_passes_board(
            s,
            section,
            Seq::empty(),
            JsonView::Null,
            sets,
            hi,
            di,
            key,
        );
    }
    lemma_top_changes_all(p, s, global, a.advanced, 0, f);
    let hosts = host_list_changes(s, ex.dev_hosts, a.hosts, global, 0);
    let tops = crate::top_level::top_changes(s, global, a.advanced, 0);
    let all = update_changes(s, ex, a);
    assert forall|n: int| 0 <= n < all.len() implies passes(#[trigger] all[n], q, b) by {
        if n < hosts.len() {
            assert(all[n] == hosts[n]);
            assert(f(hosts[n]));
        } else {
            assert(all[n] == tops[n - hosts.len()]);
            assert(f(tops[n - hosts.len()]));
        }
    }
}

// ── The top level ────────────────────────────────────────────────────
/// The first step of the path of a key at the top level.
proof fn lemma_top_steps(key: Seq<char>)
    requires
        dut_owned(key),
    ensures
        ({
            let q = key_spot_at(top(), key);
            &&& q.len() > 0
            &&& q[0] != SegView::Key("dev_hosts"@)
            &&& under(top(), q)
            &&& section_of(key).len() > 0 ==> section_of(key) != "loader"@ && section_of(key)
                != "lock_dir"@
        }),
{
    crate::board_keys::lemma_dut_key(key);
    let q = key_spot_at(top(), key);
    assert(q.take(0) =~= top());
    crate::top_keys::lemma_other_names();
    reveal_strlit("lock_dir");
    if section_of(key).len() > 0 {
        crate::board_keys::lemma_board_section(section_of(key));
        assert(crate::top_keys::top_sections().contains(section_of(key))) by {
            let k = choose|k: int|
                0 <= k < crate::board_keys::board_sections().len()
                    && crate::board_keys::board_sections()[k] == section_of(key);
            let t = crate::top_keys::top_sections();
            assert(t[0] == "serial"@ && t[1] == "target"@ && t[2] == "uboot"@ && t[4] == "monitor"@
                && t[5] == "flash"@ && t[6] == "control"@);
        }
        lemma_top_section(section_of(key));
    }
}

/// Another key at the top level stands elsewhere.
proof fn lemma_top_elsewhere(other: Seq<char>, key: Seq<char>)
    requires
        dut_owned(key),
        crate::top_keys::top_parts(other),
        section_of(other).len() > 0 ==> section_of(other) != "loader"@,
        other != key,
    ensures
        elsewhere(section_of(other), field_of(other), key),
{
    crate::board_keys::lemma_dut_key(key);
    lemma_top_steps(key);
}

/// An update passes by a key at the top level that is not answered there.
#[verifier::spinoff_prover]
proof fn lemma_update_passes_top(
    s: Seq<char>,
    ex: ConfigView,
    a: WizardAnswersView,
    key: Seq<char>,
)
    requires
        readable_update(s, ex, a),
        update_plan(s, ex, a).1 is None,
        dut_owned(key),
        forall|l: int| 0 <= l < a.advanced.len() ==> (#[trigger] a.advanced[l]).0 != key,
    ensures
        all_pass(update_changes(s, ex, a), top(), key),
{
    let global = current_of(ex);
    let b = top();
    let q = key_spot_at(b, key);
    let f = |c: ChangeView| passes(c, q, b);
    lemma_top_steps(key);
    let dev = SegView::Key("dev_hosts"@);
    assert forall|c: ChangeView| path_of(c).len() > 0 && path_of(c)[0] == dev && (c is Above
        ==> path_of(c).len() > 0) implies #[trigger] passes(c, q, b) by {
        lemma_diverge(path_of(c), q, 0);
    }
    assert forall|h: nat, name: Seq<char>, x: Seq<char>| passes(
        #[trigger] host_text_change(s, h, name, x),
        q,
        b,
    ) by {
        let c = host_text_change(s, h, name, x);
        assert(path_of(c)[0] == dev);
        assert(passes(c, q, b));
    }
    assert forall|added: Seq<JsonView>| f(#[trigger] items_at(hosts_path(), added)) by {
        assert(passes(items_at(hosts_path(), added), q, b));
    }
    assert forall|h: nat, added: Seq<JsonView>| f(#[trigger] items_at(duts_path(h), added)) by {
        assert(passes(items_at(duts_path(h), added), q, b));
    }
    assert forall|h: nat, d: nat, n: int|
        h < ex.dev_hosts.len() && h < a.hosts.len() && d < ex.dev_hosts[h as int].duts.len() && d
            < a.hosts[h as int].duts.len() && 0 <= n < all_board_changes(
            s,
            board_path(h, d),
            ex.dev_hosts[h as int].duts[d as int],
            a.hosts[h as int].duts[d as int],
            global,
        ).len() implies f(
        #[trigger] all_board_changes(
            s,
            board_path(h, d),
            ex.dev_hosts[h as int].duts[d as int],
            a.hosts[h as int].duts[d as int],
            global,
        )[n],
    ) by {
        let (e, x) = (ex.dev_hosts[h as int].duts[d as int], a.hosts[h as int].duts[d as int]);
        let cs = all_board_changes(s, board_path(h, d), e, x, global);
        lemma_board_within(s, board_path(h, d), e, x, global);
        lemma_board_steps(h, d, key);
        lemma_far_passes(cs[n], board_path(h, d), q, b, 0);
    }
    assert(holds_of_hosts(s, ex.dev_hosts, a.hosts, global, f));
    lemma_hosts_all(s, ex.dev_hosts, a.hosts, global, f, 0);
    lemma_update_steps(s, ex, a);
    let p = hosts_plan((Seq::empty(), None), s, ex.dev_hosts, a.hosts, global, 0);
    assert forall|l: int|
        0 <= l < a.advanced.len() && crate::top_level::asks_value(
            global,
            (#[trigger] a.advanced[l]).0,
            a.advanced[l].1,
        ) implies f(
        member_change(
            s,
            section_path(section_of(a.advanced[l].0)),
            field_of(a.advanced[l].0),
            spelled(crate::top_level::top_set(a.advanced[l].0, a.advanced[l].1).literal),
        ),
    ) by {
        let other = a.advanced[l].0;
        lemma_top_answer_parts(s, a.advanced, l);
        lemma_top_elsewhere(other, key);
        assert(section_path(section_of(other)) == holder(top(), section_of(other)));
        lemma_member_passes(
            s,
            top(),
            section_of(other),
            field_of(other),
            spelled(crate::top_level::top_set(other, a.advanced[l].1).literal),
            key,
        );
    }
    assert forall|l: int|
        0 <= l < a.advanced.len() && crate::top_level::asks_removal(
            s,
            section_of((#[trigger] a.advanced[l]).0),
            global,
            a.advanced[l].0,
            a.advanced[l].1,
        ) implies f(
        ChangeView::Gone {
            path: section_path(section_of(a.advanced[l].0)),
            key: field_of(a.advanced[l].0),
        },
    ) by {
        let other = a.advanced[l].0;
        lemma_top_answer_parts(s, a.advanced, l);
        lemma_top_elsewhere(other, key);
        assert(section_path(section_of(other)) == holder(top(), section_of(other)));
        lemma_gone_passes(top(), section_of(other), field_of(other), key);
    }
    assert forall|section: Seq<char>, sets: Seq<SetView>|
        sets.len() > 0 && section.len() > 0 && (forall|k: int|
            0 <= k < sets.len() ==> crate::top_level::set_among(
                #[trigger] sets[k],
                a.advanced,
                section,
                a.advanced.len() as int,
            )) implies f(#[trigger] section_change(top(), section, sets)) by {
        assert forall|k: int| 0 <= k < sets.len() implies elsewhere(
            section,
            (#[trigger] sets[k]).key,
            key,
        ) && section != "loader"@ by {
            assert(crate::top_level::set_among(
                sets[k],
                a.advanced,
                section,
                a.advanced.len() as int,
            ));
            let l = choose|l: int|
                0 <= l < a.advanced.len() && section_of((#[trigger] a.advanced[l]).0) == section
                    && crate::top_level::has_literal(a.advanced[l]) && sets[k]
                    == crate::top_level::top_set(a.advanced[l].0, a.advanced[l].1);
            lemma_top_answer_parts(s, a.advanced, l);
            lemma_top_elsewhere(a.advanced[l].0, key);
        }
        assert(elsewhere(section, sets[0].key, key));
        crate::board_keys::lemma_dut_key(key);
        assert forall|k: int| 0 <= k < sets.len() implies section_of(key).len() > 0 ==> (section
            != section_of(key) || (#[trigger] sets[k]).key != field_of(key)) by {
            assert(elsewhere(section, sets[k].key, key));
        }
        lemma_section_passes(top(), section, sets, key);
    }
    lemma_top_changes_all(p, s, global, a.advanced, 0, f);
    let hosts = host_list_changes(s, ex.dev_hosts, a.hosts, global, 0);
    let tops = crate::top_level::top_changes(s, global, a.advanced, 0);
    let all = update_changes(s, ex, a);
    assert forall|n: int| 0 <= n < all.len() implies passes(#[trigger] all[n], q, b) by {
        if n < hosts.len() {
            assert(all[n] == hosts[n]);
            assert(f(hosts[n]));
        } else {
            assert(all[n] == tops[n - hosts.len()]);
            assert(f(tops[n - hosts.len()]));
        }
    }
}

// ── Reading a board ──────────────────────────────────────────────────
#[verifier::rlimit(60)]
#[verifier::spinoff_prover]
proof fn lemma_duts_listed(v: Seq<JsonView>, i: int, before: Seq<DutView>, k: int)
    requires
        0 <= i,
        duts_from(v, i, before) is Some,
    ensures
        duts_from(v, i, before)->0.len() == before.len() + (if i <= v.len() {
            v.len() - i
        } else {
            0
        }),
        0 <= k < before.len() ==> duts_from(v, i, before)->0[k] == before[k],
        before.len() <= k < before.len() + v.len() - i ==> dut_of(v[k - before.len() + i]) == Some(
            duts_from(v, i, before)->0[k],
        ),
    decreases v.len() - i,
{
    if i < v.len() {
        let d = dut_of(v[i])->0;
        lemma_duts_listed(v, i + 1, before.push(d), k);
        lemma_duts_listed(v, i + 1, before.push(d), before.len() as int);
    }
}

/// A board that stands in a document is read as that board.
pub proof fn lemma_board_is_read(j: JsonView, c: ConfigView, hi: nat, di: nat)
    requires
        config_of(j) == Some(c),
        json_at(j, board_path(hi, di)) is Some,
    ensures
        hi < c.dev_hosts.len(),
        di < c.dev_hosts[hi as int].duts.len(),
        dut_of(json_at(j, board_path(hi, di))->0) == Some(c.dev_hosts[hi as int].duts[di as int]),
{
    let m = j->Object_0;
    let p = board_path(hi, di);
    let (k0, k1, k2, k3) = (
        SegView::Key("dev_hosts"@),
        SegView::Index(hi),
        SegView::Key("duts"@),
        SegView::Index(di),
    );
    assert(p =~= seq![k0, k1, k2, k3]);
    let p1 = p.drop_first();
    let p2 = p1.drop_first();
    let p3 = p2.drop_first();
    let p4 = p3.drop_first();
    assert(p1[0] == k1 && p2[0] == k2 && p3[0] == k3 && p4.len() == 0);
    assert(json_at(j, p) == json_at(member(m, "dev_hosts"@)->0, p1));
    let v = member(m, "dev_hosts"@)->0->Array_0;
    assert(json_at(JsonView::Array(v), p1) == json_at(v[hi as int], p2));
    lemma_hosts_listed(v, 0, Seq::empty(), hi as int);
    let h = c.dev_hosts[hi as int];
    let mh = v[hi as int]->Object_0;
    assert(host_of(v[hi as int]) == Some(h));
    assert(json_at(v[hi as int], p2) == json_at(member(mh, "duts"@)->0, p3));
    let w = member(mh, "duts"@)->0->Array_0;
    assert(json_at(JsonView::Array(w), p3) == json_at(w[di as int], p4));
    lemma_duts_listed(w, 0, Seq::empty(), di as int);
}

/// The changes for a board are among those of the update.
/// The changes for a board are among those of the update.
pub proof fn lemma_board_among(
    s: Seq<char>,
    ex: ConfigView,
    a: WizardAnswersView,
    hi: nat,
    di: nat,
    c: ChangeView,
)
    requires
        hi < ex.dev_hosts.len(),
        hi < a.hosts.len(),
        di < ex.dev_hosts[hi as int].duts.len(),
        di < a.hosts[hi as int].duts.len(),
        all_board_changes(
            s,
            board_path(hi, di),
            ex.dev_hosts[hi as int].duts[di as int],
            a.hosts[hi as int].duts[di as int],
            current_of(ex),
        ).contains(c),
    ensures
        update_changes(s, ex, a).contains(c),
{
    let global = current_of(ex);
    lemma_among_duts(
        s,
        hi,
        ex.dev_hosts[hi as int].duts,
        a.hosts[hi as int].duts,
        global,
        0,
        di as int,
        c,
    );
    lemma_among_hosts(s, ex.dev_hosts, a.hosts, global, 0, hi as int, c);
    let hosts = host_list_changes(s, ex.dev_hosts, a.hosts, global, 0);
    let k = choose|k: int| 0 <= k < hosts.len() && hosts[k] == c;
    assert(update_changes(s, ex, a)[k] == c);
}

proof fn lemma_among_duts(
    s: Seq<char>,
    hi: nat,
    ex: Seq<DutView>,
    a: Seq<DutAnswersView>,
    global: Pairs,
    n: int,
    di: int,
    c: ChangeView,
)
    requires
        0 <= n <= di < ex.len(),
        di < a.len(),
        all_board_changes(s, board_path(hi, di as nat), ex[di], a[di], global).contains(c),
    ensures
        dut_list_changes(s, hi, ex, a, global, n).contains(c),
    decreases di - n,
{
    reveal_with_fuel(dut_list_changes, 1);
    let cs = dut_list_changes(s, hi, ex, a, global, n);
    let rest = dut_list_changes(s, hi, ex, a, global, n + 1);
    if n < di {
        lemma_among_duts(s, hi, ex, a, global, n + 1, di, c);
        let k = choose|k: int| 0 <= k < rest.len() && rest[k] == c;
        assert(cs[cs.len() - rest.len() + k] == c);
    } else {
        let here = all_board_changes(s, board_path(hi, di as nat), ex[di], a[di], global);
        let k = choose|k: int| 0 <= k < here.len() && here[k] == c;
        assert(cs[k] == c);
    }
}

proof fn lemma_among_hosts(
    s: Seq<char>,
    ex: Seq<HostView>,
    a: Seq<HostAnswersView>,
    global: Pairs,
    n: int,
    hi: int,
    c: ChangeView,
)
    requires
        0 <= n <= hi < ex.len(),
        hi < a.len(),
        dut_list_changes(s, hi as nat, ex[hi].duts, a[hi].duts, global, 0).contains(c),
    ensures
        host_list_changes(s, ex, a, global, n).contains(c),
    decreases hi - n,
{
    reveal_with_fuel(host_list_changes, 1);
    let cs = host_list_changes(s, ex, a, global, n);
    let rest = host_list_changes(s, ex, a, global, n + 1);
    if n < hi {
        lemma_among_hosts(s, ex, a, global, n + 1, hi, c);
        let k = choose|k: int| 0 <= k < rest.len() && rest[k] == c;
        assert(cs[cs.len() - rest.len() + k] == c);
    } else {
        let texts = host_text_changes(s, hi as nat, ex[hi], a[hi]);
        let here = dut_list_changes(s, hi as nat, ex[hi].duts, a[hi].duts, global, 0);
        let k = choose|k: int| 0 <= k < here.len() && here[k] == c;
        assert(cs[texts.len() + k] == c);
    }
}

/// A board for which there are answers stands in the document, and its keys can
/// be read back.
proof fn lemma_board_readable(
    s: Seq<char>,
    ex: ConfigView,
    a: WizardAnswersView,
    hi: nat,
    di: nat,
)
    requires
        readable_update(s, ex, a),
        hi < ex.dev_hosts.len(),
        hi < a.hosts.len(),
        di < ex.dev_hosts[hi as int].duts.len(),
        di < a.hosts[hi as int].duts.len(),
    ensures
        board_there(s, board_path(hi, di), ex.dev_hosts[hi as int].duts[di as int]),
        keys_ask(a.hosts[hi as int].duts[di as int]),
{
    assert(readable_host(s, hi, ex.dev_hosts, a.hosts[hi as int], current_of(ex)));
    reveal(readable_boards);
    let x = a.hosts[hi as int].duts[di as int];
    assert(board_there(s, board_path(hi, di), ex.dev_hosts[hi as int].duts[di as int]));
}

/// What a document says of a key at a path, by what it says below it.
proof fn lemma_key_below(j: JsonView, path: Seq<SegView>, key: Seq<char>)
    ensures
        json_at(j, key_spot_at(path, key)) == (match json_at(j, path) {
            Some(x) => under_key(x, key),
            None => None,
        }),
{
    let q = key_spot_at(path, key);
    assert(q.take(path.len() as int) =~= path);
    lemma_json_through(j, path, q);
    assert(q.skip(path.len() as int) =~= key_spot_at(Seq::empty(), key));
}

/// After an update every answer to an advanced key of a board is in force for
/// that board: what the new document says for the board under the key, or at
/// the top level where the board has no value of its own, is the answer. Left
/// out are answers that mean that the value is inherited, and keys that the same
/// update sets at the top level too.
pub proof fn lemma_answers_are_in_force(
    s: Seq<char>,
    ex: ConfigView,
    a: WizardAnswersView,
    hi: nat,
    di: nat,
    i: int,
)
    requires
        config_text(s) == Some(ex),
        downloads_tidy(ex),
        readable_update(s, ex, a),
        update_plan(s, ex, a).1 is None,
        edited_from(s, edits_of(update_plan(s, ex, a).0), 0) is Ok,
        all_have_lines(s, edits_of(update_plan(s, ex, a).0), update_changes(s, ex, a), 0),
        hi < ex.dev_hosts.len(),
        hi < a.hosts.len(),
        di < ex.dev_hosts[hi as int].duts.len(),
        di < a.hosts[hi as int].duts.len(),
        0 <= i < a.hosts[hi as int].duts[di as int].advanced.len(),
        literal_of(
            a.hosts[hi as int].duts[di as int].advanced[i].0,
            a.hosts[hi as int].duts[di as int].advanced[i].1,
        ) matches Ok(Some(_)),
        forall|l: int|
            0 <= l < a.advanced.len() ==> (#[trigger] a.advanced[l]).0
                != a.hosts[hi as int].duts[di as int].advanced[i].0,
    ensures
        ({
            let (key, value) = a.hosts[hi as int].duts[di as int].advanced[i];
            let t = edited_from(s, edits_of(update_plan(s, ex, a).0), 0)->Ok_0;
            config_text(t) matches Some(c) && hi < c.dev_hosts.len() && di
                < c.dev_hosts[hi as int].duts.len() && (in_force(c, hi, di, key) matches Some(x)
                && says_answer(key, x, value))
        }),
{
    let e = ex.dev_hosts[hi as int].duts[di as int];
    let x = a.hosts[hi as int].duts[di as int];
    let (key, value) = x.advanced[i];
    let global = current_of(ex);
    let p = board_path(hi, di);
    let q = key_spot_at(p, key);
    let ops = edits_of(update_plan(s, ex, a).0);
    let t = edited_from(s, ops, 0)->Ok_0;
    let j = document(s)->0;
    lemma_answers_are_read(s, ex, a);
    let k = document(t)->0;
    lemma_edits_stay_valid(s, ops, 0);
    let c = config_text(t)->0;
    lemma_board_readable(s, ex, a, hi, di);
    assert(dut_owned(x.advanced[i].0));
    let cs = update_changes(s, ex, a);
    let mine = all_board_changes(s, p, e, x, global);
    assert forall|d: ChangeView| #[trigger] mine.contains(d) implies says_change(k, d) by {
        lemma_board_among(s, ex, a, hi, di, d);
        let n = choose|n: int| 0 <= n < cs.len() && cs[n] == d;
        assert(says_change(k, cs[n]));
    }
    lemma_board_says_answer(s, p, e, x, global, i, k);
    let action = action_at(s, p, e, x, global, i);
    reveal(action_at);
    lemma_key_below(j, p, key);
    lemma_key_below(k, p, key);
    let literal = literal_of(key, value)->Ok_0->0;
    if action is Write || action is Missing {
        lemma_literal_says_answer(key, value, literal);
        assert(json_at(k, q) == Some(spelled(literal)));
        lemma_board_is_read(k, c, hi, di);
        lemma_board_says_key(json_at(k, p)->0, c.dev_hosts[hi as int].duts[di as int], key);
    } else {
        assert(action is Nothing);
        lemma_update_passes_board(s, ex, a, hi, di, i);
        lemma_board_steps(hi, di, key);
        lemma_all_spared(j, cs, 0, q, p);
        lemma_board_is_read(k, c, hi, di);
        lemma_board_says_key(json_at(k, p)->0, c.dev_hosts[hi as int].duts[di as int], key);
        lemma_board_says_key(json_at(j, p)->0, e, key);
        lemma_update_passes_top(s, ex, a, key);
        lemma_top_steps(key);
        lemma_all_spared(j, cs, 0, key_spot_at(top(), key), top());
        lemma_top_says_key(j, ex, key);
        lemma_top_says_key(k, c, key);
    }
}

} // verus!

//! What an updated configuration says of the name, the port, the user and the
//! relay of a board.
use crate::advanced::{literal_of, scalar_of};
use crate::answers::{DutAnswersView, HostAnswersView, WizardAnswersView};
use crate::board::{
    board_changes, edits_of, member_change, name_changes, port_changes, user_changes,
};
use crate::board_fields::{
    all_board_changes, early_missing, group_changes, lemma_relay_sets_apart, lemma_spelled,
    relay_changes_of, relay_sets, relay_unsets, section_change, set_changes, set_members, spelled,
    unset_changes,
};
use crate::changes::ChangeView;
use crate::config::{config_text, ConfigView, DutView, HostView};
use crate::created::{leaves_out, lemma_member_step, spells};
use crate::current::current_of;
use crate::edit::edited_from;
use crate::in_force::{board_path, lemma_board_among};
use crate::jsonc::{document, JsonView};
use crate::kept::{lemma_unsigned_decimal, scalar_json};
use crate::locate::{close_at, SegView};
use crate::number::{decimal, lemma_decimal_round_trip};
use crate::pieces::lemma_reads_decimal;
use crate::place::{json_at, tidy};
use crate::render::{nat16, nat64, nat8};
use crate::spared::lemma_member_is_one;
use crate::text::{or_empty, trimmed};
use crate::text_map::Pairs;
use crate::tidy::downloads_tidy;
use crate::together::{all_have_lines, lemma_some_member, says_change};
use crate::update_config::{host_path, update_plan};
use crate::update_dut::{
    port_now, relay_action, relay_changes, relay_diff, user_now, RelayAction, RelayChangeView,
    SetView,
};
use crate::updated::{
    host_list_changes, host_text_change, host_text_changes, lemma_answers_are_read,
    readable_update, text_change, update_changes,
};
use vstd::prelude::*;

verus! {

/// Whether an update succeeds and can be read back.
pub open spec fn updates(s: Seq<char>, ex: ConfigView, a: WizardAnswersView) -> bool {
    &&& config_text(s) == Some(ex)
    &&& downloads_tidy(ex)
    &&& readable_update(s, ex, a)
    &&& update_plan(s, ex, a).1 is None
    &&& edited_from(s, edits_of(update_plan(s, ex, a).0), 0) is Ok
    &&& all_have_lines(s, edits_of(update_plan(s, ex, a).0), update_changes(s, ex, a), 0)
}

/// What the updated document says at a path.
pub open spec fn updated_at(
    s: Seq<char>,
    ex: ConfigView,
    a: WizardAnswersView,
    path: Seq<SegView>,
) -> Option<JsonView> {
    match edited_from(s, edits_of(update_plan(s, ex, a).0), 0) {
        Ok(t) => match document(t) {
            Some(j) => json_at(j, path),
            None => None,
        },
        Err(_) => None,
    }
}

/// Whether there is a board `di` of a host `hi` and there are answers for it.
pub open spec fn updates_board(ex: ConfigView, a: WizardAnswersView, hi: nat, di: nat) -> bool {
    &&& hi < ex.dev_hosts.len()
    &&& hi < a.hosts.len()
    &&& di < ex.dev_hosts[hi as int].duts.len()
    &&& di < a.hosts[hi as int].duts.len()
}

proof fn lemma_board_change_is_said(
    s: Seq<char>,
    ex: ConfigView,
    a: WizardAnswersView,
    hi: nat,
    di: nat,
    c: ChangeView,
)
    requires
        updates(s, ex, a),
        updates_board(ex, a, hi, di),
        all_board_changes(
            s,
            board_path(hi, di),
            ex.dev_hosts[hi as int].duts[di as int],
            a.hosts[hi as int].duts[di as int],
            current_of(ex),
        ).contains(c),
    ensures
        ({
            let t = edited_from(s, edits_of(update_plan(s, ex, a).0), 0)->Ok_0;
            document(t) is Some && says_change(document(t)->0, c)
        }),
{
    lemma_answers_are_read(s, ex, a);
    lemma_board_among(s, ex, a, hi, di, c);
    let cs = update_changes(s, ex, a);
    let n = choose|n: int| 0 <= n < cs.len() && cs[n] == c;
    assert(says_change(
        document(edited_from(s, edits_of(update_plan(s, ex, a).0), 0)->Ok_0)->0,
        cs[n],
    ));
}

proof fn lemma_first_changes(
    s: Seq<char>,
    path: Seq<SegView>,
    ex: DutView,
    a: DutAnswersView,
    global: crate::text_map::Pairs,
    c: ChangeView,
)
    requires
        name_changes(s, path, ex, a).contains(c) || port_changes(s, path, ex, a).contains(c)
            || user_changes(s, path, ex, a).contains(c),
    ensures
        all_board_changes(s, path, ex, a, global).contains(c),
{
    let x = name_changes(s, path, ex, a);
    let y = port_changes(s, path, ex, a);
    let z = user_changes(s, path, ex, a);
    let all = all_board_changes(s, path, ex, a, global);
    if x.contains(c) {
        let n = choose|n: int| 0 <= n < x.len() && x[n] == c;
        assert(all[n] == c);
    } else if y.contains(c) {
        let n = choose|n: int| 0 <= n < y.len() && y[n] == c;
        assert(all[x.len() + n] == c);
    } else {
        let n = choose|n: int| 0 <= n < z.len() && z[n] == c;
        assert(all[x.len() + y.len() + n] == c);
    }
}

/// A member that a document is to say is said.
pub proof fn lemma_member_is_said(s: Seq<char>, container: Seq<SegView>, key: Seq<char>, w: JsonView, k: JsonView)
    requires
        says_change(k, member_change(s, container, key, w)),
    ensures
        json_at(k, container.push(SegView::Key(key))) == Some(w),
{
    let c = member_change(s, container, key, w);
    if c is Members {
        assert(c->Members_added[0] == (key, w));
    }
}

/// An update writes the answered name, port and user of a board, where they
/// differ from what is there; port and user where the board has their sections.
pub proof fn lemma_board_answers_are_written(
    s: Seq<char>,
    ex: ConfigView,
    a: WizardAnswersView,
    hi: nat,
    di: nat,
    n: nat,
)
    requires
        updates(s, ex, a),
        updates_board(ex, a, hi, di),
    ensures
        ({
            let e = ex.dev_hosts[hi as int].duts[di as int];
            let q = a.hosts[hi as int].duts[di as int];
            let board = board_path(hi, di);
            let serial = board.push(SegView::Key("serial"@));
            let target = board.push(SegView::Key("target"@));
            &&& e.dut_name != q.dut_name ==> updated_at(
                s,
                ex,
                a,
                board.push(SegView::Key("dut_name"@)),
            ) == Some(JsonView::Text(q.dut_name))
            &&& close_at(s, serial) is Some && spells(q.serial_port, n) && n <= u64::MAX
                && port_now(e) != Some(q.serial_port) ==> updated_at(
                s,
                ex,
                a,
                serial.push(SegView::Key("port"@)),
            ) == Some(JsonView::Number(decimal(n)))
            &&& close_at(s, target) is Some && e.target is Some && e.target->0.login_user is Some
                && e.target->0.login_user != Some(q.login_user) ==> updated_at(
                s,
                ex,
                a,
                target.push(SegView::Key("login_user"@)),
            ) == Some(JsonView::Text(q.login_user))
        }),
{
    let e = ex.dev_hosts[hi as int].duts[di as int];
    let q = a.hosts[hi as int].duts[di as int];
    let board = board_path(hi, di);
    let serial = board.push(SegView::Key("serial"@));
    let target = board.push(SegView::Key("target"@));
    let global = current_of(ex);
    let k = document(edited_from(s, edits_of(update_plan(s, ex, a).0), 0)->Ok_0)->0;
    if e.dut_name != q.dut_name {
        let w = JsonView::Text(q.dut_name);
        let c = member_change(s, board, "dut_name"@, w);
        assert(name_changes(s, board, e, q)[0] == c);
        lemma_first_changes(s, board, e, q, global, c);
        lemma_board_change_is_said(s, ex, a, hi, di, c);
        lemma_member_is_said(s, board, "dut_name"@, w, k);
    }
    if close_at(s, serial) is Some && spells(q.serial_port, n) && n <= u64::MAX
        && port_now(e) != Some(q.serial_port) {
        let w = scalar_json(scalar_of(q.serial_port));
        lemma_unsigned_decimal(n, u64::MAX as nat);
        let c = member_change(s, serial, "port"@, w);
        assert(port_changes(s, board, e, q)[0] == c);
        lemma_first_changes(s, board, e, q, global, c);
        lemma_board_change_is_said(s, ex, a, hi, di, c);
        lemma_member_is_said(s, serial, "port"@, w, k);
    }
    if close_at(s, target) is Some && user_now(e) is Some
        && user_now(e) != Some(q.login_user) {
        let w = JsonView::Text(q.login_user);
        let c = member_change(s, target, "login_user"@, w);
        assert(user_changes(s, board, e, q)[0] == c);
        lemma_first_changes(s, board, e, q, global, c);
        lemma_board_change_is_said(s, ex, a, hi, di, c);
        lemma_member_is_said(s, target, "login_user"@, w, k);
    }
}

// ── The relay ────────────────────────────────────────────────────────
/// The answer to a relay question, by the name of its value.
pub open spec fn relay_answer(q: DutAnswersView, key: Seq<char>) -> Seq<char> {
    if key == "port"@ {
        q.relay_port
    } else if key == "reset_ch"@ {
        q.relay_reset_ch
    } else if key == "download_ch"@ {
        q.relay_download_ch
    } else if key == "power_ch"@ {
        q.relay_power_ch
    } else if key == "reset_time_ms"@ {
        q.relay_reset_time_ms
    } else {
        q.relay_power_off_time_ms
    }
}

/// The value that a relay has, by its name.
pub open spec fn relay_now(d: DutView, key: Seq<char>) -> Option<nat> {
    match d.relay {
        None => None,
        Some(x) => if key == "port"@ {
            nat16(x.port)
        } else if key == "reset_ch"@ {
            nat8(x.reset_ch)
        } else if key == "download_ch"@ {
            nat8(x.download_ch)
        } else if key == "power_ch"@ {
            nat8(x.power_ch)
        } else if key == "reset_time_ms"@ {
            nat64(x.reset_time_ms)
        } else {
            nat64(x.power_off_time_ms)
        },
    }
}

/// The numbers of a relay.
pub open spec fn relay_names() -> Seq<Seq<char>> {
    seq![
        "port"@,
        "reset_ch"@,
        "download_ch"@,
        "power_ch"@,
        "reset_time_ms"@,
        "power_off_time_ms"@,
    ]
}

/// Whether all answers for the relay of a board are accepted.
#[verifier::opaque]
pub open spec fn relay_accepted(e: DutView, q: DutAnswersView) -> bool {
    relay_diff(relay_changes(e.relay, q), 0, Seq::empty(), Seq::empty()).2 is None
}

proof fn lemma_diff_keeps(
    c: Seq<RelayChangeView>,
    i: int,
    sets: Seq<SetView>,
    unsets: Seq<(Seq<char>, Seq<char>)>,
)
    ensures
        ({
            let (x, y, _) = relay_diff(c, i, sets, unsets);
            &&& sets.len() <= x.len()
            &&& forall|k: int| 0 <= k < sets.len() ==> x[k] == sets[k]
            &&& unsets.len() <= y.len()
            &&& forall|k: int| 0 <= k < unsets.len() ==> y[k] == unsets[k]
        }),
    decreases c.len() - i,
{
    if 0 <= i < c.len() {
        match relay_action(c[i]) {
            RelayAction::Nothing => lemma_diff_keeps(c, i + 1, sets, unsets),
            RelayAction::Write(x) => lemma_diff_keeps(c, i + 1, sets.push(x), unsets),
            RelayAction::Remove(k, d) => lemma_diff_keeps(c, i + 1, sets, unsets.push((k, d))),
            RelayAction::Fail(_) => {},
        }
    }
}

proof fn lemma_diff_has(
    c: Seq<RelayChangeView>,
    i: int,
    sets: Seq<SetView>,
    unsets: Seq<(Seq<char>, Seq<char>)>,
    n: int,
)
    requires
        0 <= i <= n < c.len(),
        relay_diff(c, i, sets, unsets).2 is None,
    ensures
        relay_action(c[n]) matches RelayAction::Write(x) ==> relay_diff(
            c,
            i,
            sets,
            unsets,
        ).0.contains(x),
        relay_action(c[n]) matches RelayAction::Remove(k, d) ==> relay_diff(
            c,
            i,
            sets,
            unsets,
        ).1.contains((k, d)),
    decreases n - i,
{
    match relay_action(c[i]) {
        RelayAction::Nothing => {
            if i < n {
                lemma_diff_has(c, i + 1, sets, unsets, n);
            }
        },
        RelayAction::Write(x) => {
            if i < n {
                lemma_diff_has(c, i + 1, sets.push(x), unsets, n);
            } else {
                lemma_diff_keeps(c, i + 1, sets.push(x), unsets);
                assert(relay_diff(c, i, sets, unsets).0[sets.len() as int] == x);
            }
        },
        RelayAction::Remove(k, d) => {
            if i < n {
                lemma_diff_has(c, i + 1, sets, unsets.push((k, d)), n);
            } else {
                lemma_diff_keeps(c, i + 1, sets, unsets.push((k, d)));
                assert(relay_diff(c, i, sets, unsets).1[unsets.len() as int] == (k, d));
            }
        },
        RelayAction::Fail(_) => {},
    }
}

proof fn lemma_relay_keys_apart(key: Seq<char>)
    requires
        relay_names().contains(key),
    ensures
        key != "type"@,
        !crate::advanced::is_text_key("relay."@ + key),
        "relay."@ + key != "serial.baudrate"@,
        "relay."@ + key != "serial.rfc2217"@,
        "relay."@ + key != "uboot.interrupt_strategy"@,
        "relay."@ + key != "uboot.pattern"@,
        "relay."@ + key != "uboot.interrupt_char"@,
        "relay.port"@.len() == 10,
        "relay.reset_ch"@.len() == 14,
        "relay.download_ch"@.len() == 17,
        "relay.power_ch"@.len() == 14,
        "relay.reset_time_ms"@.len() == 19,
        "relay.power_off_time_ms"@.len() == 23,
{
    lemma_relay_name_parts();
    reveal_strlit("relay.");
    reveal_strlit("relay.port");
    reveal_strlit("relay.reset_ch");
    reveal_strlit("relay.download_ch");
    reveal_strlit("relay.power_ch");
    reveal_strlit("relay.reset_time_ms");
    reveal_strlit("relay.power_off_time_ms");
    reveal_strlit("serial.baudrate");
    reveal_strlit("serial.rfc2217");
    reveal_strlit("target.login_pass");
    reveal_strlit("target.login_prompt");
    reveal_strlit("monitor.reference_log");
    reveal_strlit("flash.full_image_cmd");
    reveal_strlit("flash.kernel_image_cmd");
    reveal_strlit("flash.loader_bin");
    reveal_strlit("control.dev_ctrl");
    reveal_strlit("loader");
    reveal_strlit("lock_dir");
    reveal_strlit("uboot.interrupt_strategy");
    reveal_strlit("uboot.pattern");
    reveal_strlit("uboot.interrupt_char");
    let full = "relay."@ + key;
    assert(full[0] == 'r');
    assert("serial.baudrate"@[0] == 's');
    assert("serial.rfc2217"@[0] == 's');
    assert("target.login_pass"@[0] == 't');
    assert("target.login_prompt"@[0] == 't');
    assert("monitor.reference_log"@[0] == 'm');
    assert("flash.full_image_cmd"@[0] == 'f');
    assert("flash.kernel_image_cmd"@[0] == 'f');
    assert("flash.loader_bin"@[0] == 'f');
    assert("control.dev_ctrl"@[0] == 'c');
    assert("loader"@[0] == 'l');
    assert("lock_dir"@[0] == 'l');
    assert("uboot.interrupt_strategy"@[0] == 'u');
    assert("uboot.pattern"@[0] == 'u');
    assert("uboot.interrupt_char"@[0] == 'u');
    let i = choose|i: int| 0 <= i < relay_names().len() && relay_names()[i] == key;
    assert(relay_names()[i] == key);
}

proof fn lemma_relay_literals(key: Seq<char>, n: nat)
    requires
        relay_names().contains(key),
        0 < n <= u64::MAX,
    ensures
        key != "type"@,
        literal_of("relay."@ + key, decimal(n)) == Ok::<Option<Seq<char>>, Seq<char>>(
            Some(
                decimal(
                    if key == "power_off_time_ms"@ && n < 3000 {
                        3000
                    } else {
                        n
                    },
                ),
            ),
        ),
{
    lemma_relay_name_parts();
    lemma_relay_keys_apart(key);
    crate::unchanged::lemma_decimal_trimmed(n);
    lemma_decimal_round_trip(n);
    lemma_unsigned_decimal(n, u64::MAX as nat);
    let i = choose|i: int| 0 <= i < relay_names().len() && relay_names()[i] == key;
    assert(relay_names()[i] == key);
}

proof fn lemma_relay_nothing(key: Seq<char>, t: Seq<char>)
    requires
        relay_names().contains(key),
        t.len() == 0 || t == decimal(0),
    ensures
        key != "type"@,
        literal_of("relay."@ + key, t) == Ok::<Option<Seq<char>>, Seq<char>>(None),
{
    lemma_relay_name_parts();
    lemma_relay_keys_apart(key);
    crate::unchanged::lemma_decimal_trimmed(0);
    lemma_decimal_round_trip(0);
    lemma_unsigned_decimal(0, u64::MAX as nat);
    if t.len() == 0 {
        assert(trimmed(t) =~= t);
    }
    let i = choose|i: int| 0 <= i < relay_names().len() && relay_names()[i] == key;
    assert(relay_names()[i] == key);
}

proof fn lemma_relay_name_parts()
    ensures
        "relay."@ + "port"@ == "relay.port"@,
        "relay."@ + "reset_ch"@ == "relay.reset_ch"@,
        "relay."@ + "download_ch"@ == "relay.download_ch"@,
        "relay."@ + "power_ch"@ == "relay.power_ch"@,
        "relay."@ + "reset_time_ms"@ == "relay.reset_time_ms"@,
        "relay."@ + "power_off_time_ms"@ == "relay.power_off_time_ms"@,
        "port"@.len() == 4,
        "type"@.len() == 4,
        "port"@ != "type"@,
        "reset_ch"@.len() == 8,
        "download_ch"@.len() == 11,
        "power_ch"@.len() == 8,
        "reset_ch"@ != "power_ch"@,
        "reset_time_ms"@.len() == 13,
        "power_off_time_ms"@.len() == 17,
{
    reveal_strlit("relay.");
    reveal_strlit("port");
    reveal_strlit("type");
    reveal_strlit("reset_ch");
    reveal_strlit("download_ch");
    reveal_strlit("power_ch");
    reveal_strlit("reset_time_ms");
    reveal_strlit("power_off_time_ms");
    reveal_strlit("relay.port");
    reveal_strlit("relay.reset_ch");
    reveal_strlit("relay.download_ch");
    reveal_strlit("relay.power_ch");
    reveal_strlit("relay.reset_time_ms");
    reveal_strlit("relay.power_off_time_ms");
    assert("relay."@ + "port"@ =~= "relay.port"@);
    assert("relay."@ + "reset_ch"@ =~= "relay.reset_ch"@);
    assert("relay."@ + "download_ch"@ =~= "relay.download_ch"@);
    assert("relay."@ + "power_ch"@ =~= "relay.power_ch"@);
    assert("relay."@ + "reset_time_ms"@ =~= "relay.reset_time_ms"@);
    assert("relay."@ + "power_off_time_ms"@ =~= "relay.power_off_time_ms"@);
    assert("port"@[0] == 'p' && "type"@[0] == 't');
    assert("reset_ch"@[0] == 'r' && "power_ch"@[0] == 'p');
}

proof fn lemma_relay_change_at(e: DutView, q: DutAnswersView, key: Seq<char>) -> (i: int)
    requires
        relay_names().contains(key),
    ensures
        ({
            let c = relay_changes(e.relay, q);
            &&& 0 <= i < c.len()
            &&& c[i].key == key
            &&& c[i].answer == relay_answer(q, key)
            &&& c[i].existing == (match relay_now(e, key) {
                Some(n) => Some(decimal(n)),
                None => None,
            })
            &&& c[i].default == (if key == "power_off_time_ms"@ {
                "3000"@
            } else {
                "0"@
            })
        }),
{
    lemma_relay_name_parts();
    let k = choose|k: int| 0 <= k < relay_names().len() && relay_names()[k] == key;
    assert(relay_names()[k] == key);
    k + 1
}

proof fn lemma_set_among(s: Seq<char>, container: Seq<SegView>, sets: Seq<SetView>, i: int, n: int)
    requires
        0 <= i <= n < sets.len(),
    ensures
        set_changes(s, container, sets, i).contains(
            member_change(s, container, sets[n].key, spelled(sets[n].literal)),
        ),
    decreases n - i,
{
    reveal_with_fuel(set_changes, 1);
    let cs = set_changes(s, container, sets, i);
    let c = member_change(s, container, sets[n].key, spelled(sets[n].literal));
    if i == n {
        assert(cs[0] == c);
    } else {
        lemma_set_among(s, container, sets, i + 1, n);
        let rest = set_changes(s, container, sets, i + 1);
        let k = choose|k: int| 0 <= k < rest.len() && rest[k] == c;
        assert(cs[k + 1] == c);
    }
}

proof fn lemma_relay_among(
    s: Seq<char>,
    path: Seq<SegView>,
    ex: DutView,
    a: DutAnswersView,
    global: crate::text_map::Pairs,
    c: ChangeView,
)
    requires
        relay_changes_of(s, path, ex, a).contains(c),
    ensures
        all_board_changes(s, path, ex, a, global).contains(c),
{
    let r = relay_changes_of(s, path, ex, a);
    let front = board_changes(s, path, ex, a) + group_changes(
        path,
        early_missing(s, path, ex, a, global),
        0,
    );
    let n = choose|n: int| 0 <= n < r.len() && r[n] == c;
    assert(all_board_changes(s, path, ex, a, global)[front.len() + n] == c);
}

/// Whether a number that answers a relay question is to be written: it differs
/// from what is there, and is not the time that counts without a word.
#[verifier::opaque]
pub open spec fn relay_differs(e: DutView, q: DutAnswersView, key: Seq<char>, n: nat) -> bool {
    &&& relay_now(e, key) != Some(n)
    &&& key == "power_off_time_ms"@ && n == 3000 ==> relay_now(e, key) is Some
    &&& relay_now(e, key) is Some ==> decimal(relay_now(e, key)->0) != relay_answer(q, key)
}

proof fn lemma_answer_is_set(e: DutView, q: DutAnswersView, key: Seq<char>, n: nat) -> (l: int)
    requires
        relay_accepted(e, q),
        relay_names().contains(key),
        0 < n <= u64::MAX,
        spells(relay_answer(q, key), n),
        relay_differs(e, q, key, n),
    ensures
        0 <= l < relay_sets(e, q).len(),
        relay_sets(e, q)[l].key == key,
        relay_sets(e, q)[l].literal == decimal(
            if key == "power_off_time_ms"@ && n < 3000 {
                3000
            } else {
                n
            },
        ),
{
    reveal(relay_accepted);
    reveal(relay_differs);
    let cs = relay_changes(e.relay, q);
    let i = lemma_relay_change_at(e, q, key);
    lemma_relay_literals(key, n);
    lemma_defaults(n);
    if let Some(old_n) = relay_now(e, key) {
        if decimal(old_n) == decimal(n) {
            crate::number::lemma_decimal_injective(old_n, n);
        }
    }
    let c = cs[i];
    assert(trimmed(c.answer) == decimal(n));
    assert(relay_action(c) is Write);
    let x = relay_action(c)->Write_0;
    lemma_diff_has(cs, 0, Seq::empty(), Seq::empty(), i);
    let sets = relay_sets(e, q);
    assert(sets.contains(x));
    choose|l: int| 0 <= l < sets.len() && sets[l] == x
}

proof fn lemma_relay_set_is_said(
    s: Seq<char>,
    board: Seq<SegView>,
    e: DutView,
    q: DutAnswersView,
    l: int,
    k: JsonView,
)
    requires
        q.relay_gate,
        0 <= l < relay_sets(e, q).len(),
        forall|c: ChangeView| #[trigger]
            relay_changes_of(s, board, e, q).contains(c) ==> says_change(k, c),
    ensures
        json_at(
            k,
            board.push(SegView::Key("relay"@)).push(SegView::Key(relay_sets(e, q)[l].key)),
        ) == Some(spelled(relay_sets(e, q)[l].literal)),
{
    let sets = relay_sets(e, q);
    let key = sets[l].key;
    let w = spelled(sets[l].literal);
    let relay = board.push(SegView::Key("relay"@));
    let all = relay_changes_of(s, board, e, q);
    reveal(relay_changes_of);
    if close_at(s, relay) is Some {
        let c = member_change(s, relay, key, w);
        lemma_set_among(s, relay, sets, 0, l);
        let here = set_changes(s, relay, sets, 0);
        let gone = unset_changes(relay, relay_unsets(e, q), 0);
        let o = choose|o: int| 0 <= o < here.len() && here[o] == c;
        assert(all == gone + here);
        assert(all[gone.len() + o] == c);
        assert(all.contains(c));
        lemma_member_is_said(s, relay, key, w, k);
    } else {
        let c = section_change(board, "relay"@, sets);
        assert(all[0] == c);
        assert(all.contains(c));
        assert(says_change(k, c));
        let members = set_members(sets);
        assert(c->Members_added[0] == ("relay"@, JsonView::Object(members)));
        assert(json_at(k, relay) == Some(JsonView::Object(members)));
        lemma_member_step(k, relay, members, key);
        assert(members[l].0 == key);
        lemma_some_member(members, key, 0, l);
        let o = lemma_member_is_one(members, key, 0);
        lemma_relay_sets_apart(e, q);
        assert(sets[o].key == sets[l].key);
        if o < l {
            assert(sets[o].key != sets[l].key);
        }
        if l < o {
            assert(sets[l].key != sets[o].key);
        }
    }
}

/// An update writes the number that answers a relay question of a board under
/// the name of that question, in the relay section of that board, where it
/// differs from what is there; a time without power is three seconds at least,
/// and three seconds are not written where nothing is there.
#[verifier::rlimit(20)]
#[verifier::spinoff_prover]
pub proof fn lemma_relay_answers_are_written(
    s: Seq<char>,
    ex: ConfigView,
    a: WizardAnswersView,
    hi: nat,
    di: nat,
    key: Seq<char>,
    n: nat,
)
    requires
        updates(s, ex, a),
        updates_board(ex, a, hi, di),
        a.hosts[hi as int].duts[di as int].relay_gate,
        relay_accepted(ex.dev_hosts[hi as int].duts[di as int], a.hosts[hi as int].duts[di as int]),
        relay_names().contains(key),
        0 < n <= u64::MAX,
        spells(relay_answer(a.hosts[hi as int].duts[di as int], key), n),
        relay_differs(
            ex.dev_hosts[hi as int].duts[di as int],
            a.hosts[hi as int].duts[di as int],
            key,
            n,
        ),
    ensures
        updated_at(
            s,
            ex,
            a,
            board_path(hi, di).push(SegView::Key("relay"@)).push(SegView::Key(key)),
        ) == Some(
            JsonView::Number(
                decimal(
                    if key == "power_off_time_ms"@ && n < 3000 {
                        3000
                    } else {
                        n
                    },
                ),
            ),
        ),
{
    let e = ex.dev_hosts[hi as int].duts[di as int];
    let q = a.hosts[hi as int].duts[di as int];
    let l = lemma_answer_is_set(e, q, key, n);
    lemma_number_is_spelled(
        if key == "power_off_time_ms"@ && n < 3000 {
            3000
        } else {
            n
        },
    );
    lemma_relay_is_updated(s, ex, a, hi, di, l);
}

proof fn lemma_number_is_spelled(m: nat)
    ensures
        spelled(decimal(m)) == JsonView::Number(decimal(m)),
{
    let w = JsonView::Number(decimal(m));
    lemma_reads_decimal(m);
    assert(tidy(w)) by {
        reveal_with_fuel(tidy, 1);
    }
    lemma_spelled(decimal(m), w);
}

proof fn lemma_relay_is_updated(
    s: Seq<char>,
    ex: ConfigView,
    a: WizardAnswersView,
    hi: nat,
    di: nat,
    l: int,
)
    requires
        updates(s, ex, a),
        updates_board(ex, a, hi, di),
        a.hosts[hi as int].duts[di as int].relay_gate,
        0 <= l < relay_sets(
            ex.dev_hosts[hi as int].duts[di as int],
            a.hosts[hi as int].duts[di as int],
        ).len(),
    ensures
        ({
            let x = relay_sets(
                ex.dev_hosts[hi as int].duts[di as int],
                a.hosts[hi as int].duts[di as int],
            )[l];
            updated_at(
                s,
                ex,
                a,
                board_path(hi, di).push(SegView::Key("relay"@)).push(SegView::Key(x.key)),
            ) == Some(spelled(x.literal))
        }),
{
    let e = ex.dev_hosts[hi as int].duts[di as int];
    let q = a.hosts[hi as int].duts[di as int];
    let board = board_path(hi, di);
    let k = document(edited_from(s, edits_of(update_plan(s, ex, a).0), 0)->Ok_0)->0;
    assert forall|c: ChangeView| #[trigger]
        relay_changes_of(s, board, e, q).contains(c) implies says_change(k, c) by {
        lemma_relay_among(s, board, e, q, current_of(ex), c);
        lemma_board_change_is_said(s, ex, a, hi, di, c);
    }
    lemma_answers_are_read(s, ex, a);
    lemma_relay_set_is_said(s, board, e, q, l, k);
}

proof fn lemma_unset_among(
    container: Seq<SegView>,
    unsets: Seq<(Seq<char>, Seq<char>)>,
    i: int,
    n: int,
)
    requires
        0 <= i <= n < unsets.len(),
    ensures
        unset_changes(container, unsets, i).contains(
            ChangeView::Gone { path: container, key: unsets[n].0 },
        ),
    decreases n - i,
{
    reveal_with_fuel(unset_changes, 1);
    let cs = unset_changes(container, unsets, i);
    let c = ChangeView::Gone { path: container, key: unsets[n].0 };
    if i == n {
        assert(cs[0] == c);
    } else {
        lemma_unset_among(container, unsets, i + 1, n);
        let rest = unset_changes(container, unsets, i + 1);
        let k = choose|k: int| 0 <= k < rest.len() && rest[k] == c;
        assert(cs[k + 1] == c);
    }
}

proof fn lemma_answer_is_unset(e: DutView, q: DutAnswersView, key: Seq<char>) -> (l: int)
    requires
        relay_accepted(e, q),
        relay_names().contains(key),
        leaves_out(relay_answer(q, key)),
        relay_now(e, key) is Some,
        relay_now(e, key)->0 > 0,
    ensures
        0 <= l < relay_unsets(e, q).len(),
        relay_unsets(e, q)[l].0 == key,
{
    reveal(relay_accepted);
    let cs = relay_changes(e.relay, q);
    let i = lemma_relay_change_at(e, q, key);
    let c = cs[i];
    let t = trimmed(c.answer);
    let m = relay_now(e, key)->0;
    lemma_relay_nothing(key, t);
    lemma_decimal_round_trip(m);
    crate::unchanged::lemma_decimal_trimmed(m);
    if decimal(m) == decimal(0) {
        crate::number::lemma_decimal_injective(m, 0);
    }
    assert(relay_action(c) is Remove);
    let x = (relay_action(c)->Remove_0, relay_action(c)->Remove_1);
    lemma_diff_has(cs, 0, Seq::empty(), Seq::empty(), i);
    let unsets = relay_unsets(e, q);
    assert(unsets.contains(x));
    choose|l: int| 0 <= l < unsets.len() && unsets[l] == x
}

/// An update takes a number out of the relay section of a board whose question
/// is answered by nothing or by zero.
pub proof fn lemma_relay_answers_are_taken_out(
    s: Seq<char>,
    ex: ConfigView,
    a: WizardAnswersView,
    hi: nat,
    di: nat,
    key: Seq<char>,
)
    requires
        updates(s, ex, a),
        updates_board(ex, a, hi, di),
        a.hosts[hi as int].duts[di as int].relay_gate,
        relay_accepted(ex.dev_hosts[hi as int].duts[di as int], a.hosts[hi as int].duts[di as int]),
        relay_names().contains(key),
        leaves_out(relay_answer(a.hosts[hi as int].duts[di as int], key)),
        relay_now(ex.dev_hosts[hi as int].duts[di as int], key) is Some,
        relay_now(ex.dev_hosts[hi as int].duts[di as int], key)->0 > 0,
        close_at(s, board_path(hi, di).push(SegView::Key("relay"@))) is Some,
    ensures
        updated_at(
            s,
            ex,
            a,
            board_path(hi, di).push(SegView::Key("relay"@)).push(SegView::Key(key)),
        ) is None,
{
    let e = ex.dev_hosts[hi as int].duts[di as int];
    let q = a.hosts[hi as int].duts[di as int];
    let l = lemma_answer_is_unset(e, q, key);
    lemma_relay_is_taken_out(s, ex, a, hi, di, l);
}

proof fn lemma_relay_is_taken_out(
    s: Seq<char>,
    ex: ConfigView,
    a: WizardAnswersView,
    hi: nat,
    di: nat,
    l: int,
)
    requires
        updates(s, ex, a),
        updates_board(ex, a, hi, di),
        a.hosts[hi as int].duts[di as int].relay_gate,
        close_at(s, board_path(hi, di).push(SegView::Key("relay"@))) is Some,
        0 <= l < relay_unsets(
            ex.dev_hosts[hi as int].duts[di as int],
            a.hosts[hi as int].duts[di as int],
        ).len(),
    ensures
        ({
            let x = relay_unsets(
                ex.dev_hosts[hi as int].duts[di as int],
                a.hosts[hi as int].duts[di as int],
            )[l];
            updated_at(
                s,
                ex,
                a,
                board_path(hi, di).push(SegView::Key("relay"@)).push(SegView::Key(x.0)),
            ) is None
        }),
{
    let e = ex.dev_hosts[hi as int].duts[di as int];
    let q = a.hosts[hi as int].duts[di as int];
    let board = board_path(hi, di);
    let relay = board.push(SegView::Key("relay"@));
    let unsets = relay_unsets(e, q);
    let c = ChangeView::Gone { path: relay, key: unsets[l].0 };
    reveal(relay_changes_of);
    lemma_unset_among(relay, unsets, 0, l);
    let gone = unset_changes(relay, unsets, 0);
    let all = relay_changes_of(s, board, e, q);
    let o = choose|o: int| 0 <= o < gone.len() && gone[o] == c;
    assert(all[o] == c);
    lemma_relay_among(s, board, e, q, current_of(ex), c);
    lemma_board_change_is_said(s, ex, a, hi, di, c);
}

// ── Hosts ────────────────────────────────────────────────────────────
proof fn lemma_host_text_among(
    s: Seq<char>,
    ex: Seq<HostView>,
    a: Seq<HostAnswersView>,
    global: Pairs,
    n: int,
    hi: int,
    c: ChangeView,
)
    requires
        0 <= n <= hi < ex.len(),
        hi < a.len(),
        host_text_changes(s, hi as nat, ex[hi], a[hi]).contains(c),
    ensures
        host_list_changes(s, ex, a, global, n).contains(c),
    decreases hi - n,
{
    reveal_with_fuel(host_list_changes, 1);
    let cs = host_list_changes(s, ex, a, global, n);
    let rest = host_list_changes(s, ex, a, global, n + 1);
    if n < hi {
        lemma_host_text_among(s, ex, a, global, n + 1, hi, c);
        let k = choose|k: int| 0 <= k < rest.len() && rest[k] == c;
        assert(cs[cs.len() - rest.len() + k] == c);
    } else {
        let here = host_text_changes(s, hi as nat, ex[hi], a[hi]);
        let k = choose|k: int| 0 <= k < here.len() && here[k] == c;
        assert(cs[k] == c);
    }
}

proof fn lemma_host_text_is_said(
    s: Seq<char>,
    ex: ConfigView,
    a: WizardAnswersView,
    hi: nat,
    key: Seq<char>,
    answer: Seq<char>,
)
    requires
        updates(s, ex, a),
        hi < ex.dev_hosts.len(),
        hi < a.hosts.len(),
        host_text_changes(s, hi, ex.dev_hosts[hi as int], a.hosts[hi as int]).contains(
            host_text_change(s, hi, key, answer),
        ),
    ensures
        updated_at(s, ex, a, host_path(hi).push(SegView::Key(key))) == Some(JsonView::Text(answer)),
{
    let c = host_text_change(s, hi, key, answer);
    let global = current_of(ex);
    assert(update_changes(s, ex, a).contains(c)) by {
        lemma_host_text_among(s, ex.dev_hosts, a.hosts, global, 0, hi as int, c);
        let hosts = host_list_changes(s, ex.dev_hosts, a.hosts, global, 0);
        let k = choose|k: int| 0 <= k < hosts.len() && hosts[k] == c;
        assert(update_changes(s, ex, a)[k] == c);
    }
    lemma_change_is_said(s, ex, a, c);
    let j = document(edited_from(s, edits_of(update_plan(s, ex, a).0), 0)->Ok_0)->0;
    lemma_text_is_said(s, hi, key, answer, j);
}

/// An update makes each of its changes.
pub proof fn lemma_change_is_said(s: Seq<char>, ex: ConfigView, a: WizardAnswersView, c: ChangeView)
    requires
        updates(s, ex, a),
        update_changes(s, ex, a).contains(c),
    ensures
        ({
            let t = edited_from(s, edits_of(update_plan(s, ex, a).0), 0)->Ok_0;
            document(t) is Some && says_change(document(t)->0, c)
        }),
{
    lemma_answers_are_read(s, ex, a);
    let cs = update_changes(s, ex, a);
    let n = choose|n: int| 0 <= n < cs.len() && cs[n] == c;
    assert(says_change(
        document(edited_from(s, edits_of(update_plan(s, ex, a).0), 0)->Ok_0)->0,
        cs[n],
    ));
}

proof fn lemma_text_is_said(
    s: Seq<char>,
    hi: nat,
    key: Seq<char>,
    answer: Seq<char>,
    j: JsonView,
)
    requires
        says_change(j, host_text_change(s, hi, key, answer)),
    ensures
        json_at(j, host_path(hi).push(SegView::Key(key))) == Some(JsonView::Text(answer)),
{
    let added = seq![(key, JsonView::Text(answer))];
    assert(added[0] == (key, JsonView::Text(answer)));
}

/// An update writes the answered texts of a host under the names of their
/// questions, where they differ from what is there.
pub proof fn lemma_host_answers_are_written(
    s: Seq<char>,
    ex: ConfigView,
    a: WizardAnswersView,
    hi: nat,
)
    requires
        updates(s, ex, a),
        hi < ex.dev_hosts.len(),
        hi < a.hosts.len(),
    ensures
        ({
            let e = ex.dev_hosts[hi as int];
            let q = a.hosts[hi as int];
            let host = host_path(hi);
            &&& or_empty(e.ip) != q.ip ==> updated_at(s, ex, a, host.push(SegView::Key("ip"@)))
                == Some(JsonView::Text(q.ip))
            &&& or_empty(e.user) != q.user ==> updated_at(
                s,
                ex,
                a,
                host.push(SegView::Key("user"@)),
            ) == Some(JsonView::Text(q.user))
            &&& or_empty(e.pass) != q.pass ==> updated_at(
                s,
                ex,
                a,
                host.push(SegView::Key("pass"@)),
            ) == Some(JsonView::Text(q.pass))
            &&& or_empty(e.host_name) != q.host_name ==> updated_at(
                s,
                ex,
                a,
                host.push(SegView::Key("host_name"@)),
            ) == Some(JsonView::Text(q.host_name))
        }),
{
    let e = ex.dev_hosts[hi as int];
    let q = a.hosts[hi as int];
    let t1 = text_change(s, hi, "ip"@, e.ip, q.ip);
    let t2 = text_change(s, hi, "user"@, e.user, q.user);
    let t3 = text_change(s, hi, "pass"@, e.pass, q.pass);
    let all = host_text_changes(s, hi, e, q);
    if or_empty(e.ip) != q.ip {
        assert(all[0] == host_text_change(s, hi, "ip"@, q.ip));
        lemma_host_text_is_said(s, ex, a, hi, "ip"@, q.ip);
    }
    if or_empty(e.user) != q.user {
        assert(all[t1.len() as int] == host_text_change(s, hi, "user"@, q.user));
        lemma_host_text_is_said(s, ex, a, hi, "user"@, q.user);
    }
    if or_empty(e.pass) != q.pass {
        assert(all[(t1.len() + t2.len()) as int] == host_text_change(s, hi, "pass"@, q.pass));
        lemma_host_text_is_said(s, ex, a, hi, "pass"@, q.pass);
    }
    if or_empty(e.host_name) != q.host_name {
        assert(all[(t1.len() + t2.len() + t3.len()) as int] == host_text_change(
            s,
            hi,
            "host_name"@,
            q.host_name,
        ));
        lemma_host_text_is_said(s, ex, a, hi, "host_name"@, q.host_name);
    }
}

proof fn lemma_defaults(n: nat)
    requires
        n > 0,
    ensures
        decimal(n) != "0"@,
        n != 3000 ==> decimal(n) != "3000"@,
        decimal(n).len() > 0,
{
    reveal_strlit("0");
    reveal_strlit("3000");
    reveal_with_fuel(decimal, 5);
    assert(decimal(0) =~= "0"@);
    assert(decimal(3000) =~= "3000"@);
    if decimal(n) == "0"@ {
        crate::number::lemma_decimal_injective(n, 0);
    }
    if decimal(n) == "3000"@ {
        crate::number::lemma_decimal_injective(n, 3000);
    }
    lemma_decimal_round_trip(n);
}

} // verus!

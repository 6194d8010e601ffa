//! What a new configuration says of the answers that it was made from, by the
//! members of the document.
use crate::answers::{
    answers_config, dut_config, guarded_number, host_config, hosts_config, plain_dut, relay_of,
    DutAnswersView, WizardAnswersView,
};
use crate::config::{member, ConfigView, DutView, HostView};
use crate::finish::{created_text, lemma_created_reads};
use crate::headless::{lemma_board_at, lemma_host_at, lemma_keys_keep_port};
use crate::in_force::board_path;
use crate::jsonc::{document, JsonView};
use crate::kept::{
    config_slots, lemma_config_members, lemma_dut_members, lemma_host_members, lemma_relay_members,
    lemma_serial_members, lemma_target_members, lemma_unsigned_decimal,
};
use crate::locate::SegView;
use crate::merge::{
    lemma_answers_keep_hosts, lemma_dut_answers_keep_identity, merged_dut_from, merged_dut_key,
};
use crate::number::{decimal, lemma_decimal_round_trip, unsigned};
use crate::pieces::Members;
use crate::place::json_at;
use crate::slots::filled;
use crate::spared::lemma_json_through;
use crate::spelling::lemma_answers_are_sound;
use crate::text::trimmed;
use crate::text_map::Pairs;
use crate::update_config::{host_path, hosts_path};
use crate::updated::{dut_json, host_json};
use crate::written::lemma_written_reads;
use vstd::prelude::*;

verus! {

// ── Members of the document ──────────────────────────────────────────
/// What the document of a new configuration holds at a path.
pub open spec fn created_at(a: WizardAnswersView, path: Seq<SegView>) -> Option<JsonView> {
    match created_text(a) {
        Ok(t) => match document(t) {
            Some(j) => json_at(j, path),
            None => None,
        },
        Err(_) => None,
    }
}

/// Whether answers make a configuration and have a board `d` of a host `h`.
pub open spec fn makes_board(a: WizardAnswersView, h: nat, d: nat) -> bool {
    &&& answers_config(a) is Ok
    &&& h < a.hosts.len()
    &&& d < a.hosts[h as int].duts.len()
}

/// A member of an object stands at the path that goes on with its name.
pub proof fn lemma_member_step(j: JsonView, p: Seq<SegView>, m: Members, key: Seq<char>)
    requires
        json_at(j, p) == Some(JsonView::Object(m)),
    ensures
        json_at(j, p.push(SegView::Key(key))) == member(m, key),
{
    let q = p.push(SegView::Key(key));
    assert(q.take(p.len() as int) =~= p);
    lemma_json_through(j, p, q);
    let rest = q.skip(p.len() as int);
    assert(rest =~= seq![SegView::Key(key)]);
    assert(rest.drop_first() =~= Seq::<SegView>::empty());
    if let Some(x) = member(m, key) {
        assert(json_at(x, rest.drop_first()) == Some(x));
    }
}

proof fn lemma_item_step(j: JsonView, p: Seq<SegView>, v: Seq<JsonView>, n: nat)
    requires
        json_at(j, p) == Some(JsonView::Array(v)),
        n < v.len(),
    ensures
        json_at(j, p.push(SegView::Index(n))) == Some(v[n as int]),
{
    let q = p.push(SegView::Index(n));
    assert(q.take(p.len() as int) =~= p);
    lemma_json_through(j, p, q);
    let rest = q.skip(p.len() as int);
    assert(rest =~= seq![SegView::Index(n)]);
    assert(rest.drop_first() =~= Seq::<SegView>::empty());
    assert(json_at(v[n as int], rest.drop_first()) == Some(v[n as int]));
}

/// The host that the answers make stands in the document where they put it.
pub proof fn lemma_host_stands(a: WizardAnswersView, h: nat) -> (r: (JsonView, ConfigView))
    requires
        answers_config(a) is Ok,
        h < a.hosts.len(),
    ensures
        answers_config(a) == Ok::<ConfigView, Seq<char>>(r.1),
        created_text(a) is Ok,
        document(created_text(a)->Ok_0) == Some(r.0),
        r.0 == JsonView::Object(filled(config_slots(r.1))),
        h < r.1.dev_hosts.len(),
        host_config(a.hosts[h as int]) == Ok::<HostView, Seq<char>>(r.1.dev_hosts[h as int]),
        json_at(r.0, host_path(h)) == Some(host_json(r.1.dev_hosts[h as int])),
{
    let c = answers_config(a)->Ok_0;
    let j = JsonView::Object(filled(config_slots(c)));
    lemma_created_reads(a, c);
    lemma_answers_are_sound(a);
    lemma_written_reads(c, true);
    lemma_config_members(c);
    let hosts = hosts_config(a.hosts, 0, Seq::empty())->Ok_0;
    lemma_host_at(a.hosts, 0, Seq::empty(), h as int);
    lemma_answers_keep_hosts(
        ConfigView { dev_hosts: hosts, ..crate::config::no_config() },
        a.advanced,
        0,
    );
    let root = Seq::<SegView>::empty();
    assert(json_at(j, root) == Some(j));
    assert(root.push(SegView::Key("dev_hosts"@)) =~= hosts_path());
    lemma_member_step(j, root, filled(config_slots(c)), "dev_hosts"@);
    lemma_item_step(j, hosts_path(), crate::kept::hosts_json(c.dev_hosts), h);
    (j, c)
}

/// The board that the answers make stands in the document where they put it.
pub proof fn lemma_board_stands(a: WizardAnswersView, h: nat, d: nat) -> (r: (JsonView, DutView))
    requires
        makes_board(a, h, d),
    ensures
        created_text(a) is Ok,
        document(created_text(a)->Ok_0) == Some(r.0),
        dut_config(a.hosts[h as int].duts[d as int]) == Ok::<DutView, Seq<char>>(r.1),
        json_at(r.0, board_path(h, d)) == Some(dut_json(r.1)),
{
    let (j, c) = lemma_host_stands(a, h);
    let host = c.dev_hosts[h as int];
    let duts = a.hosts[h as int].duts;
    lemma_board_at(duts, 0, Seq::empty(), d as int);
    crate::spelling::lemma_answers_are_sound(a);
    lemma_host_members(host);
    lemma_member_step(j, host_path(h), filled(crate::kept::host_slots(host)), "duts"@);
    lemma_duts_count(duts, 0, Seq::empty());
    lemma_item_step(
        j,
        host_path(h).push(SegView::Key("duts"@)),
        crate::kept::duts_json(host.duts),
        d,
    );
    (j, host.duts[d as int])
}

proof fn lemma_duts_count(a: Seq<DutAnswersView>, i: int, before: Seq<DutView>)
    requires
        0 <= i <= a.len(),
        before.len() == i,
    ensures
        crate::answers::duts_config(a, i, before) matches Ok(v) ==> v.len() == a.len(),
    decreases a.len() - i,
{
    if i < a.len() {
        if let Ok(x) = dut_config(a[i]) {
            lemma_duts_count(a, i + 1, before.push(x));
        }
    }
}

// ── Relays ───────────────────────────────────────────────────────────
/// The path of a member of the relay section of a board.
pub open spec fn relay_path(h: nat, d: nat, key: Seq<char>) -> Seq<SegView> {
    board_path(h, d).push(SegView::Key("relay"@)).push(SegView::Key(key))
}

/// Whether an answer spells a number in decimal digits.
pub open spec fn spells(answer: Seq<char>, n: nat) -> bool {
    trimmed(answer) == decimal(n)
}

proof fn lemma_guarded_spells(key: Seq<char>, kind: Seq<char>, answer: Seq<char>, n: nat, max: nat)
    requires
        spells(answer, n),
        n <= max,
    ensures
        guarded_number(key, kind, answer, max) == Ok::<Option<nat>, Seq<char>>(
            if n == 0 {
                None
            } else {
                Some(n)
            },
        ),
{
    lemma_unsigned_decimal(n, max);
    lemma_decimal_round_trip(n);
}

proof fn lemma_relay_stands(a: WizardAnswersView, h: nat, d: nat)
    requires
        makes_board(a, h, d),
        a.hosts[h as int].duts[d as int].relay_gate,
    ensures
        relay_of(a.hosts[h as int].duts[d as int]) matches Ok(Some(x)) && forall|key: Seq<char>|
            created_at(a, #[trigger] relay_path(h, d, key)) == member(
                filled(crate::kept::relay_slots(x)),
                key,
            ),
{
    let (j, x) = lemma_board_stands(a, h, d);
    let da = a.hosts[h as int].duts[d as int];
    let relay = relay_of(da)->Ok_0;
    lemma_dut_answers_keep_identity(plain_dut(da, relay), da.advanced, 0);
    assert(x.relay == relay);
    lemma_dut_members(x);
    lemma_member_step(j, board_path(h, d), filled(crate::kept::dut_slots(x)), "relay"@);
    let m = filled(crate::kept::relay_slots(relay->0));
    assert forall|key: Seq<char>|
        created_at(a, #[trigger] relay_path(h, d, key)) == member(m, key) by {
        lemma_member_step(j, board_path(h, d).push(SegView::Key("relay"@)), m, key);
    }
}

/// A number that answers a relay question of a board stands in the new
/// configuration under the name of that question, in the relay section of that
/// board: no other question has a say in it. Zero stands nowhere, and a time
/// without power is three seconds at least.
pub proof fn lemma_relay_answers_stand(a: WizardAnswersView, h: nat, d: nat, n: nat)
    requires
        makes_board(a, h, d),
        a.hosts[h as int].duts[d as int].relay_gate,
        n > 0,
    ensures
        ({
            let q = a.hosts[h as int].duts[d as int];
            &&& spells(q.relay_port, n) && n <= 65535 ==> created_at(a, relay_path(h, d, "port"@))
                == Some(JsonView::Number(decimal(n)))
            &&& spells(q.relay_reset_ch, n) && n <= 255 ==> created_at(
                a,
                relay_path(h, d, "reset_ch"@),
            ) == Some(JsonView::Number(decimal(n)))
            &&& spells(q.relay_download_ch, n) && n <= 255 ==> created_at(
                a,
                relay_path(h, d, "download_ch"@),
            ) == Some(JsonView::Number(decimal(n)))
            &&& spells(q.relay_power_ch, n) && n <= 255 ==> created_at(
                a,
                relay_path(h, d, "power_ch"@),
            ) == Some(JsonView::Number(decimal(n)))
            &&& spells(q.relay_reset_time_ms, n) && n <= u64::MAX ==> created_at(
                a,
                relay_path(h, d, "reset_time_ms"@),
            ) == Some(JsonView::Number(decimal(n)))
            &&& spells(q.relay_power_off_time_ms, n) && n <= u64::MAX ==> created_at(
                a,
                relay_path(h, d, "power_off_time_ms"@),
            ) == Some(
                JsonView::Number(
                    decimal(
                        if n < 3000 {
                            3000
                        } else {
                            n
                        },
                    ),
                ),
            )
            &&& created_at(a, relay_path(h, d, "type"@)) == Some(JsonView::Text(q.relay_type))
        }),
{
    let q = a.hosts[h as int].duts[d as int];
    lemma_relay_stands(a, h, d);
    let x = relay_of(q)->Ok_0->0;
    lemma_relay_members(x);
    if spells(q.relay_port, n) && n <= 65535 {
        lemma_guarded_spells("relay.port"@, "port"@, q.relay_port, n, 65535);
    }
    if spells(q.relay_reset_ch, n) && n <= 255 {
        lemma_guarded_spells("relay.reset_ch"@, "channel"@, q.relay_reset_ch, n, 255);
    }
    if spells(q.relay_download_ch, n) && n <= 255 {
        lemma_guarded_spells("relay.download_ch"@, "channel"@, q.relay_download_ch, n, 255);
    }
    if spells(q.relay_power_ch, n) && n <= 255 {
        lemma_guarded_spells("relay.power_ch"@, "channel"@, q.relay_power_ch, n, 255);
    }
    if spells(q.relay_reset_time_ms, n) && n <= u64::MAX {
        lemma_guarded_spells(
            "relay.reset_time_ms"@,
            "ms"@,
            q.relay_reset_time_ms,
            n,
            u64::MAX as nat,
        );
    }
    if spells(q.relay_power_off_time_ms, n) && n <= u64::MAX {
        lemma_guarded_spells(
            "relay.power_off_time_ms"@,
            "ms"@,
            q.relay_power_off_time_ms,
            n,
            u64::MAX as nat,
        );
    }
}

/// Whether an answer to a relay question leaves its value out: it is blank or
/// spells zero.
pub open spec fn leaves_out(answer: Seq<char>) -> bool {
    trimmed(answer).len() == 0 || spells(answer, 0)
}

proof fn lemma_guarded_left_out(key: Seq<char>, kind: Seq<char>, answer: Seq<char>, max: nat)
    requires
        leaves_out(answer),
    ensures
        guarded_number(key, kind, answer, max) == Ok::<Option<nat>, Seq<char>>(None),
{
    if trimmed(answer).len() > 0 {
        lemma_guarded_spells(key, kind, answer, 0, max);
    }
}

/// A relay question of a board whose answer is blank or zero leaves no member of
/// its name in the new configuration, and a board for which no relay was wanted
/// has no relay section at all.
pub proof fn lemma_relay_answers_left_out(a: WizardAnswersView, h: nat, d: nat)
    requires
        makes_board(a, h, d),
    ensures
        ({
            let q = a.hosts[h as int].duts[d as int];
            if q.relay_gate {
                &&& leaves_out(q.relay_port) ==> created_at(a, relay_path(h, d, "port"@)) is None
                &&& leaves_out(q.relay_reset_ch) ==> created_at(
                    a,
                    relay_path(h, d, "reset_ch"@),
                ) is None
                &&& leaves_out(q.relay_download_ch) ==> created_at(
                    a,
                    relay_path(h, d, "download_ch"@),
                ) is None
                &&& leaves_out(q.relay_power_ch) ==> created_at(
                    a,
                    relay_path(h, d, "power_ch"@),
                ) is None
                &&& leaves_out(q.relay_reset_time_ms) ==> created_at(
                    a,
                    relay_path(h, d, "reset_time_ms"@),
                ) is None
                &&& leaves_out(q.relay_power_off_time_ms) ==> created_at(
                    a,
                    relay_path(h, d, "power_off_time_ms"@),
                ) is None
            } else {
                created_at(a, board_path(h, d).push(SegView::Key("relay"@))) is None
            }
        }),
{
    let q = a.hosts[h as int].duts[d as int];
    if q.relay_gate {
        lemma_relay_stands(a, h, d);
        lemma_relay_members(relay_of(q)->Ok_0->0);
        if leaves_out(q.relay_port) {
            lemma_guarded_left_out("relay.port"@, "port"@, q.relay_port, 65535);
        }
        if leaves_out(q.relay_reset_ch) {
            lemma_guarded_left_out("relay.reset_ch"@, "channel"@, q.relay_reset_ch, 255);
        }
        if leaves_out(q.relay_download_ch) {
            lemma_guarded_left_out("relay.download_ch"@, "channel"@, q.relay_download_ch, 255);
        }
        if leaves_out(q.relay_power_ch) {
            lemma_guarded_left_out("relay.power_ch"@, "channel"@, q.relay_power_ch, 255);
        }
        if leaves_out(q.relay_reset_time_ms) {
            lemma_guarded_left_out(
                "relay.reset_time_ms"@,
                "ms"@,
                q.relay_reset_time_ms,
                u64::MAX as nat,
            );
        }
        if leaves_out(q.relay_power_off_time_ms) {
            lemma_guarded_left_out(
                "relay.power_off_time_ms"@,
                "ms"@,
                q.relay_power_off_time_ms,
                u64::MAX as nat,
            );
        }
    } else {
        let (j, x) = lemma_board_stands(a, h, d);
        lemma_dut_answers_keep_identity(plain_dut(q, None), q.advanced, 0);
        lemma_dut_members(x);
        lemma_member_step(j, board_path(h, d), filled(crate::kept::dut_slots(x)), "relay"@);
    }
}

// ── Hosts and boards ─────────────────────────────────────────────────
/// What was answered of a host stands in the new configuration under the names
/// of the questions. A display name that is empty is left out.
pub proof fn lemma_host_answers_stand(a: WizardAnswersView, h: nat)
    requires
        answers_config(a) is Ok,
        h < a.hosts.len(),
    ensures
        ({
            let q = a.hosts[h as int];
            &&& created_at(a, host_path(h).push(SegView::Key("ip"@))) == Some(JsonView::Text(q.ip))
            &&& created_at(a, host_path(h).push(SegView::Key("user"@))) == Some(
                JsonView::Text(q.user),
            )
            &&& created_at(a, host_path(h).push(SegView::Key("pass"@))) == Some(
                JsonView::Text(q.pass),
            )
            &&& created_at(a, host_path(h).push(SegView::Key("host_name"@))) == (if q.host_name.len()
                == 0 {
                None
            } else {
                Some(JsonView::Text(q.host_name))
            })
        }),
{
    let (j, c) = lemma_host_stands(a, h);
    let x = c.dev_hosts[h as int];
    lemma_host_members(x);
    let m = filled(crate::kept::host_slots(x));
    lemma_member_step(j, host_path(h), m, "ip"@);
    lemma_member_step(j, host_path(h), m, "user"@);
    lemma_member_step(j, host_path(h), m, "pass"@);
    lemma_member_step(j, host_path(h), m, "host_name"@);
}

proof fn lemma_keys_keep_user(d: DutView, answers: Pairs, i: int)
    requires
        0 <= i,
        d.target is Some,
    ensures
        merged_dut_from(d, answers, i).0.target is Some,
        merged_dut_from(d, answers, i).0.target->0.login_user == d.target->0.login_user,
    decreases answers.len() - i,
{
    if i < answers.len() {
        lemma_keys_keep_user(merged_dut_key(d, answers[i].0, answers[i].1).0, answers, i + 1);
    }
}

/// What was answered of a board stands in the new configuration: its name, the
/// user to log in as, and its serial port, as a number where the answer spells
/// one and as text where it spells none.
pub proof fn lemma_board_answers_stand(a: WizardAnswersView, h: nat, d: nat, n: nat)
    requires
        makes_board(a, h, d),
    ensures
        ({
            let q = a.hosts[h as int].duts[d as int];
            let board = board_path(h, d);
            let port = board.push(SegView::Key("serial"@)).push(SegView::Key("port"@));
            &&& created_at(a, board.push(SegView::Key("dut_name"@))) == Some(
                JsonView::Text(q.dut_name),
            )
            &&& created_at(
                a,
                board.push(SegView::Key("target"@)).push(SegView::Key("login_user"@)),
            ) == Some(JsonView::Text(q.login_user))
            &&& spells(q.serial_port, n) && n <= u64::MAX ==> created_at(a, port) == Some(
                JsonView::Number(decimal(n)),
            )
            &&& unsigned(trimmed(q.serial_port), u64::MAX as nat) is None
                && crate::number::real_value(trimmed(q.serial_port)) is None ==> created_at(a, port)
                == Some(JsonView::Text(trimmed(q.serial_port)))
        }),
{
    let q = a.hosts[h as int].duts[d as int];
    let board = board_path(h, d);
    let (j, x) = lemma_board_stands(a, h, d);
    let start = plain_dut(q, relay_of(q)->Ok_0);
    lemma_dut_answers_keep_identity(start, q.advanced, 0);
    lemma_keys_keep_port(start, q.advanced, 0);
    lemma_keys_keep_user(start, q.advanced, 0);
    lemma_dut_members(x);
    let m = filled(crate::kept::dut_slots(x));
    lemma_member_step(j, board, m, "dut_name"@);
    lemma_member_step(j, board, m, "serial"@);
    lemma_member_step(j, board, m, "target"@);
    lemma_serial_members(x.serial->0);
    lemma_target_members(x.target->0);
    lemma_member_step(
        j,
        board.push(SegView::Key("serial"@)),
        filled(crate::kept::serial_slots(x.serial->0)),
        "port"@,
    );
    lemma_member_step(
        j,
        board.push(SegView::Key("target"@)),
        filled(crate::kept::target_slots(x.target->0)),
        "login_user"@,
    );
    if spells(q.serial_port, n) && n <= u64::MAX {
        lemma_unsigned_decimal(n, u64::MAX as nat);
    }
}

} // verus!

//! Which question each answer of a walk replies to.
use crate::ask::{asked_optional, asked_port, asked_required};
use crate::defaults::{default_answers, dut_or_unknown, host_or_unknown, text_or};
use crate::fields::{existing_value, materialized, InstanceView};
use crate::form::{dut_group_of, host_group_of, KeyView};
use crate::known_defaults::{board_as_known, host_as_known, lemma_defaults_are_known};
use crate::prompt::Talk;
use crate::schema::SchemaView;
use crate::text::or_empty;
use crate::walk::{walked_dut, walked_host, walked_number, WalkView};
use vstd::prelude::*;

verus! {

/// Whether an answer is a reply to the question of a form for a key, asked for a
/// number of the relay.
pub open spec fn replies_number(
    f: Seq<InstanceView>,
    key: KeyView,
    advanced_key: Seq<char>,
    answer: Seq<char>,
) -> bool {
    exists|k: Talk, i: int|
        0 <= i < f.len() && f[i].key == key && answer == (#[trigger] walked_number(
            k,
            f[i],
            advanced_key,
        )).0
}

/// Whether an answer is a reply to the question of a form for a key, asked for a
/// text that may be left out.
pub open spec fn replies_optional(f: Seq<InstanceView>, key: KeyView, answer: Seq<char>) -> bool {
    exists|k: Talk, i: int|
        0 <= i < f.len() && f[i].key == key && answer == (#[trigger] asked_optional(
            k,
            f[i].label,
            or_empty(f[i].default),
        )).0
}

/// Whether an answer is a reply to the question of a form for a key, asked for a
/// text that must be there.
pub open spec fn replies_required(f: Seq<InstanceView>, key: KeyView, answer: Seq<char>) -> bool {
    exists|k: Talk, i: int|
        0 <= i < f.len() && f[i].key == key && answer == (#[trigger] asked_required(
            k,
            f[i].label,
            or_empty(f[i].default),
        )).0
}

/// Whether an answer is a reply to the question of a form for a key, asked for a
/// serial port.
pub open spec fn replies_port(f: Seq<InstanceView>, key: KeyView, answer: Seq<char>) -> bool {
    exists|k: Talk, i: int|
        0 <= i < f.len() && f[i].key == key && answer == (#[trigger] asked_port(
            k,
            f[i].label,
            or_empty(f[i].default),
        )).0
}

/// Every answer of a walk about a board is the reply to the question of the form
/// for that very field, for that host and that board.
pub proof fn lemma_board_replies(w: WalkView, h: usize, d: usize)
    ensures
        ({
            let q = walked_dut(w, h, d).0;
            let f = materialized(w.form, dut_group_of(), h, d);
            &&& replies_port(f, KeyView::DutPort(h, d), q.serial_port)
            &&& replies_optional(f, KeyView::DutLoginUser(h, d), q.login_user)
            &&& q.relay_gate ==> {
                &&& replies_optional(f, KeyView::DutRelayType(h, d), q.relay_type)
                &&& replies_number(f, KeyView::DutRelayPort(h, d), "relay.port"@, q.relay_port)
                &&& replies_number(
                    f,
                    KeyView::DutRelayReset(h, d),
                    "relay.reset_ch"@,
                    q.relay_reset_ch,
                )
                &&& replies_number(
                    f,
                    KeyView::DutRelayDownload(h, d),
                    "relay.download_ch"@,
                    q.relay_download_ch,
                )
                &&& replies_number(
                    f,
                    KeyView::DutRelayPower(h, d),
                    "relay.power_ch"@,
                    q.relay_power_ch,
                )
                &&& replies_number(
                    f,
                    KeyView::DutRelayResetTimeMs(h, d),
                    "relay.reset_time_ms"@,
                    q.relay_reset_time_ms,
                )
                &&& replies_number(
                    f,
                    KeyView::DutRelayPowerOffTimeMs(h, d),
                    "relay.power_off_time_ms"@,
                    q.relay_power_off_time_ms,
                )
            }
            &&& !q.relay_gate ==> q.relay_type.len() == 0 && q.relay_port.len() == 0
                && q.relay_reset_ch.len() == 0 && q.relay_download_ch.len() == 0
                && q.relay_power_ch.len() == 0 && q.relay_reset_time_ms.len() == 0
                && q.relay_power_off_time_ms.len() == 0
        }),
{
    let f = materialized(w.form, dut_group_of(), h, d);
    let g = dut_group_of().fields;
    assert(f.len() == g.len() && g.len() == 11);
    assert(f[1].key == KeyView::DutPort(h, d));
    assert(f[2].key == KeyView::DutLoginUser(h, d));
    assert(f[4].key == KeyView::DutRelayType(h, d));
    assert(f[5].key == KeyView::DutRelayPort(h, d));
    assert(f[6].key == KeyView::DutRelayReset(h, d));
    assert(f[7].key == KeyView::DutRelayDownload(h, d));
    assert(f[8].key == KeyView::DutRelayPower(h, d));
    assert(f[9].key == KeyView::DutRelayResetTimeMs(h, d));
    assert(f[10].key == KeyView::DutRelayPowerOffTimeMs(h, d));
}

/// Every answer of a walk about a host is the reply to the question of the form
/// for that very field of that host.
pub proof fn lemma_host_replies(w: WalkView, h: usize)
    ensures
        ({
            let q = walked_host(w, h).0;
            let f = materialized(w.form, host_group_of(), h, 0);
            &&& replies_required(f, KeyView::HostIp(h), q.ip)
            &&& replies_optional(f, KeyView::HostUser(h), q.user)
            &&& replies_optional(f, KeyView::HostPass(h), q.pass)
            &&& replies_optional(f, KeyView::HostName(h), q.host_name)
        }),
{
    let f = materialized(w.form, host_group_of(), h, 0);
    let g = host_group_of().fields;
    assert(f.len() == g.len() && g.len() == 5);
    assert(f[0].key == KeyView::HostIp(h));
    assert(f[1].key == KeyView::HostUser(h));
    assert(f[2].key == KeyView::HostPass(h));
    assert(f[3].key == KeyView::HostName(h));
}

/// What a question offers of a host or a board that is known is what is answered
/// of it where nobody is asked.
pub proof fn lemma_questions_offer_the_defaults(s: SchemaView, h: usize, d: usize)
    requires
        h < default_answers(s).hosts.len(),
        d < default_answers(s).hosts[h as int].duts.len(),
        default_answers(s).hosts[h as int].duts[d as int].relay_gate,
    ensures
        ({
            let host = default_answers(s).hosts[h as int];
            let q = host.duts[d as int];
            &&& or_empty(existing_value(s, KeyView::HostIp(h))) == host.ip
            &&& or_empty(existing_value(s, KeyView::HostUser(h))) == host.user
            &&& or_empty(existing_value(s, KeyView::HostPass(h))) == host.pass
            &&& or_empty(existing_value(s, KeyView::HostName(h))) == host.host_name
            &&& or_empty(existing_value(s, KeyView::DutPort(h, d))) == q.serial_port
            &&& text_or(existing_value(s, KeyView::DutLoginUser(h, d)), "root"@) == q.login_user
            &&& text_or(existing_value(s, KeyView::DutRelayType(h, d)), "ch340"@) == q.relay_type
            &&& or_empty(existing_value(s, KeyView::DutRelayPort(h, d))) == q.relay_port
            &&& or_empty(existing_value(s, KeyView::DutRelayReset(h, d))) == q.relay_reset_ch
            &&& or_empty(existing_value(s, KeyView::DutRelayDownload(h, d))) == q.relay_download_ch
            &&& or_empty(existing_value(s, KeyView::DutRelayPower(h, d))) == q.relay_power_ch
            &&& or_empty(existing_value(s, KeyView::DutRelayResetTimeMs(h, d)))
                == q.relay_reset_time_ms
            &&& text_or(existing_value(s, KeyView::DutRelayPowerOffTimeMs(h, d)), "3000"@)
                == q.relay_power_off_time_ms
        }),
{
    lemma_defaults_are_known(s);
    let known = host_or_unknown(s, h as int);
    let host = default_answers(s).hosts[h as int];
    assert(host_as_known(host, known));
    assert(board_as_known(host.duts[d as int], dut_or_unknown(known, d as int)));
}

} // verus!

//! What answers describe can be spelled: JSON has a value for each number.
use crate::advanced::scalar_of;
use crate::answers::{
    answers_config, dut_config, duts_config, host_config, hosts_config, plain_dut, relay_of,
    DutAnswersView, HostAnswersView, WizardAnswersView,
};
use crate::config::{no_config, ConfigView, DutView, HostView};
use crate::kept::{config_spellable, dut_spellable, host_spellable, lemma_real_is_number, spellable};
use crate::merge::{merged_dut_from, merged_dut_key, merged_from, merged_key};
use crate::number::real_value;
use crate::text::trimmed;
use crate::text_map::Pairs;
use vstd::prelude::*;

verus! {

/// The scalar that an answer spells is one that JSON can spell.
pub proof fn lemma_scalar_spellable(s: Seq<char>)
    ensures
        spellable(scalar_of(s)),
{
    if real_value(trimmed(s)) is Some {
        lemma_real_is_number(trimmed(s));
    }
}

// ── Boards ───────────────────────────────────────────────────────────
/// Whether a board can be spelled and has a port.
pub open spec fn sound_dut(d: DutView) -> bool {
    dut_spellable(d) && d.serial is Some && d.serial->0.port is Some
}

proof fn lemma_dut_key_kept(d: DutView, key: Seq<char>, value: Seq<char>)
    requires
        sound_dut(d),
    ensures
        sound_dut(merged_dut_key(d, key, value).0),
        merged_dut_key(d, key, value).0.dut_name == d.dut_name,
{
    let t = trimmed(value);
    lemma_scalar_spellable(t);
    if real_value(trimmed(t)) is Some {
        lemma_real_is_number(trimmed(t));
    }
}

proof fn lemma_dut_keys_kept(d: DutView, answers: Pairs, i: int)
    requires
        0 <= i,
        sound_dut(d),
    ensures
        sound_dut(merged_dut_from(d, answers, i).0),
        merged_dut_from(d, answers, i).0.dut_name == d.dut_name,
    decreases answers.len() - i,
{
    if i < answers.len() {
        lemma_dut_key_kept(d, answers[i].0, answers[i].1);
        lemma_dut_keys_kept(merged_dut_key(d, answers[i].0, answers[i].1).0, answers, i + 1);
    }
}

/// A board that answers describe has the name that was answered and a port,
/// and can be spelled.
pub proof fn lemma_dut_is_sound(a: DutAnswersView)
    ensures
        dut_config(a) matches Ok(d) ==> sound_dut(d) && d.dut_name == a.dut_name,
{
    if let Ok(relay) = relay_of(a) {
        lemma_scalar_spellable(a.serial_port);
        lemma_dut_keys_kept(plain_dut(a, relay), a.advanced, 0);
    }
}

/// Whether all boards of a host are sound.
pub open spec fn sound_duts(duts: Seq<DutView>) -> bool {
    forall|i: int| 0 <= i < duts.len() ==> sound_dut(#[trigger] duts[i])
}

proof fn lemma_duts_are_sound(a: Seq<DutAnswersView>, i: int, before: Seq<DutView>)
    requires
        0 <= i <= a.len(),
        before.len() == i,
        sound_duts(before),
        forall|k: int| 0 <= k < i ==> (#[trigger] before[k]).dut_name == a[k].dut_name,
    ensures
        duts_config(a, i, before) matches Ok(duts) ==> duts.len() == a.len() && sound_duts(duts) && (
        forall|k: int| 0 <= k < a.len() ==> (#[trigger] duts[k]).dut_name == a[k].dut_name),
    decreases a.len() - i,
{
    if i < a.len() {
        lemma_dut_is_sound(a[i]);
        if let Ok(d) = dut_config(a[i]) {
            lemma_duts_are_sound(a, i + 1, before.push(d));
        }
    }
}

// ── Hosts ────────────────────────────────────────────────────────────
/// Whether a host is what was answered: it has the boards that were answered,
/// all of them sound.
pub open spec fn sound_host(h: HostView, a: HostAnswersView) -> bool {
    &&& h.duts.len() == a.duts.len()
    &&& sound_duts(h.duts)
    &&& forall|k: int|
        0 <= k < a.duts.len() ==> (#[trigger] h.duts[k]).dut_name == a.duts[k].dut_name
}

/// A host that answers describe has the boards that were answered, and can be
/// spelled.
pub proof fn lemma_host_is_sound(a: HostAnswersView)
    ensures
        host_config(a) matches Ok(h) ==> sound_host(h, a) && host_spellable(h),
{
    lemma_duts_are_sound(a.duts, 0, Seq::empty());
    if let Ok(h) = host_config(a) {
        assert forall|i: int| 0 <= i < h.duts.len() implies dut_spellable(#[trigger] h.duts[i]) by {
            assert(sound_dut(h.duts[i]));
        }
    }
}

/// Whether hosts are what was answered.
pub open spec fn sound_hosts(hosts: Seq<HostView>, a: Seq<HostAnswersView>) -> bool {
    forall|i: int|
        0 <= i < hosts.len() && i < a.len() ==> sound_host(#[trigger] hosts[i], a[i])
            && host_spellable(hosts[i])
}

proof fn lemma_hosts_are_sound(a: Seq<HostAnswersView>, i: int, before: Seq<HostView>)
    requires
        0 <= i <= a.len(),
        before.len() == i,
        sound_hosts(before, a),
    ensures
        hosts_config(a, i, before) matches Ok(hosts) ==> hosts.len() == a.len() && sound_hosts(
            hosts,
            a,
        ),
    decreases a.len() - i,
{
    if i < a.len() {
        lemma_host_is_sound(a[i]);
        if let Ok(h) = host_config(a[i]) {
            let next = before.push(h);
            assert forall|k: int| 0 <= k < next.len() && k < a.len() implies sound_host(
                #[trigger] next[k],
                a[k],
            ) && host_spellable(next[k]) by {
                if k < i {
                    assert(next[k] == before[k]);
                }
            }
            lemma_hosts_are_sound(a, i + 1, next);
        }
    }
}

// ── The whole configuration ──────────────────────────────────────────
proof fn lemma_key_kept(c: ConfigView, key: Seq<char>, value: Seq<char>)
    requires
        config_spellable(c),
    ensures
        config_spellable(merged_key(c, key, value).0),
        merged_key(c, key, value).0.dev_hosts == c.dev_hosts,
{
    lemma_scalar_spellable(value);
    if real_value(trimmed(value)) is Some {
        lemma_real_is_number(trimmed(value));
    }
}

proof fn lemma_keys_kept(c: ConfigView, answers: Pairs, i: int)
    requires
        0 <= i,
        config_spellable(c),
    ensures
        config_spellable(merged_from(c, answers, i).0),
        merged_from(c, answers, i).0.dev_hosts == c.dev_hosts,
    decreases answers.len() - i,
{
    if i < answers.len() {
        lemma_key_kept(c, answers[i].0, answers[i].1);
        lemma_keys_kept(merged_key(c, answers[i].0, answers[i].1).0, answers, i + 1);
    }
}

/// A configuration that answers describe has the hosts that were answered, and
/// can be spelled.
pub proof fn lemma_answers_are_sound(a: WizardAnswersView)
    ensures
        answers_config(a) matches Ok(c) ==> config_spellable(c) && c.dev_hosts.len()
            == a.hosts.len() && sound_hosts(c.dev_hosts, a.hosts),
{
    lemma_hosts_are_sound(a.hosts, 0, Seq::empty());
    if let Ok(hosts) = hosts_config(a.hosts, 0, Seq::empty()) {
        let c = ConfigView { dev_hosts: hosts, ..no_config() };
        assert forall|i: int| 0 <= i < hosts.len() implies host_spellable(#[trigger] hosts[i]) by {
            assert(sound_host(hosts[i], a.hosts[i]));
        }
        assert(config_spellable(c));
        lemma_keys_kept(c, a.advanced, 0);
    }
}

} // verus!

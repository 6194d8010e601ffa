//! Default answers leave a configuration as it is.
use crate::advanced::{advanced_table, section_of, AdvFieldView};
use crate::answers::{DutAnswersView, HostAnswersView};
use crate::config::{config_text, ConfigView, DutView, HostView, RelayView};
use crate::current::{current_of, dut_current_of};
use crate::defaults::{
    current_values, default_answers, default_dut, default_duts, default_host, default_hosts,
    dut_or_unknown, host_or_unknown, with_name,
};
use crate::fields::at_least_one;
use crate::jsonc::{document, skip, value_at};
use crate::locate::{open_at, scan_from, scan_start, scan_step, ScanView, SegView};
use crate::number::{decimal, lemma_decimal_round_trip};
use crate::options::InitOptions;
use crate::place::lemma_skip_finds_nothing;
use crate::schema::{known_dut, known_host, schema_of};
use crate::text::{trim_back, trim_front, trimmed};
use crate::text_map::{distinct_keys, lemma_put_distinct, lookup, lookup_from, put, Pairs};
use crate::update::{host_changes, Plan};
use crate::update_config::{
    duts_from, duts_path, hosts_from, section_keys_from, section_path, section_sets_from,
    sections_from, update_plan,
};
use crate::update_dut::{
    absent_from, dut_changes, dut_keys_from, dut_missing, port_now, quick_missing, relay_changes,
    relay_diff, sorted_missing,
};
use vstd::prelude::*;

verus! {

/// A board that default answers leave as it is: it has a name and a port.
pub open spec fn settled_dut(d: DutView) -> bool {
    d.dut_name.len() > 0 && port_now(d) is Some
}

/// The path of board `di` of host `hi`.
pub open spec fn dut_path(hi: int, di: int) -> Seq<SegView> {
    duts_path(hi as nat).push(SegView::Index(di as nat))
}

/// A configuration that default answers leave as it is: there are hosts, and
/// each has boards, all of them settled.
pub open spec fn settled(c: ConfigView) -> bool {
    &&& 0 < c.dev_hosts.len() <= usize::MAX
    &&& forall|hi: int|
        0 <= hi < c.dev_hosts.len() ==> 0 < (#[trigger] c.dev_hosts[hi]).duts.len() <= usize::MAX
    &&& forall|hi: int, di: int|
        0 <= hi < c.dev_hosts.len() && 0 <= di < c.dev_hosts[hi].duts.len() ==> settled_dut(
            #[trigger] c.dev_hosts[hi].duts[di],
        )
}

// ── Texts and pairs ──────────────────────────────────────────────────
/// Nothing is trimmed off a number in decimal digits.
pub proof fn lemma_decimal_trimmed(n: nat)
    ensures
        trimmed(decimal(n)) == decimal(n),
{
    lemma_decimal_round_trip(n);
    let t = decimal(n);
    assert(t.len() > 0);
    assert(trim_front(t) == t);
    assert(trim_back(t) == t);
}

proof fn lemma_lookup_at(p: Pairs, j: int, i: int)
    requires
        distinct_keys(p),
        0 <= j <= i < p.len(),
    ensures
        lookup_from(p, p[i].0, j) == Some(p[i].1),
    decreases i - j,
{
    if j < i {
        lemma_lookup_at(p, j + 1, i);
    }
}

broadcast proof fn lemma_put_opt_keeps(p: Pairs, key: Seq<char>, value: Option<Seq<char>>)
    requires
        distinct_keys(p),
    ensures
        distinct_keys(#[trigger] crate::current::put_opt(p, key, value)),
{
    match value {
        Some(v) => lemma_put_distinct(p, key, v),
        None => {},
    }
}

proof fn lemma_dut_current_distinct(d: DutView)
    ensures
        distinct_keys(dut_current_of(d)),
{
    broadcast use lemma_put_opt_keeps;

}

proof fn lemma_current_distinct(c: ConfigView)
    ensures
        distinct_keys(current_of(c)),
{
    broadcast use lemma_put_opt_keeps;

}

// ── One board ────────────────────────────────────────────────────────
/// The default answers about a board that is there.
pub open spec fn own_answers(d: DutView) -> DutAnswersView {
    default_dut(known_dut(d), d.dut_name)
}

proof fn lemma_relay_stays(r: RelayView, a: DutAnswersView, d: DutView)
    requires
        d.relay == Some(r),
        a == own_answers(d),
    ensures
        relay_diff(relay_changes(d.relay, a), 0, Seq::empty(), Seq::empty()) == (
            Seq::<crate::update_dut::SetView>::empty(),
            Seq::<(Seq<char>, Seq<char>)>::empty(),
            None::<Seq<char>>,
        ),
{
    let c = relay_changes(d.relay, a);
    reveal_strlit("ch340");
    reveal_strlit("3000");
    assert(trimmed("ch340"@) == "ch340"@) by {
        assert(trim_front("ch340"@) == "ch340"@);
    }
    assert(trimmed("3000"@) == "3000"@) by {
        assert(trim_front("3000"@) == "3000"@);
    }
    assert(trimmed(Seq::<char>::empty()) =~= Seq::<char>::empty());
    match r.port {
        Some(n) => lemma_decimal_trimmed(n as nat),
        None => {},
    }
    match r.reset_ch {
        Some(n) => lemma_decimal_trimmed(n as nat),
        None => {},
    }
    match r.download_ch {
        Some(n) => lemma_decimal_trimmed(n as nat),
        None => {},
    }
    match r.power_ch {
        Some(n) => lemma_decimal_trimmed(n as nat),
        None => {},
    }
    match r.reset_time_ms {
        Some(n) => lemma_decimal_trimmed(n as nat),
        None => {},
    }
    match r.power_off_time_ms {
        Some(n) => lemma_decimal_trimmed(n as nat),
        None => {},
    }
    assert forall|i: int| 0 <= i < 7 implies crate::update_dut::relay_action(#[trigger] c[i])
        == crate::update_dut::RelayAction::Nothing by {}
    assert(c.len() == 7);
    lemma_no_relay_changes(c, 0);
}

proof fn lemma_no_relay_changes(c: Seq<crate::update_dut::RelayChangeView>, i: int)
    requires
        0 <= i,
        forall|k: int|
            0 <= k < c.len() ==> crate::update_dut::relay_action(#[trigger] c[k])
                == crate::update_dut::RelayAction::Nothing,
    ensures
        relay_diff(c, i, Seq::empty(), Seq::empty()) == (
            Seq::<crate::update_dut::SetView>::empty(),
            Seq::<(Seq<char>, Seq<char>)>::empty(),
            None::<Seq<char>>,
        ),
    decreases c.len() - i,
{
    if i < c.len() {
        lemma_no_relay_changes(c, i + 1);
    }
}

/// Answers that change nothing add nothing to a plan.
proof fn lemma_keys_stay(
    p: Plan,
    s: Seq<char>,
    path: Seq<SegView>,
    own: Pairs,
    global: Pairs,
    answers: Pairs,
    i: int,
)
    requires
        0 <= i,
        p.1 is None,
        forall|k: int|
            0 <= k < answers.len() ==> crate::update_dut::dut_key_action(
                s,
                path,
                own,
                global,
                (#[trigger] answers[k]).0,
                answers[k].1,
            ) == crate::update_dut::DutKeyAction::Nothing,
    ensures
        dut_keys_from(p, Seq::empty(), s, path, own, global, answers, i) == (
            p,
            Seq::<crate::update_dut::MissingView>::empty(),
        ),
    decreases answers.len() - i,
{
    if i < answers.len() {
        lemma_keys_stay(p, s, path, own, global, answers, i + 1);
    }
}

/// The default answers about a settled board change nothing.
pub proof fn lemma_board_stays(p: Plan, s: Seq<char>, path: Seq<SegView>, d: DutView, global: Pairs)
    requires
        p.1 is None,
        settled_dut(d),
    ensures
        dut_changes(p.0, s, path, d, own_answers(d), global) == p,
{
    let a = own_answers(d);
    let own = dut_current_of(d);
    lemma_dut_current_distinct(d);
    assert(a.advanced == own);
    match d.relay {
        Some(r) => lemma_relay_stays(r, a, d),
        None => {},
    }
    let quick = crate::update_dut::dut_quick_changes(p.0, s, path, d, a);
    assert(quick == p);
    assert(quick_missing(s, path, d, a) == Seq::<crate::update_dut::MissingView>::empty());
    assert forall|k: int| 0 <= k < a.advanced.len() implies crate::update_dut::dut_key_action(
        s,
        path,
        own,
        global,
        (#[trigger] a.advanced[k]).0,
        a.advanced[k].1,
    ) == crate::update_dut::DutKeyAction::Nothing by {
        lemma_lookup_at(own, 0, k);
    }
    lemma_keys_stay(p, s, path, own, global, a.advanced, 0);
    lemma_nothing_absent(s, path, own, global, a.advanced, 0);
    let none = Seq::<crate::update_dut::MissingView>::empty();
    assert(none + none =~= none);
    assert(sorted_missing(none).len() == 0);
    assert(dut_missing(s, path, d, a, global).len() == 0);
}

proof fn lemma_nothing_absent(
    s: Seq<char>,
    path: Seq<SegView>,
    own: Pairs,
    global: Pairs,
    answers: Pairs,
    i: int,
)
    requires
        0 <= i,
        forall|k: int|
            0 <= k < answers.len() ==> crate::update_dut::dut_key_action(
                s,
                path,
                own,
                global,
                (#[trigger] answers[k]).0,
                answers[k].1,
            ) == crate::update_dut::DutKeyAction::Nothing,
    ensures
        absent_from(s, path, own, global, answers, i) == Seq::<
            crate::update_dut::MissingView,
        >::empty(),
    decreases answers.len() - i,
{
    if i < answers.len() {
        lemma_nothing_absent(s, path, own, global, answers, i + 1);
        assert(absent_from(s, path, own, global, answers, i) =~= Seq::<
            crate::update_dut::MissingView,
        >::empty());
    }
}

// ── Boards and hosts ─────────────────────────────────────────────────
/// The default answers about a host that is there.
pub open spec fn own_host_answers(h: HostView) -> HostAnswersView {
    default_host(known_host(h), Seq::new(h.duts.len(), |i: int| own_answers(h.duts[i])))
}

proof fn lemma_default_boards(
    h: HostView,
    taken: Seq<Seq<char>>,
    d: int,
    before: Seq<DutAnswersView>,
)
    requires
        0 <= d <= h.duts.len() <= usize::MAX,
        before == Seq::new(d as nat, |i: int| own_answers(h.duts[i])),
        forall|i: int| 0 <= i < h.duts.len() ==> (#[trigger] h.duts[i]).dut_name.len() > 0,
    ensures
        default_duts(known_host(h), taken, d, h.duts.len() as int, before).0 == Seq::new(
            h.duts.len(),
            |i: int| own_answers(h.duts[i]),
        ),
    decreases h.duts.len() - d,
{
    if d < h.duts.len() {
        let known = dut_or_unknown(known_host(h), d);
        assert(known == known_dut(h.duts[d]));
        let name = crate::defaults::default_name(known, taken);
        assert(h.duts[d].dut_name.len() > 0);
        let next = before.push(default_dut(known, name));
        assert(next =~= Seq::new((d + 1) as nat, |i: int| own_answers(h.duts[i])));
        lemma_default_boards(h, with_name(taken, name), d + 1, next);
    }
}

proof fn lemma_default_answers_at(
    c: ConfigView,
    o: InitOptions,
    taken: Seq<Seq<char>>,
    h: int,
    before: Seq<HostAnswersView>,
)
    requires
        0 <= h <= c.dev_hosts.len() <= usize::MAX,
        before == Seq::new(h as nat, |i: int| own_host_answers(c.dev_hosts[i])),
        forall|i: int| 0 <= i < c.dev_hosts.len() ==> 0 < (#[trigger] c.dev_hosts[i]).duts.len()
            <= usize::MAX,
        forall|i: int, d: int|
            0 <= i < c.dev_hosts.len() && 0 <= d < c.dev_hosts[i].duts.len()
                ==> (#[trigger] c.dev_hosts[i].duts[d]).dut_name.len() > 0,
    ensures
        default_hosts(schema_of(Some(c), o), taken, h, c.dev_hosts.len() as int, before)
            == Seq::new(c.dev_hosts.len(), |i: int| own_host_answers(c.dev_hosts[i])),
    decreases c.dev_hosts.len() - h,
{
    let s = schema_of(Some(c), o);
    if h < c.dev_hosts.len() {
        let host = c.dev_hosts[h];
        let known = host_or_unknown(s, h);
        assert(known == known_host(host));
        let n = at_least_one(known.dut_count) as int;
        assert(n == host.duts.len());
        assert(Seq::<DutAnswersView>::empty() =~= Seq::new(0, |i: int| own_answers(host.duts[i])));
        lemma_default_boards(host, taken, 0, Seq::empty());
        let (duts, after) = default_duts(known, taken, 0, n, Seq::empty());
        let next = before.push(default_host(known, duts));
        assert(next =~= Seq::new((h + 1) as nat, |i: int| own_host_answers(c.dev_hosts[i])));
        lemma_default_answers_at(c, o, after, h + 1, next);
    }
}

proof fn lemma_boards_stay(p: Plan, s: Seq<char>, c: ConfigView, hi: int, di: int)
    requires
        p.1 is None,
        settled(c),
        0 <= hi < c.dev_hosts.len(),
        0 <= di,
    ensures
        duts_from(
            p,
            s,
            hi as nat,
            c.dev_hosts[hi].duts,
            own_host_answers(c.dev_hosts[hi]).duts,
            current_of(c),
            di,
        ) == p,
    decreases c.dev_hosts[hi].duts.len() - di,
{
    let h = c.dev_hosts[hi];
    if di < h.duts.len() {
        assert(settled_dut(c.dev_hosts[hi].duts[di]));
        lemma_board_stays(p, s, dut_path(hi, di), h.duts[di], current_of(c));
        lemma_boards_stay(p, s, c, hi, di + 1);
    }
}

proof fn lemma_hosts_stay(p: Plan, s: Seq<char>, c: ConfigView, hi: int)
    requires
        p.1 is None,
        settled(c),
        0 <= hi,
    ensures
        hosts_from(
            p,
            s,
            c.dev_hosts,
            Seq::new(c.dev_hosts.len(), |i: int| own_host_answers(c.dev_hosts[i])),
            current_of(c),
            hi,
        ) == p,
    decreases c.dev_hosts.len() - hi,
{
    if hi < c.dev_hosts.len() {
        let h = c.dev_hosts[hi];
        let path = crate::update_config::host_path(hi as nat);
        assert(host_changes(p.0, s, path, h, own_host_answers(h)) == p);
        lemma_boards_stay(p, s, c, hi, 0);
        lemma_hosts_stay(p, s, c, hi + 1);
    }
}

// ── Top-level sections ───────────────────────────────────────────────
proof fn lemma_opens_stay(s: Seq<char>, pos: int, st: ScanView)
    requires
        st.spans.opens.len() > 0,
    ensures
        scan_from(s, pos, st).opens.len() > 0,
        scan_from(s, pos, st).opens[0] == st.spans.opens[0],
    decreases s.len() - pos,
{
    if 0 <= pos < s.len() {
        let (next, after) = scan_step(s, pos, st);
        if pos < next <= s.len() {
            lemma_opens_stay(s, next, after);
        }
    }
}

/// A text that holds a configuration has an object around everything.
pub proof fn lemma_root_is_found(s: Seq<char>)
    requires
        config_text(s) is Some,
    ensures
        open_at(s, Seq::empty()) is Some,
{
    lemma_skip_finds_nothing(s, 0, scan_start());
    let i = skip(s, 0)->0;
    assert(document(s) is Some);
    let (v, _) = value_at(s, i)->0;
    assert(v is Object);
    assert(s[i] == '{');
    let (next, after) = scan_step(s, i, scan_start());
    lemma_opens_stay(s, next, after);
    let opens = crate::locate::scan(s).opens;
    assert(opens[0] == (Seq::<SegView>::empty(), i));
}

/// The advanced values that are answered are values that are set.
proof fn lemma_current_values(table: Seq<AdvFieldView>, current: Pairs, i: int, before: Pairs)
    requires
        0 <= i,
        distinct_keys(before),
        forall|k: int|
            0 <= k < before.len() ==> lookup(current, (#[trigger] before[k]).0) == Some(before[k].1),
    ensures
        ({
            let r = current_values(table, current, i, before);
            forall|k: int|
                0 <= k < r.len() ==> lookup(current, (#[trigger] r[k]).0) == Some(r[k].1)
        }),
    decreases table.len() - i,
{
    if i < table.len() {
        let key = table[i].key;
        match lookup(current, key) {
            Some(v) => {
                if v.len() > 0 {
                    let next = put(before, key, v);
                    lemma_put_distinct(before, key, v);
                    assert forall|k: int| 0 <= k < next.len() implies lookup(
                        current,
                        (#[trigger] next[k]).0,
                    ) == Some(next[k].1) by {
                        lemma_put_at(before, key, v, 0, k);
                    }
                    lemma_current_values(table, current, i + 1, next);
                } else {
                    lemma_current_values(table, current, i + 1, before);
                }
            },
            None => lemma_current_values(table, current, i + 1, before),
        }
    }
}

proof fn lemma_put_at(p: Pairs, key: Seq<char>, value: Seq<char>, i: int, k: int)
    requires
        0 <= i <= p.len(),
        0 <= k < crate::text_map::put_from(p, key, value, i).len(),
    ensures
        ({
            let q = crate::text_map::put_from(p, key, value, i);
            ||| q[k].0 == key && q[k].1 == value
            ||| k < p.len() && q[k] == p[k]
        }),
    decreases p.len() - i,
{
    if i < p.len() && p[i].0 != key {
        lemma_put_at(p, key, value, i + 1, k);
    }
}

proof fn lemma_section_keys_stay(
    p: Plan,
    s: Seq<char>,
    section: Seq<char>,
    current: Pairs,
    answers: Pairs,
    i: int,
)
    requires
        0 <= i,
        p.1 is None,
        forall|k: int|
            0 <= k < answers.len() ==> lookup(current, (#[trigger] answers[k]).0) == Some(answers[k].1),
    ensures
        section_keys_from(p, s, section_path(section), section, current, answers, i) == p,
        section_sets_from(Seq::empty(), section, current, answers, i) == Ok::<
            Seq<crate::update_dut::SetView>,
            Seq<char>,
        >(Seq::empty()),
    decreases answers.len() - i,
{
    if i < answers.len() {
        lemma_section_keys_stay(p, s, section, current, answers, i + 1);
    }
}

proof fn lemma_sections_stay(p: Plan, s: Seq<char>, current: Pairs, answers: Pairs, i: int)
    requires
        0 <= i,
        p.1 is None,
        open_at(s, Seq::empty()) is Some,
        forall|k: int|
            0 <= k < answers.len() ==> lookup(current, (#[trigger] answers[k]).0) == Some(answers[k].1),
    ensures
        sections_from(p, s, current, answers, i) == p,
    decreases answers.len() - i,
{
    if i < answers.len() {
        lemma_section_keys_stay(p, s, section_of(answers[i].0), current, answers, 0);
        lemma_sections_stay(p, s, current, answers, i + 1);
    }
}

// ── The whole configuration ──────────────────────────────────────────
/// Over a settled configuration, the default answers name the hosts that are
/// there, with their boards.
pub proof fn lemma_default_hosts_are_own(c: ConfigView, o: InitOptions)
    requires
        settled(c),
    ensures
        default_answers(schema_of(Some(c), o)).hosts == Seq::new(
            c.dev_hosts.len(),
            |i: int| own_host_answers(c.dev_hosts[i]),
        ),
{
    assert forall|i: int, d: int|
        0 <= i < c.dev_hosts.len() && 0 <= d < c.dev_hosts[i].duts.len() implies (
    #[trigger] c.dev_hosts[i].duts[d]).dut_name.len() > 0 by {
        assert(settled_dut(c.dev_hosts[i].duts[d]));
    }
    assert(Seq::<HostAnswersView>::empty() =~= Seq::new(
        0,
        |i: int| own_host_answers(c.dev_hosts[i]),
    ));
    lemma_default_answers_at(c, o, schema_of(Some(c), o).taken_duts, 0, Seq::empty());
}

/// Without questions a configuration is left as it is, to the letter: the
/// default answers ask for no edit. Left out are configurations without hosts
/// or boards, and boards without a name or a port, which get one.
pub proof fn lemma_defaults_change_nothing(s: Seq<char>, c: ConfigView, o: InitOptions)
    requires
        config_text(s) == Some(c),
        settled(c),
    ensures
        update_plan(s, c, default_answers(schema_of(Some(c), o))) == (
            Seq::<crate::update::OpView>::empty(),
            None::<Seq<char>>,
        ),
{
    let schema = schema_of(Some(c), o);
    let a = default_answers(schema);
    let p: Plan = (Seq::empty(), None);
    lemma_default_hosts_are_own(c, o);
    lemma_hosts_stay(p, s, c, 0);
    lemma_root_is_found(s);
    let current = current_of(c);
    lemma_current_distinct(c);
    lemma_current_values(advanced_table(), current, 0, Pairs::empty());
    lemma_sections_stay(p, s, current, a.advanced, 0);
}

} // verus!

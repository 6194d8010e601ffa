//! What an answer leaves alone: the advanced group leaves the hosts alone, and
//! the advanced keys of one board leave the other boards alone.
use crate::advanced::{advanced_table, dut_owned, AdvFieldView};
use crate::answers::{DutAnswersView, HostAnswersView};
use crate::defaults::{dut_or_unknown, host_or_unknown};
use crate::fields::at_least_one;
use crate::form::{
    dut_advanced_group_of, typed_names, typed_value, FieldView, FragView, KeyView, Typed,
};
use crate::resolve::{
    counted_or, no_relay_answers, port_of, relay_gate_of, required_of, resolved, resolved_dut,
    resolved_dut_key, resolved_dut_keys, resolved_duts, resolved_host, resolved_hosts,
    resolved_key, resolved_keys, resolved_name, resolved_relay, start_of, NamePolicy, ProgressView,
};
use crate::schema::{DutDefaultsView, HostDefaultsView, SchemaView};
use crate::text_map::Pairs;
use vstd::prelude::*;

verus! {

/// Whether two states agree in the names that are taken and in what was
/// announced.
pub open spec fn agree(p: ProgressView, q: ProgressView) -> bool {
    p.taken == q.taken && p.announcements == q.announcements
}

// ── The advanced group ───────────────────────────────────────────────
proof fn lemma_keys_announce_nothing(
    map: Pairs,
    p: ProgressView,
    s: SchemaView,
    v: Typed,
    table: Seq<AdvFieldView>,
    i: int,
)
    requires
        0 <= i,
    ensures
        agree(resolved_keys(map, p, s, v, table, i).1, p),
        p.errors.is_prefix_of(resolved_keys(map, p, s, v, table, i).1.errors),
    decreases table.len() - i,
{
    if i < table.len() {
        if dut_owned(table[i].key) {
            lemma_keys_announce_nothing(map, p, s, v, table, i + 1);
        } else {
            let (m, q) = resolved_key(map, p, s, v, table[i]);
            lemma_keys_announce_nothing(m, q, s, v, table, i + 1);
        }
    }
}

/// Opening the advanced group changes the advanced answers and nothing else:
/// the hosts and what is announced stay. What was wrong without it is still
/// wrong, and without it there are no advanced answers.
pub proof fn lemma_gate_changes_only_advanced(s: SchemaView, v: Typed, policy: NamePolicy)
    ensures
        ({
            let (on, wrong) = resolved(s, v, true, policy);
            let (off, less) = resolved(s, v, false, policy);
            &&& on.hosts == off.hosts
            &&& on.announcements == off.announcements
            &&& off.advanced == Pairs::empty()
            &&& less.is_prefix_of(wrong)
        }),
{
    let (n, p1) = counted_or(
        start_of(s, v),
        KeyView::HostCount,
        typed_value(v, KeyView::HostCount),
        s.host_count_default,
    );
    let (hosts, p2) = resolved_hosts(Seq::empty(), p1, s, v, policy, 0, n as int);
    lemma_keys_announce_nothing(Pairs::empty(), p2, s, v, advanced_table(), 0);
}

// ── One board ────────────────────────────────────────────────────────
/// Whether two forms differ in the advanced keys of one board alone.
pub open spec fn same_but(v: Typed, w: Typed, h: usize, d: usize) -> bool {
    &&& typed_names(v, v.len() as int) == typed_names(w, w.len() as int)
    &&& forall|key: KeyView|
        !(key matches KeyView::DutAdvanced(a, b, _) && a == h && b == d) ==> #[trigger] typed_value(
            v,
            key,
        ) == typed_value(w, key)
}

proof fn lemma_board_keys(
    map: Pairs,
    other: Pairs,
    p: ProgressView,
    q: ProgressView,
    s: SchemaView,
    v: Typed,
    w: Typed,
    h: usize,
    d: usize,
    hh: usize,
    dd: usize,
    fields: Seq<FieldView>,
    i: int,
)
    requires
        0 <= i,
        same_but(v, w, h, d),
        agree(p, q),
        (hh, dd) != (h, d) ==> map == other,
    ensures
        ({
            let (a, p2) = resolved_dut_keys(map, p, s, v, hh, dd, fields, i);
            let (b, q2) = resolved_dut_keys(other, q, s, w, hh, dd, fields, i);
            &&& agree(p2, q2)
            &&& (hh, dd) != (h, d) ==> a == b
        }),
    decreases fields.len() - i,
{
    if i < fields.len() {
        match fields[i].key {
            FragView::DutAdvanced(k) => {
                let key = KeyView::DutAdvanced(hh, dd, k);
                assert((hh, dd) != (h, d) ==> typed_value(v, key) == typed_value(w, key));
                let (m, p2) = resolved_dut_key(map, p, s, v, hh, dd, k, fields[i].empty);
                let (n, q2) = resolved_dut_key(other, q, s, w, hh, dd, k, fields[i].empty);
                lemma_board_keys(m, n, p2, q2, s, v, w, h, d, hh, dd, fields, i + 1);
            },
            _ => {
                lemma_board_keys(map, other, p, q, s, v, w, h, d, hh, dd, fields, i + 1);
            },
        }
    }
}

/// Whether two answers about a board agree but for its advanced keys.
pub open spec fn same_board(a: DutAnswersView, b: DutAnswersView) -> bool {
    a == (DutAnswersView { advanced: a.advanced, ..b })
}

proof fn lemma_relay(
    p: ProgressView,
    q: ProgressView,
    v: Typed,
    w: Typed,
    h: usize,
    d: usize,
    hh: usize,
    dd: usize,
    known: DutDefaultsView,
)
    requires
        same_but(v, w, h, d),
        agree(p, q),
    ensures
        resolved_relay(p, v, hh, dd, known).0 == resolved_relay(q, w, hh, dd, known).0,
        agree(resolved_relay(p, v, hh, dd, known).1, resolved_relay(q, w, hh, dd, known).1),
{
    assert(typed_value(v, KeyView::DutRelayType(hh, dd)) == typed_value(
        w,
        KeyView::DutRelayType(hh, dd),
    ));
    assert(typed_value(v, KeyView::DutRelayPort(hh, dd)) == typed_value(
        w,
        KeyView::DutRelayPort(hh, dd),
    ));
    assert(typed_value(v, KeyView::DutRelayReset(hh, dd)) == typed_value(
        w,
        KeyView::DutRelayReset(hh, dd),
    ));
    assert(typed_value(v, KeyView::DutRelayDownload(hh, dd)) == typed_value(
        w,
        KeyView::DutRelayDownload(hh, dd),
    ));
    assert(typed_value(v, KeyView::DutRelayPower(hh, dd)) == typed_value(
        w,
        KeyView::DutRelayPower(hh, dd),
    ));
    assert(typed_value(v, KeyView::DutRelayResetTimeMs(hh, dd)) == typed_value(
        w,
        KeyView::DutRelayResetTimeMs(hh, dd),
    ));
    assert(typed_value(v, KeyView::DutRelayPowerOffTimeMs(hh, dd)) == typed_value(
        w,
        KeyView::DutRelayPowerOffTimeMs(hh, dd),
    ));
}

proof fn lemma_board(
    p: ProgressView,
    q: ProgressView,
    s: SchemaView,
    v: Typed,
    w: Typed,
    policy: NamePolicy,
    h: usize,
    d: usize,
    hh: usize,
    dd: usize,
    known: DutDefaultsView,
)
    requires
        same_but(v, w, h, d),
        agree(p, q),
    ensures
        ({
            let (a, p2) = resolved_dut(p, s, v, policy, hh, dd, known);
            let (b, q2) = resolved_dut(q, s, w, policy, hh, dd, known);
            &&& agree(p2, q2)
            &&& same_board(a, b)
            &&& (hh, dd) != (h, d) ==> a == b
        }),
{
    let k1 = KeyView::DutName(hh, dd);
    let k2 = KeyView::DutPort(hh, dd);
    let k3 = KeyView::DutLoginUser(hh, dd);
    let k4 = KeyView::DutRelayGate(hh, dd);
    assert(typed_value(v, k1) == typed_value(w, k1));
    assert(typed_value(v, k2) == typed_value(w, k2));
    assert(typed_value(v, k3) == typed_value(w, k3));
    assert(typed_value(v, k4) == typed_value(w, k4));
    let names = typed_names(v, v.len() as int);
    let (name, p1) = resolved_name(
        p,
        k1,
        typed_value(v, k1),
        known.dut_name,
        names,
        s.taken_duts,
        policy,
    );
    let (_, q1) = resolved_name(
        q,
        k1,
        typed_value(w, k1),
        known.dut_name,
        names,
        s.taken_duts,
        policy,
    );
    let (port, p2) = port_of(p1, k2, typed_value(v, k2), known.serial_port);
    let (_, q2) = port_of(q1, k2, typed_value(w, k2), known.serial_port);
    let (gate, p3) = relay_gate_of(p2, k4, typed_value(v, k4), known.relay_gate);
    let (_, q3) = relay_gate_of(q2, k4, typed_value(w, k4), known.relay_gate);
    lemma_relay(p3, q3, v, w, h, d, hh, dd, known);
    let (_, p4) = if gate {
        resolved_relay(p3, v, hh, dd, known)
    } else {
        (no_relay_answers(), p3)
    };
    let (_, q4) = if gate {
        resolved_relay(q3, w, hh, dd, known)
    } else {
        (no_relay_answers(), q3)
    };
    let none = Pairs::empty();
    lemma_board_keys(
        none,
        none,
        p4,
        q4,
        s,
        v,
        w,
        h,
        d,
        hh,
        dd,
        dut_advanced_group_of().fields,
        0,
    );
}

/// Whether two answers about the boards of host `hh` agree, but for the
/// advanced keys of one board.
pub open spec fn same_boards(
    a: Seq<DutAnswersView>,
    b: Seq<DutAnswersView>,
    h: usize,
    d: usize,
    hh: int,
) -> bool {
    &&& a.len() == b.len()
    &&& forall|dd: int|
        0 <= dd < a.len() ==> same_board(#[trigger] a[dd], b[dd]) && ((hh, dd) != (
            h as int,
            d as int,
        ) ==> a[dd] == b[dd])
}

proof fn lemma_boards(
    a: Seq<DutAnswersView>,
    b: Seq<DutAnswersView>,
    p: ProgressView,
    q: ProgressView,
    s: SchemaView,
    v: Typed,
    w: Typed,
    policy: NamePolicy,
    h: usize,
    d: usize,
    hh: usize,
    known: HostDefaultsView,
    dd: int,
    n: int,
)
    requires
        same_but(v, w, h, d),
        agree(p, q),
        same_boards(a, b, h, d, hh as int),
        a.len() == dd,
        0 <= dd,
        n <= usize::MAX,
    ensures
        ({
            let (x, p2) = resolved_duts(a, p, s, v, policy, hh, known, dd, n);
            let (y, q2) = resolved_duts(b, q, s, w, policy, hh, known, dd, n);
            agree(p2, q2) && same_boards(x, y, h, d, hh as int)
        }),
    decreases n - dd,
{
    if dd < n {
        let k = dut_or_unknown(known, dd);
        lemma_board(p, q, s, v, w, policy, h, d, hh, dd as usize, k);
        let (x, p2) = resolved_dut(p, s, v, policy, hh, dd as usize, k);
        let (y, q2) = resolved_dut(q, s, w, policy, hh, dd as usize, k);
        lemma_boards(
            a.push(x),
            b.push(y),
            p2,
            q2,
            s,
            v,
            w,
            policy,
            h,
            d,
            hh,
            known,
            dd + 1,
            n,
        );
    }
}

/// Whether two answers about hosts agree, but for the advanced keys of one
/// board.
pub open spec fn same_hosts(
    a: Seq<HostAnswersView>,
    b: Seq<HostAnswersView>,
    h: usize,
    d: usize,
) -> bool {
    &&& a.len() == b.len()
    &&& forall|hh: int|
        0 <= hh < a.len() ==> (#[trigger] a[hh]) == (HostAnswersView { duts: a[hh].duts, ..b[hh] })
            && same_boards(a[hh].duts, b[hh].duts, h, d, hh)
}

proof fn lemma_hosts(
    a: Seq<HostAnswersView>,
    b: Seq<HostAnswersView>,
    p: ProgressView,
    q: ProgressView,
    s: SchemaView,
    v: Typed,
    w: Typed,
    policy: NamePolicy,
    h: usize,
    d: usize,
    hh: int,
    n: int,
)
    requires
        same_but(v, w, h, d),
        agree(p, q),
        same_hosts(a, b, h, d),
        a.len() == hh,
        0 <= hh,
        n <= usize::MAX,
    ensures
        ({
            let (x, p2) = resolved_hosts(a, p, s, v, policy, hh, n);
            let (y, q2) = resolved_hosts(b, q, s, w, policy, hh, n);
            agree(p2, q2) && same_hosts(x, y, h, d)
        }),
    decreases n - hh,
{
    if hh < n {
        let i = hh as usize;
        let known = host_or_unknown(s, hh);
        assert(typed_value(v, KeyView::HostIp(i)) == typed_value(w, KeyView::HostIp(i)));
        assert(typed_value(v, KeyView::HostUser(i)) == typed_value(w, KeyView::HostUser(i)));
        assert(typed_value(v, KeyView::HostPass(i)) == typed_value(w, KeyView::HostPass(i)));
        assert(typed_value(v, KeyView::HostName(i)) == typed_value(w, KeyView::HostName(i)));
        assert(typed_value(v, KeyView::DutCount(i)) == typed_value(w, KeyView::DutCount(i)));
        let (_, p1) = required_of(
            p,
            KeyView::HostIp(i),
            typed_value(v, KeyView::HostIp(i)),
            known.ip,
        );
        let (_, q1) = required_of(
            q,
            KeyView::HostIp(i),
            typed_value(w, KeyView::HostIp(i)),
            known.ip,
        );
        let least = at_least_one(known.dut_count);
        let key = KeyView::DutCount(i);
        let (m, p2) = counted_or(p1, key, typed_value(v, key), least);
        let (_, q2) = counted_or(q1, key, typed_value(w, key), least);
        let none = Seq::<DutAnswersView>::empty();
        lemma_boards(none, none, p2, q2, s, v, w, policy, h, d, i, known, 0, m as int);
        let (x, p3) = resolved_host(p, s, v, policy, i);
        let (y, q3) = resolved_host(q, s, w, policy, i);
        let more = a.push(x);
        let others = b.push(y);
        assert forall|k: int| 0 <= k < more.len() implies (#[trigger] more[k]) == (HostAnswersView {
            duts: more[k].duts,
            ..others[k]
        }) && same_boards(more[k].duts, others[k].duts, h, d, k) by {
            if k < hh {
                assert(more[k] == a[k] && others[k] == b[k]);
            }
        }
        lemma_hosts(more, others, p3, q3, s, v, w, policy, h, d, hh + 1, n);
    }
}

/// What is typed for the advanced keys of one board shows in the advanced
/// answers of that board and nowhere else: the other boards, the hosts, the
/// top-level answers and the announcements stay.
pub proof fn lemma_board_keys_stay_with_their_board(
    s: SchemaView,
    v: Typed,
    w: Typed,
    gate: bool,
    policy: NamePolicy,
    h: usize,
    d: usize,
)
    requires
        same_but(v, w, h, d),
    ensures
        ({
            let a = resolved(s, v, gate, policy).0;
            let b = resolved(s, w, gate, policy).0;
            &&& same_hosts(a.hosts, b.hosts, h, d)
            &&& a.advanced == b.advanced
            &&& a.announcements == b.announcements
        }),
{
    let key = KeyView::HostCount;
    assert(typed_value(v, key) == typed_value(w, key));
    let (n, p1) = counted_or(start_of(s, v), key, typed_value(v, key), s.host_count_default);
    let (_, q1) = counted_or(start_of(s, w), key, typed_value(w, key), s.host_count_default);
    let none = Seq::<HostAnswersView>::empty();
    lemma_hosts(none, none, p1, q1, s, v, w, policy, h, d, 0, n as int);
    let (_, p2) = resolved_hosts(none, p1, s, v, policy, 0, n as int);
    let (_, q2) = resolved_hosts(none, q1, s, w, policy, 0, n as int);
    lemma_top_keys(Pairs::empty(), p2, q2, s, v, w, h, d, advanced_table(), 0);
}

proof fn lemma_top_keys(
    map: Pairs,
    p: ProgressView,
    q: ProgressView,
    s: SchemaView,
    v: Typed,
    w: Typed,
    h: usize,
    d: usize,
    table: Seq<AdvFieldView>,
    i: int,
)
    requires
        0 <= i,
        same_but(v, w, h, d),
        agree(p, q),
    ensures
        resolved_keys(map, p, s, v, table, i).0 == resolved_keys(map, q, s, w, table, i).0,
        agree(resolved_keys(map, p, s, v, table, i).1, resolved_keys(map, q, s, w, table, i).1),
    decreases table.len() - i,
{
    if i < table.len() {
        if dut_owned(table[i].key) {
            lemma_top_keys(map, p, q, s, v, w, h, d, table, i + 1);
        } else {
            let key = KeyView::Advanced(table[i].key);
            assert(typed_value(v, key) == typed_value(w, key));
            let (m, p2) = resolved_key(map, p, s, v, table[i]);
            let (_, q2) = resolved_key(map, q, s, w, table[i]);
            lemma_top_keys(m, p2, q2, s, v, w, h, d, table, i + 1);
        }
    }
}

} // verus!

//! What becomes of what was typed into a form.
use crate::advanced::{advanced_table, dut_owned, literal_of, AdvFieldView, EmptyMeans};
use crate::answers::{DutAnswersView, HostAnswersView};
use crate::defaults::{dut_or_unknown, host_or_unknown};
use crate::fields::at_least_one;
use crate::form::{
    dut_advanced_group_of, typed_names, typed_value, FieldView, FragView, KeyView, Typed,
};
use crate::number::{decimal, lemma_decimal_round_trip};
use crate::resolve::{
    counted_or, resolved, resolved_dut, resolved_dut_key, resolved_dut_keys, resolved_duts,
    resolved_host, resolved_hosts, resolved_key, resolved_keys, start_of, NamePolicy, ProgressView,
};
use crate::schema::{DutDefaultsView, HostDefaultsView, SchemaView};
use crate::text::{or_empty, trimmed};
use crate::text_map::{lemma_lookup_put, lookup, put, Pairs};
use vstd::prelude::*;

verus! {

/// What was typed into a field, without the white space around it; nothing where
/// nothing was.
pub open spec fn typed_text(v: Typed, key: KeyView) -> Seq<char> {
    match typed_value(v, key) {
        Some(t) => trimmed(t),
        None => Seq::empty(),
    }
}

/// Whether something was typed into a field.
pub open spec fn is_typed(v: Typed, key: KeyView) -> bool {
    typed_text(v, key).len() > 0
}

proof fn lemma_hosts_resolved(
    before: Seq<HostAnswersView>,
    p: ProgressView,
    s: SchemaView,
    v: Typed,
    policy: NamePolicy,
    h: int,
    n: int,
    k: int,
) -> (q: ProgressView)
    requires
        0 <= h <= n,
        before.len() == h,
        0 <= k < n,
    ensures
        resolved_hosts(before, p, s, v, policy, h, n).0.len() == n,
        k < h ==> resolved_hosts(before, p, s, v, policy, h, n).0[k] == before[k],
        k >= h ==> resolved_hosts(before, p, s, v, policy, h, n).0[k] == resolved_host(
            q,
            s,
            v,
            policy,
            k as usize,
        ).0,
    decreases n - h,
{
    if h < n {
        let (a, r) = resolved_host(p, s, v, policy, h as usize);
        let q = lemma_hosts_resolved(before.push(a), r, s, v, policy, h + 1, n, k);
        if k == h {
            p
        } else {
            q
        }
    } else {
        p
    }
}

proof fn lemma_hosts_count(
    before: Seq<HostAnswersView>,
    p: ProgressView,
    s: SchemaView,
    v: Typed,
    policy: NamePolicy,
    h: int,
    n: int,
)
    requires
        0 <= h <= n,
        before.len() == h,
    ensures
        resolved_hosts(before, p, s, v, policy, h, n).0.len() == n,
    decreases n - h,
{
    if h < n {
        let (a, r) = resolved_host(p, s, v, policy, h as usize);
        lemma_hosts_count(before.push(a), r, s, v, policy, h + 1, n);
    }
}

proof fn lemma_duts_resolved(
    before: Seq<DutAnswersView>,
    p: ProgressView,
    s: SchemaView,
    v: Typed,
    policy: NamePolicy,
    h: usize,
    known: HostDefaultsView,
    d: int,
    n: int,
    k: int,
) -> (q: ProgressView)
    requires
        0 <= d <= n,
        before.len() == d,
        0 <= k < n,
    ensures
        k < d ==> resolved_duts(before, p, s, v, policy, h, known, d, n).0[k] == before[k],
        k >= d ==> resolved_duts(before, p, s, v, policy, h, known, d, n).0[k] == resolved_dut(
            q,
            s,
            v,
            policy,
            h,
            k as usize,
            dut_or_unknown(known, k),
        ).0,
    decreases n - d,
{
    if d < n {
        let (a, r) = resolved_dut(p, s, v, policy, h, d as usize, dut_or_unknown(known, d));
        let q = lemma_duts_resolved(before.push(a), r, s, v, policy, h, known, d + 1, n, k);
        if k == d {
            p
        } else {
            q
        }
    } else {
        p
    }
}

proof fn lemma_duts_count(
    before: Seq<DutAnswersView>,
    p: ProgressView,
    s: SchemaView,
    v: Typed,
    policy: NamePolicy,
    h: usize,
    known: HostDefaultsView,
    d: int,
    n: int,
)
    requires
        0 <= d <= n,
        before.len() == d,
    ensures
        resolved_duts(before, p, s, v, policy, h, known, d, n).0.len() == n,
    decreases n - d,
{
    if d < n {
        let (a, r) = resolved_dut(p, s, v, policy, h, d as usize, dut_or_unknown(known, d));
        lemma_duts_count(before.push(a), r, s, v, policy, h, known, d + 1, n);
    }
}

/// There are as many hosts as was typed, and as many as the form offers where
/// nothing was.
pub proof fn lemma_hosts_as_typed(s: SchemaView, v: Typed, gate: bool, policy: NamePolicy, n: nat)
    ensures
        typed_text(v, KeyView::HostCount) == decimal(n) && n <= usize::MAX ==> resolved(
            s,
            v,
            gate,
            policy,
        ).0.hosts.len() == n,
        !is_typed(v, KeyView::HostCount) ==> resolved(s, v, gate, policy).0.hosts.len()
            == s.host_count_default,
{
    if n <= usize::MAX {
        crate::kept::lemma_unsigned_decimal(n, usize::MAX as nat);
        lemma_decimal_round_trip(n);
    }
    let (m, p) = counted_or(
        start_of(s, v),
        KeyView::HostCount,
        typed_value(v, KeyView::HostCount),
        s.host_count_default,
    );
    lemma_hosts_count(Seq::empty(), p, s, v, policy, 0, m as int);
}

/// What was typed of a host is answered, field by field; where nothing was typed
/// the answer is what is known of the host. It has as many boards as was typed.
pub proof fn lemma_host_as_typed(
    s: SchemaView,
    v: Typed,
    gate: bool,
    policy: NamePolicy,
    h: usize,
    n: nat,
)
    requires
        h < resolved(s, v, gate, policy).0.hosts.len(),
    ensures
        ({
            let q = resolved(s, v, gate, policy).0.hosts[h as int];
            let known = host_or_unknown(s, h as int);
            &&& q.ip == (if is_typed(v, KeyView::HostIp(h)) {
                typed_text(v, KeyView::HostIp(h))
            } else {
                or_empty(known.ip)
            })
            &&& q.user == (if is_typed(v, KeyView::HostUser(h)) {
                typed_text(v, KeyView::HostUser(h))
            } else {
                or_empty(known.user)
            })
            &&& q.pass == (if is_typed(v, KeyView::HostPass(h)) {
                typed_text(v, KeyView::HostPass(h))
            } else {
                or_empty(known.pass)
            })
            &&& q.host_name == (if is_typed(v, KeyView::HostName(h)) {
                typed_text(v, KeyView::HostName(h))
            } else {
                or_empty(known.host_name)
            })
            &&& typed_text(v, KeyView::DutCount(h)) == decimal(n) && n <= usize::MAX
                ==> q.duts.len() == n
            &&& !is_typed(v, KeyView::DutCount(h)) ==> q.duts.len() == (if known.dut_count == 0 {
                1
            } else {
                known.dut_count as nat
            })
        }),
{
    let r = lemma_host_comes(s, v, gate, policy, h);
    let known = host_or_unknown(s, h as int);
    if n <= usize::MAX {
        crate::kept::lemma_unsigned_decimal(n, usize::MAX as nat);
        lemma_decimal_round_trip(n);
    }
    let (ip, p1) = crate::resolve::required_of(
        r,
        KeyView::HostIp(h),
        typed_value(v, KeyView::HostIp(h)),
        known.ip,
    );
    let (m, p2) = counted_or(
        p1,
        KeyView::DutCount(h),
        typed_value(v, KeyView::DutCount(h)),
        at_least_one(known.dut_count),
    );
    lemma_duts_count(Seq::empty(), p2, s, v, policy, h, known, 0, m as int);
    if !is_typed(v, KeyView::HostIp(h)) && or_empty(known.ip).len() == 0 {
        assert(or_empty(known.ip) =~= Seq::<char>::empty());
    }
}

proof fn lemma_host_comes(s: SchemaView, v: Typed, gate: bool, policy: NamePolicy, h: usize) -> (q:
    ProgressView)
    requires
        h < resolved(s, v, gate, policy).0.hosts.len(),
    ensures
        resolved(s, v, gate, policy).0.hosts[h as int] == resolved_host(q, s, v, policy, h).0,
{
    let (m, p) = counted_or(
        start_of(s, v),
        KeyView::HostCount,
        typed_value(v, KeyView::HostCount),
        s.host_count_default,
    );
    lemma_hosts_count(Seq::empty(), p, s, v, policy, 0, m as int);
    lemma_hosts_resolved(Seq::empty(), p, s, v, policy, 0, m as int, h as int)
}

/// Whether a relay question is answered by what was typed: the text where it can
/// be taken, and nothing where nothing was typed.
pub open spec fn taken_as_typed(
    v: Typed,
    key: KeyView,
    advanced_key: Seq<char>,
    answer: Seq<char>,
) -> bool {
    &&& is_typed(v, key) && literal_of(advanced_key, typed_text(v, key)) is Ok ==> answer
        == typed_text(v, key)
    &&& !is_typed(v, key) ==> answer.len() == 0
}

/// What was typed of a board is answered, field by field, and nothing of one
/// field goes into the answer to another. A board without a relay has no answers
/// about one.
pub proof fn lemma_board_as_typed(
    s: SchemaView,
    v: Typed,
    gate: bool,
    policy: NamePolicy,
    h: usize,
    d: usize,
)
    requires
        h < resolved(s, v, gate, policy).0.hosts.len(),
        d < resolved(s, v, gate, policy).0.hosts[h as int].duts.len(),
    ensures
        ({
            let q = resolved(s, v, gate, policy).0.hosts[h as int].duts[d as int];
            let known = dut_or_unknown(host_or_unknown(s, h as int), d as int);
            &&& q.serial_port == (if is_typed(v, KeyView::DutPort(h, d)) {
                typed_text(v, KeyView::DutPort(h, d))
            } else {
                or_empty(known.serial_port)
            })
            &&& q.login_user == (if is_typed(v, KeyView::DutLoginUser(h, d)) {
                typed_text(v, KeyView::DutLoginUser(h, d))
            } else {
                crate::defaults::text_or(known.login_user, "root"@)
            })
            &&& !is_typed(v, KeyView::DutRelayGate(h, d)) ==> q.relay_gate == known.relay_gate
            &&& q.relay_gate ==> {
                &&& is_typed(v, KeyView::DutRelayType(h, d)) ==> q.relay_type == typed_text(
                    v,
                    KeyView::DutRelayType(h, d),
                )
                &&& taken_as_typed(v, KeyView::DutRelayPort(h, d), "relay.port"@, q.relay_port)
                &&& taken_as_typed(
                    v,
                    KeyView::DutRelayReset(h, d),
                    "relay.reset_ch"@,
                    q.relay_reset_ch,
                )
                &&& taken_as_typed(
                    v,
                    KeyView::DutRelayDownload(h, d),
                    "relay.download_ch"@,
                    q.relay_download_ch,
                )
                &&& taken_as_typed(
                    v,
                    KeyView::DutRelayPower(h, d),
                    "relay.power_ch"@,
                    q.relay_power_ch,
                )
                &&& taken_as_typed(
                    v,
                    KeyView::DutRelayResetTimeMs(h, d),
                    "relay.reset_time_ms"@,
                    q.relay_reset_time_ms,
                )
                &&& is_typed(v, KeyView::DutRelayPowerOffTimeMs(h, d)) && literal_of(
                    "relay.power_off_time_ms"@,
                    typed_text(v, KeyView::DutRelayPowerOffTimeMs(h, d)),
                ) is Ok ==> q.relay_power_off_time_ms == typed_text(
                    v,
                    KeyView::DutRelayPowerOffTimeMs(h, d),
                )
            }
            &&& !q.relay_gate ==> q.relay_type.len() == 0 && q.relay_port.len() == 0
                && q.relay_reset_ch.len() == 0 && q.relay_download_ch.len() == 0
                && q.relay_power_ch.len() == 0 && q.relay_reset_time_ms.len() == 0
                && q.relay_power_off_time_ms.len() == 0
        }),
{
    let q = resolved(s, v, gate, policy).0.hosts[h as int].duts[d as int];
    let known = dut_or_unknown(host_or_unknown(s, h as int), d as int);
    let r = lemma_board_comes(s, v, gate, policy, h, d);
    assert(q == resolved_dut(r, s, v, policy, h, d, known).0);
    lemma_board_resolved(r, s, v, policy, h, d, known);
}

proof fn lemma_board_comes(
    s: SchemaView,
    v: Typed,
    gate: bool,
    policy: NamePolicy,
    h: usize,
    d: usize,
) -> (q: ProgressView)
    requires
        h < resolved(s, v, gate, policy).0.hosts.len(),
        d < resolved(s, v, gate, policy).0.hosts[h as int].duts.len(),
    ensures
        resolved(s, v, gate, policy).0.hosts[h as int].duts[d as int] == resolved_dut(
            q,
            s,
            v,
            policy,
            h,
            d,
            dut_or_unknown(host_or_unknown(s, h as int), d as int),
        ).0,
{
    let r = lemma_host_comes(s, v, gate, policy, h);
    let known = host_or_unknown(s, h as int);
    let (ip, p1) = crate::resolve::required_of(
        r,
        KeyView::HostIp(h),
        typed_value(v, KeyView::HostIp(h)),
        known.ip,
    );
    let (m, p2) = counted_or(
        p1,
        KeyView::DutCount(h),
        typed_value(v, KeyView::DutCount(h)),
        at_least_one(known.dut_count),
    );
    lemma_duts_count(Seq::empty(), p2, s, v, policy, h, known, 0, m as int);
    lemma_duts_resolved(Seq::empty(), p2, s, v, policy, h, known, 0, m as int, d as int)
}

proof fn lemma_board_resolved(
    r: ProgressView,
    s: SchemaView,
    v: Typed,
    policy: NamePolicy,
    h: usize,
    d: usize,
    known: DutDefaultsView,
)
    ensures
        ({
            let q = resolved_dut(r, s, v, policy, h, d, known).0;
            &&& q.serial_port == (if is_typed(v, KeyView::DutPort(h, d)) {
                typed_text(v, KeyView::DutPort(h, d))
            } else {
                or_empty(known.serial_port)
            })
            &&& q.login_user == (if is_typed(v, KeyView::DutLoginUser(h, d)) {
                typed_text(v, KeyView::DutLoginUser(h, d))
            } else {
                crate::defaults::text_or(known.login_user, "root"@)
            })
            &&& !is_typed(v, KeyView::DutRelayGate(h, d)) ==> q.relay_gate == known.relay_gate
            &&& q.relay_gate ==> {
                &&& is_typed(v, KeyView::DutRelayType(h, d)) ==> q.relay_type == typed_text(
                    v,
                    KeyView::DutRelayType(h, d),
                )
                &&& taken_as_typed(v, KeyView::DutRelayPort(h, d), "relay.port"@, q.relay_port)
                &&& taken_as_typed(
                    v,
                    KeyView::DutRelayReset(h, d),
                    "relay.reset_ch"@,
                    q.relay_reset_ch,
                )
                &&& taken_as_typed(
                    v,
                    KeyView::DutRelayDownload(h, d),
                    "relay.download_ch"@,
                    q.relay_download_ch,
                )
                &&& taken_as_typed(
                    v,
                    KeyView::DutRelayPower(h, d),
                    "relay.power_ch"@,
                    q.relay_power_ch,
                )
                &&& taken_as_typed(
                    v,
                    KeyView::DutRelayResetTimeMs(h, d),
                    "relay.reset_time_ms"@,
                    q.relay_reset_time_ms,
                )
                &&& is_typed(v, KeyView::DutRelayPowerOffTimeMs(h, d)) && literal_of(
                    "relay.power_off_time_ms"@,
                    typed_text(v, KeyView::DutRelayPowerOffTimeMs(h, d)),
                ) is Ok ==> q.relay_power_off_time_ms == typed_text(
                    v,
                    KeyView::DutRelayPowerOffTimeMs(h, d),
                )
            }
            &&& !q.relay_gate ==> q.relay_type.len() == 0 && q.relay_port.len() == 0
                && q.relay_reset_ch.len() == 0 && q.relay_download_ch.len() == 0
                && q.relay_power_ch.len() == 0 && q.relay_reset_time_ms.len() == 0
                && q.relay_power_off_time_ms.len() == 0
        }),
{
    reveal_strlit("0");
    if !is_typed(v, KeyView::DutPort(h, d)) && or_empty(known.serial_port).len() == 0 {
        assert(or_empty(known.serial_port) =~= Seq::<char>::empty());
    }
}

// ── Advanced keys ────────────────────────────────────────────────────
/// Whether an advanced key of a board was typed and can be taken.
pub open spec fn key_is_taken(v: Typed, h: usize, d: usize, k: Seq<char>) -> bool {
    is_typed(v, KeyView::DutAdvanced(h, d, k)) && literal_of(
        k,
        typed_text(v, KeyView::DutAdvanced(h, d, k)),
    ) is Ok
}

proof fn lemma_dut_keys_resolved(
    map: Pairs,
    p: ProgressView,
    s: SchemaView,
    v: Typed,
    h: usize,
    d: usize,
    fields: Seq<FieldView>,
    i: int,
    k: Seq<char>,
)
    requires
        0 <= i <= fields.len(),
        key_is_taken(v, h, d, k),
        lookup(map, k) == Some(typed_text(v, KeyView::DutAdvanced(h, d, k))) || exists|j: int|
            i <= j < fields.len() && (#[trigger] fields[j]).key == FragView::DutAdvanced(k),
    ensures
        lookup(resolved_dut_keys(map, p, s, v, h, d, fields, i).0, k) == Some(
            typed_text(v, KeyView::DutAdvanced(h, d, k)),
        ),
    decreases fields.len() - i,
{
    if i < fields.len() {
        match fields[i].key {
            FragView::DutAdvanced(other) => {
                let (m, q) = resolved_dut_key(map, p, s, v, h, d, other, fields[i].empty);
                lemma_dut_key_resolved(map, p, s, v, h, d, other, fields[i].empty, k);
                lemma_dut_keys_resolved(m, q, s, v, h, d, fields, i + 1, k);
            },
            _ => {
                lemma_dut_keys_resolved(map, p, s, v, h, d, fields, i + 1, k);
            },
        }
    }
}

proof fn lemma_dut_key_resolved(
    map: Pairs,
    p: ProgressView,
    s: SchemaView,
    v: Typed,
    h: usize,
    d: usize,
    other: Seq<char>,
    empty: EmptyMeans,
    k: Seq<char>,
)
    requires
        key_is_taken(v, h, d, k),
    ensures
        other == k ==> lookup(resolved_dut_key(map, p, s, v, h, d, other, empty).0, k) == Some(
            typed_text(v, KeyView::DutAdvanced(h, d, k)),
        ),
        other != k ==> lookup(resolved_dut_key(map, p, s, v, h, d, other, empty).0, k) == lookup(
            map,
            k,
        ),
{
    assert forall|x: Seq<char>| lookup(#[trigger] put(map, other, x), k) == (if k == other {
        Some(x)
    } else {
        lookup(map, k)
    }) by {
        lemma_lookup_put(map, other, x, k);
    }
}

/// What was typed for an advanced key of a board is answered under that key, and
/// under no other.
pub proof fn lemma_board_keys_as_typed(
    s: SchemaView,
    v: Typed,
    gate: bool,
    policy: NamePolicy,
    h: usize,
    d: usize,
    j: int,
    k: Seq<char>,
)
    requires
        h < resolved(s, v, gate, policy).0.hosts.len(),
        d < resolved(s, v, gate, policy).0.hosts[h as int].duts.len(),
        0 <= j < dut_advanced_group_of().fields.len(),
        dut_advanced_group_of().fields[j].key == FragView::DutAdvanced(k),
        key_is_taken(v, h, d, k),
    ensures
        lookup(resolved(s, v, gate, policy).0.hosts[h as int].duts[d as int].advanced, k) == Some(
            typed_text(v, KeyView::DutAdvanced(h, d, k)),
        ),
{
    let known = dut_or_unknown(host_or_unknown(s, h as int), d as int);
    let r = lemma_board_comes(s, v, gate, policy, h, d);
    lemma_advanced_comes(r, s, v, policy, h, d, known);
    let fields = dut_advanced_group_of().fields;
    assert forall|p: ProgressView| lookup(
        (#[trigger] resolved_dut_keys(Pairs::empty(), p, s, v, h, d, fields, 0)).0,
        k,
    ) == Some(typed_text(v, KeyView::DutAdvanced(h, d, k))) by {
        assert(fields[j].key == FragView::DutAdvanced(k));
        lemma_dut_keys_resolved(Pairs::empty(), p, s, v, h, d, fields, 0, k);
    }
}

proof fn lemma_advanced_comes(
    r: ProgressView,
    s: SchemaView,
    v: Typed,
    policy: NamePolicy,
    h: usize,
    d: usize,
    known: DutDefaultsView,
)
    ensures
        exists|p: ProgressView|
            resolved_dut(r, s, v, policy, h, d, known).0.advanced == (
            #[trigger] resolved_dut_keys(
                Pairs::empty(),
                p,
                s,
                v,
                h,
                d,
                dut_advanced_group_of().fields,
                0,
            )).0,
{
    let q = resolved_dut(r, s, v, policy, h, d, known).0;
    let (name, p1) = crate::resolve::resolved_name(
        r,
        KeyView::DutName(h, d),
        typed_value(v, KeyView::DutName(h, d)),
        known.dut_name,
        typed_names(v, v.len() as int),
        s.taken_duts,
        policy,
    );
    let (port, p2) = crate::resolve::port_of(
        p1,
        KeyView::DutPort(h, d),
        typed_value(v, KeyView::DutPort(h, d)),
        known.serial_port,
    );
    let (on, p3) = crate::resolve::relay_gate_of(
        p2,
        KeyView::DutRelayGate(h, d),
        typed_value(v, KeyView::DutRelayGate(h, d)),
        known.relay_gate,
    );
    let p4 = if on {
        crate::resolve::resolved_relay(p3, v, h, d, known).1
    } else {
        p3
    };
    assert(q.advanced == resolved_dut_keys(
        Pairs::empty(),
        p4,
        s,
        v,
        h,
        d,
        dut_advanced_group_of().fields,
        0,
    ).0);
}

/// Whether an advanced key of the top level was typed and can be taken.
pub open spec fn top_key_is_taken(v: Typed, k: Seq<char>) -> bool {
    is_typed(v, KeyView::Advanced(k)) && literal_of(k, typed_text(v, KeyView::Advanced(k))) is Ok
}

proof fn lemma_keys_resolved(
    map: Pairs,
    p: ProgressView,
    s: SchemaView,
    v: Typed,
    table: Seq<AdvFieldView>,
    i: int,
    k: Seq<char>,
)
    requires
        0 <= i <= table.len(),
        top_key_is_taken(v, k),
        !dut_owned(k),
        lookup(map, k) == Some(typed_text(v, KeyView::Advanced(k))) || exists|j: int|
            i <= j < table.len() && (#[trigger] table[j]).key == k,
    ensures
        lookup(resolved_keys(map, p, s, v, table, i).0, k) == Some(
            typed_text(v, KeyView::Advanced(k)),
        ),
    decreases table.len() - i,
{
    if i < table.len() {
        if dut_owned(table[i].key) {
            lemma_keys_resolved(map, p, s, v, table, i + 1, k);
        } else {
            let other = table[i].key;
            let (m, q) = resolved_key(map, p, s, v, table[i]);
            assert forall|x: Seq<char>| lookup(#[trigger] put(map, other, x), k) == (if k == other {
                Some(x)
            } else {
                lookup(map, k)
            }) by {
                lemma_lookup_put(map, other, x, k);
            }
            lemma_keys_resolved(m, q, s, v, table, i + 1, k);
        }
    }
}

/// What was typed for an advanced key of the top level is answered under that
/// key, where those keys are asked for; otherwise none of them is answered.
pub proof fn lemma_top_keys_as_typed(
    s: SchemaView,
    v: Typed,
    policy: NamePolicy,
    j: int,
    k: Seq<char>,
)
    requires
        0 <= j < advanced_table().len(),
        advanced_table()[j].key == k,
        !dut_owned(k),
        top_key_is_taken(v, k),
    ensures
        lookup(resolved(s, v, true, policy).0.advanced, k) == Some(
            typed_text(v, KeyView::Advanced(k)),
        ),
        resolved(s, v, false, policy).0.advanced.len() == 0,
{
    let table = advanced_table();
    assert forall|p: ProgressView| lookup(
        (#[trigger] resolved_keys(Pairs::empty(), p, s, v, table, 0)).0,
        k,
    ) == Some(typed_text(v, KeyView::Advanced(k))) by {
        assert(table[j].key == k);
        lemma_keys_resolved(Pairs::empty(), p, s, v, table, 0, k);
    }
}

} // verus!

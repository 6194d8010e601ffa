//! What is answered where nobody is asked.
use crate::answers::{DutAnswersView, HostAnswersView};
use crate::defaults::{
    default_answers, default_dut, default_duts, default_host, default_hosts, default_name,
    dut_or_unknown, host_or_unknown, text_or, with_name,
};
use crate::fields::at_least_one;
use crate::schema::{DutDefaultsView, HostDefaultsView, SchemaView};
use crate::text::or_empty;
use vstd::prelude::*;

verus! {

/// Whether the answers about a board are what is known of it; what is not known
/// is answered by nothing, the user by `root`, and of a relay, where there is
/// one, the type by `ch340` and the time without power by three seconds.
pub open spec fn board_as_known(q: DutAnswersView, known: DutDefaultsView) -> bool {
    &&& or_empty(known.dut_name).len() > 0 ==> q.dut_name == or_empty(known.dut_name)
    &&& q.serial_port == or_empty(known.serial_port)
    &&& q.login_user == text_or(known.login_user, "root"@)
    &&& q.relay_gate == known.relay_gate
    &&& known.relay_gate ==> {
        &&& q.relay_type == text_or(known.relay_type, "ch340"@)
        &&& q.relay_port == or_empty(known.relay_port)
        &&& q.relay_reset_ch == or_empty(known.relay_reset_ch)
        &&& q.relay_download_ch == or_empty(known.relay_download_ch)
        &&& q.relay_power_ch == or_empty(known.relay_power_ch)
        &&& q.relay_reset_time_ms == or_empty(known.relay_reset_time_ms)
        &&& q.relay_power_off_time_ms == text_or(known.relay_power_off_time_ms, "3000"@)
    }
    &&& !known.relay_gate ==> q.relay_type.len() == 0 && q.relay_port.len() == 0
        && q.relay_reset_ch.len() == 0 && q.relay_download_ch.len() == 0 && q.relay_power_ch.len()
        == 0 && q.relay_reset_time_ms.len() == 0 && q.relay_power_off_time_ms.len() == 0
    &&& known.dut_name is Some ==> q.advanced == known.advanced
}

/// Whether the answers about a host are what is known of it.
pub open spec fn host_as_known(q: HostAnswersView, known: HostDefaultsView) -> bool {
    &&& q.ip == or_empty(known.ip)
    &&& q.user == or_empty(known.user)
    &&& q.pass == or_empty(known.pass)
    &&& q.host_name == or_empty(known.host_name)
    &&& q.duts.len() == (if known.dut_count == 0 {
        1
    } else {
        known.dut_count as nat
    })
    &&& forall|d: int|
        0 <= d < q.duts.len() ==> board_as_known(#[trigger] q.duts[d], dut_or_unknown(known, d))
}

proof fn lemma_default_duts(
    h: HostDefaultsView,
    taken: Seq<Seq<char>>,
    d: int,
    n: int,
    before: Seq<DutAnswersView>,
)
    requires
        0 <= d <= n,
        before.len() == d,
        forall|k: int|
            0 <= k < d ==> board_as_known(#[trigger] before[k], dut_or_unknown(h, k)),
    ensures
        default_duts(h, taken, d, n, before).0.len() == n,
        forall|k: int|
            0 <= k < n ==> board_as_known(
                #[trigger] default_duts(h, taken, d, n, before).0[k],
                dut_or_unknown(h, k),
            ),
    decreases n - d,
{
    if d < n {
        let known = dut_or_unknown(h, d);
        let name = default_name(known, taken);
        let a = default_dut(known, name);
        assert(board_as_known(a, known));
        lemma_default_duts(h, with_name(taken, name), d + 1, n, before.push(a));
    }
}

proof fn lemma_default_hosts(
    s: SchemaView,
    taken: Seq<Seq<char>>,
    h: int,
    n: int,
    before: Seq<HostAnswersView>,
)
    requires
        0 <= h <= n,
        before.len() == h,
        forall|k: int| 0 <= k < h ==> host_as_known(#[trigger] before[k], host_or_unknown(s, k)),
    ensures
        default_hosts(s, taken, h, n, before).len() == n,
        forall|k: int|
            0 <= k < n ==> host_as_known(
                #[trigger] default_hosts(s, taken, h, n, before)[k],
                host_or_unknown(s, k),
            ),
    decreases n - h,
{
    if h < n {
        let known = host_or_unknown(s, h);
        let m = at_least_one(known.dut_count) as int;
        let (duts, after) = default_duts(known, taken, 0, m, Seq::empty());
        lemma_default_duts(known, taken, 0, m, Seq::empty());
        assert(host_as_known(default_host(known, duts), known));
        lemma_default_hosts(s, after, h + 1, n, before.push(default_host(known, duts)));
    }
}

/// Where nobody is asked, every host and every board that is known is answered
/// as it is known, and there is one of them at least.
pub proof fn lemma_defaults_are_known(s: SchemaView)
    ensures
        default_answers(s).hosts.len() == (if s.host_count_default == 0 {
            1
        } else {
            s.host_count_default as nat
        }),
        forall|h: int|
            0 <= h < default_answers(s).hosts.len() ==> host_as_known(
                #[trigger] default_answers(s).hosts[h],
                host_or_unknown(s, h),
            ),
{
    lemma_default_hosts(
        s,
        s.taken_duts,
        0,
        at_least_one(s.host_count_default) as int,
        Seq::empty(),
    );
}

} // verus!

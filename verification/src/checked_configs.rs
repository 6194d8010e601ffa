//! Which configurations a server refuses.
use crate::config::{ConfigView, DutView, HostView, RelayView};
use crate::text::or_empty;
use crate::update_dut::port_now;
use crate::validate::{bad_dut_type, bad_host_type, bad_relay_type, bad_type, start_complaint};
use vstd::prelude::*;

verus! {

/// Whether a relay section names no type, or one of those that there are.
pub open spec fn type_known(o: Option<RelayView>) -> bool {
    o is None || o->0.relay_type is None || {
        let t = o->0.relay_type->0;
        t.len() == 0 || t == "ch340"@ || t == "ch340-relay"@ || t == "none"@ || t == "disabled"@
    }
}

proof fn lemma_type_known(o: Option<RelayView>)
    ensures
        type_known(o) <==> bad_type(o) is None,
        bad_type(o) is Some ==> bad_type(o) == o->0.relay_type,
{
    let all = crate::fields::relay_types();
    assert(all[0] == "ch340"@ && all[1] == "ch340-relay"@ && all[2] == "none"@ && all[3]
        == "disabled"@);
    if o is Some && o->0.relay_type is Some {
        let t = o->0.relay_type->0;
        if all.contains(t) {
            let i = choose|i: int| 0 <= i < all.len() && all[i] == t;
            assert(all[i] == t);
        }
    }
}

proof fn lemma_duts_known(v: Seq<DutView>, i: int)
    requires
        0 <= i <= v.len(),
    ensures
        bad_dut_type(v, i) is None <==> forall|k: int|
            i <= k < v.len() ==> type_known((#[trigger] v[k]).relay),
    decreases v.len() - i,
{
    if i < v.len() {
        lemma_type_known(v[i].relay);
        lemma_duts_known(v, i + 1);
    }
}

proof fn lemma_hosts_known(v: Seq<HostView>, i: int)
    requires
        0 <= i <= v.len(),
    ensures
        bad_host_type(v, i) is None <==> forall|h: int, d: int|
            i <= h < v.len() && 0 <= d < v[h].duts.len() ==> type_known(
                (#[trigger] v[h].duts[d]).relay,
            ),
    decreases v.len() - i,
{
    if i < v.len() {
        lemma_duts_known(v[i].duts, 0);
        lemma_hosts_known(v, i + 1);
        if bad_host_type(v, i) is None {
            assert forall|h: int, d: int|
                i <= h < v.len() && 0 <= d < v[h].duts.len() implies type_known(
                (#[trigger] v[h].duts[d]).relay,
            ) by {
                if h == i {
                    assert(type_known(v[i].duts[d].relay));
                }
            }
        } else if forall|h: int, d: int|
            i <= h < v.len() && 0 <= d < v[h].duts.len() ==> type_known(
                (#[trigger] v[h].duts[d]).relay,
            ) {
            assert forall|k: int| 0 <= k < v[i].duts.len() implies type_known(
                (#[trigger] v[i].duts[k]).relay,
            ) by {}
        }
    }
}

/// A configuration passes when the relay of the top level and that of every
/// board of every host is of a type that there is, and not otherwise.
pub proof fn lemma_known_relays_pass(c: ConfigView)
    ensures
        bad_relay_type(c) is None <==> type_known(c.relay) && forall|h: int, d: int|
            0 <= h < c.dev_hosts.len() && 0 <= d < c.dev_hosts[h].duts.len() ==> type_known(
                (#[trigger] c.dev_hosts[h].duts[d]).relay,
            ),
        !type_known(c.relay) ==> bad_relay_type(c) == c.relay->0.relay_type,
{
    lemma_type_known(c.relay);
    lemma_hosts_known(c.dev_hosts, 0);
}

/// A server can start exactly when the first host has an address and its first
/// board a port that is not zero; it looks at nothing else.
pub proof fn lemma_what_a_start_needs(c: ConfigView)
    ensures
        start_complaint(c) is None <==> {
            &&& c.dev_hosts.len() > 0
            &&& or_empty(c.dev_hosts[0].ip).len() > 0
            &&& c.dev_hosts[0].duts.len() > 0
            &&& or_empty(port_now(c.dev_hosts[0].duts[0])).len() > 0
            &&& or_empty(port_now(c.dev_hosts[0].duts[0])) != "0"@
        },
        c.dev_hosts.len() > 0 && or_empty(c.dev_hosts[0].ip).len() > 0 && start_complaint(c) is Some
            ==> start_complaint(c) == Some("serial.port not set. Edit .target.jsonc"@),
{
}

} // verus!

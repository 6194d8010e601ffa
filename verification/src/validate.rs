//! What a configuration may say before it is put in force.
use crate::config::{
    duts_view, hosts_view, strs, ConfigView, DutView, HostView, JsoncDevHost, JsoncDut, JsoncRelay,
    RelayView, TargetJsoncConfig,
};
use crate::fields::{relay_types, supported_relay_types};
use crate::text::{opt_text, or_empty, owned, same, text_or_empty};
use crate::update_dut::{port_now, relay_view};
use vstd::prelude::*;

verus! {

/// The relay type of a section if there is no such relay. An empty type is
/// none.
pub open spec fn bad_type(o: Option<RelayView>) -> Option<Seq<char>> {
    match o {
        Some(r) => match r.relay_type {
            Some(t) => if t.len() > 0 && !relay_types().contains(t) {
                Some(t)
            } else {
                None
            },
            None => None,
        },
        None => None,
    }
}

/// The first such type among the boards from number `i` on.
pub open spec fn bad_dut_type(duts: Seq<DutView>, i: int) -> Option<Seq<char>>
    decreases duts.len() - i,
{
    if i < 0 || i >= duts.len() {
        None
    } else if bad_type(duts[i].relay) is Some {
        bad_type(duts[i].relay)
    } else {
        bad_dut_type(duts, i + 1)
    }
}

/// The first such type among the hosts from number `i` on.
pub open spec fn bad_host_type(hosts: Seq<HostView>, i: int) -> Option<Seq<char>>
    decreases hosts.len() - i,
{
    if i < 0 || i >= hosts.len() {
        None
    } else if bad_dut_type(hosts[i].duts, 0) is Some {
        bad_dut_type(hosts[i].duts, 0)
    } else {
        bad_host_type(hosts, i + 1)
    }
}

/// The first such type of a configuration: that of the top-level section, or
/// that of a board.
pub open spec fn bad_relay_type(c: ConfigView) -> Option<Seq<char>> {
    if bad_type(c.relay) is Some {
        bad_type(c.relay)
    } else {
        bad_host_type(c.dev_hosts, 0)
    }
}

/// The complaint about a relay type.
pub open spec fn unsupported_type(t: Seq<char>) -> Seq<char> {
    "unsupported relay.type '"@ + t + "'"@
}

/// The error in a result.
pub open spec fn complaint(r: Result<(), String>) -> Option<Seq<char>> {
    match r {
        Ok(_) => None,
        Err(e) => Some(e@),
    }
}

/// The complaint about a relay type that is none.
pub open spec fn complaint_about(t: Option<Seq<char>>) -> Option<Seq<char>> {
    match t {
        Some(t) => Some(unsupported_type(t)),
        None => None,
    }
}

fn is_supported(t: &str) -> (r: bool)
    ensures
        r == relay_types().contains(t@),
{
    let types = supported_relay_types();
    let ghost all = strs(types@);
    let mut i: usize = 0;
    while i < types.len()
        invariant
            i <= types.len(),
            all == strs(types@),
            all == relay_types(),
            forall|k: int| 0 <= k < i ==> all[k] != t@,
        decreases types.len() - i,
    {
        assert(all[i as int] == types@[i as int]@);
        if same(types[i], t) {
            return true;
        }
        i += 1;
    }
    false
}

fn check_relay(o: &Option<JsoncRelay>) -> (r: Result<(), String>)
    ensures
        complaint(r) == complaint_about(bad_type(relay_view(*o))),
{
    match o {
        Some(x) => match &x.relay_type {
            Some(t) => {
                if t.as_str().is_empty() || is_supported(t.as_str()) {
                    Ok(())
                } else {
                    let mut e = owned("unsupported relay.type '");
                    e.append(t.as_str());
                    e.append("'");
                    Err(e)
                }
            },
            None => Ok(()),
        },
        None => Ok(()),
    }
}

fn check_duts(duts: &Vec<JsoncDut>) -> (r: Result<(), String>)
    ensures
        complaint(r) == complaint_about(bad_dut_type(duts_view(duts@), 0)),
{
    let ghost v = duts_view(duts@);
    let mut i: usize = 0;
    while i < duts.len()
        invariant
            i <= duts.len(),
            v == duts_view(duts@),
            bad_dut_type(v, i as int) == bad_dut_type(v, 0),
        decreases duts.len() - i,
    {
        assert(v[i as int] == duts@[i as int]@);
        match check_relay(&duts[i].relay) {
            Ok(_) => {},
            Err(e) => {
                return Err(e);
            },
        }
        i += 1;
    }
    Ok(())
}

fn check_hosts(hosts: &Vec<JsoncDevHost>) -> (r: Result<(), String>)
    ensures
        complaint(r) == complaint_about(bad_host_type(hosts_view(hosts@), 0)),
{
    let ghost v = hosts_view(hosts@);
    let mut i: usize = 0;
    while i < hosts.len()
        invariant
            i <= hosts.len(),
            v == hosts_view(hosts@),
            bad_host_type(v, i as int) == bad_host_type(v, 0),
        decreases hosts.len() - i,
    {
        assert(v[i as int] == hosts@[i as int]@);
        match check_duts(&hosts[i].duts) {
            Ok(_) => {},
            Err(e) => {
                return Err(e);
            },
        }
        i += 1;
    }
    Ok(())
}

/// Refuses a configuration with a relay of a type that there is not.
pub fn check_relay_types(config: &TargetJsoncConfig) -> (r: Result<(), String>)
    ensures
        complaint(r) == complaint_about(bad_relay_type(config@)),
{
    match check_relay(&config.relay) {
        Ok(_) => check_hosts(&config.dev_hosts),
        Err(e) => Err(e),
    }
}

// ── The first endpoint ───────────────────────────────────────────────
/// The address of the first host, or nothing.
pub open spec fn first_ip(c: ConfigView) -> Seq<char> {
    if c.dev_hosts.len() > 0 {
        or_empty(c.dev_hosts[0].ip)
    } else {
        Seq::empty()
    }
}

/// The port of the first board of the first host, or nothing.
pub open spec fn first_port(c: ConfigView) -> Seq<char> {
    if c.dev_hosts.len() > 0 && c.dev_hosts[0].duts.len() > 0 {
        or_empty(port_now(c.dev_hosts[0].duts[0]))
    } else {
        Seq::empty()
    }
}

/// The address and the port of the first board.
pub fn first_endpoint(config: &TargetJsoncConfig) -> (r: (String, String))
    ensures
        r.0@ == first_ip(config@),
        r.1@ == first_port(config@),
{
    if config.dev_hosts.len() == 0 {
        return (String::new(), String::new());
    }
    let host = &config.dev_hosts[0];
    assert(config@.dev_hosts[0] == host@);
    let ip = text_or_empty(&host.ip);
    if host.duts.len() == 0 {
        return (ip, String::new());
    }
    let dut = &host.duts[0];
    assert(host@.duts[0] == dut@);
    let port = match &dut.serial {
        Some(x) => match &x.port {
            Some(p) => p.to_value_string(),
            None => String::new(),
        },
        None => String::new(),
    };
    assert(port@ =~= or_empty(port_now(dut@)));
    (ip, port)
}

/// What keeps a server from starting with a configuration: no address, or no
/// port but zero.
pub open spec fn start_complaint(c: ConfigView) -> Option<Seq<char>> {
    if first_ip(c).len() == 0 {
        Some("dev_host.ip not set. Edit .target.jsonc"@)
    } else if first_port(c).len() == 0 || first_port(c) == "0"@ {
        Some("serial.port not set. Edit .target.jsonc"@)
    } else {
        None
    }
}

/// What keeps a server from starting with a configuration.
pub fn dry_run_complaint(config: &TargetJsoncConfig) -> (r: Option<String>)
    ensures
        opt_text(r) == start_complaint(config@),
{
    let (ip, port) = first_endpoint(config);
    if ip.as_str().is_empty() {
        Some(owned("dev_host.ip not set. Edit .target.jsonc"))
    } else if port.as_str().is_empty() || same(port.as_str(), "0") {
        Some(owned("serial.port not set. Edit .target.jsonc"))
    } else {
        None
    }
}

} // verus!

//! What the form shows: its defaults, taken from an existing configuration.
use crate::config::{ConfigView, DutView, HostView, JsoncDevHost, JsoncDut, TargetJsoncConfig};
use crate::current::{
    advanced_current, current_of, dut_advanced_current, dut_current_of, scalar_now,
};
use crate::number::{decimal, decimal_text};
use crate::options::InitOptions;
use crate::text::{copy_opt, lemma_texts_push, opt_text, owned, texts};
use crate::text_map::{Pairs, TextMap};
use crate::update_dut::{channel_now, time_now};
use vstd::prelude::*;

verus! {

/// Whether the advanced keys of the top-level sections are asked for.
#[derive(Clone, Copy, Debug, PartialEq, Eq, Structural)]
pub enum AdvancedGate {
    /// They are not.
    Skip,
    /// The user decides.
    Confirm { default: bool },
    /// They are.
    Forced,
}

/// What the answers are for.
#[derive(Debug, PartialEq)]
pub enum SchemaTarget {
    /// A new file.
    Create,
    /// A file that holds this configuration.
    Update(Box<TargetJsoncConfig>),
}

/// The meaning of a [`SchemaTarget`].
pub enum SchemaTargetView {
    Create,
    Update(ConfigView),
}

impl View for SchemaTarget {
    type V = SchemaTargetView;

    open spec fn view(&self) -> SchemaTargetView {
        match self {
            SchemaTarget::Create => SchemaTargetView::Create,
            SchemaTarget::Update(c) => SchemaTargetView::Update((**c)@),
        }
    }
}

/// What is known of a board.
#[derive(Debug, PartialEq)]
pub struct DutDefaults {
    pub dut_name: Option<String>,
    pub serial_port: Option<String>,
    pub login_user: Option<String>,
    /// Whether the board has a relay section.
    pub relay_gate: bool,
    pub relay_type: Option<String>,
    pub relay_port: Option<String>,
    pub relay_reset_ch: Option<String>,
    pub relay_download_ch: Option<String>,
    pub relay_power_ch: Option<String>,
    pub relay_reset_time_ms: Option<String>,
    pub relay_power_off_time_ms: Option<String>,
    /// The board's own advanced values.
    pub advanced: TextMap,
}

/// The meaning of [`DutDefaults`].
#[verifier::ext_equal]
pub struct DutDefaultsView {
    pub dut_name: Option<Seq<char>>,
    pub serial_port: Option<Seq<char>>,
    pub login_user: Option<Seq<char>>,
    pub relay_gate: bool,
    pub relay_type: Option<Seq<char>>,
    pub relay_port: Option<Seq<char>>,
    pub relay_reset_ch: Option<Seq<char>>,
    pub relay_download_ch: Option<Seq<char>>,
    pub relay_power_ch: Option<Seq<char>>,
    pub relay_reset_time_ms: Option<Seq<char>>,
    pub relay_power_off_time_ms: Option<Seq<char>>,
    pub advanced: Pairs,
}

impl View for DutDefaults {
    type V = DutDefaultsView;

    open spec fn view(&self) -> DutDefaultsView {
        DutDefaultsView {
            dut_name: opt_text(self.dut_name),
            serial_port: opt_text(self.serial_port),
            login_user: opt_text(self.login_user),
            relay_gate: self.relay_gate,
            relay_type: opt_text(self.relay_type),
            relay_port: opt_text(self.relay_port),
            relay_reset_ch: opt_text(self.relay_reset_ch),
            relay_download_ch: opt_text(self.relay_download_ch),
            relay_power_ch: opt_text(self.relay_power_ch),
            relay_reset_time_ms: opt_text(self.relay_reset_time_ms),
            relay_power_off_time_ms: opt_text(self.relay_power_off_time_ms),
            advanced: self.advanced@,
        }
    }
}

/// The meanings of what is known of some boards.
pub open spec fn dut_defaults_view(v: Seq<DutDefaults>) -> Seq<DutDefaultsView> {
    Seq::new(v.len(), |i: int| v[i]@)
}

/// What is known of a host.
#[derive(Debug, PartialEq)]
pub struct HostDefaults {
    pub ip: Option<String>,
    pub user: Option<String>,
    pub pass: Option<String>,
    pub host_name: Option<String>,
    pub dut_count: usize,
    pub duts: Vec<DutDefaults>,
}

/// The meaning of [`HostDefaults`].
#[verifier::ext_equal]
pub struct HostDefaultsView {
    pub ip: Option<Seq<char>>,
    pub user: Option<Seq<char>>,
    pub pass: Option<Seq<char>>,
    pub host_name: Option<Seq<char>>,
    pub dut_count: usize,
    pub duts: Seq<DutDefaultsView>,
}

impl View for HostDefaults {
    type V = HostDefaultsView;

    open spec fn view(&self) -> HostDefaultsView {
        HostDefaultsView {
            ip: opt_text(self.ip),
            user: opt_text(self.user),
            pass: opt_text(self.pass),
            host_name: opt_text(self.host_name),
            dut_count: self.dut_count,
            duts: dut_defaults_view(self.duts@),
        }
    }
}

/// The meanings of what is known of some hosts.
pub open spec fn host_defaults_view(v: Seq<HostDefaults>) -> Seq<HostDefaultsView> {
    Seq::new(v.len(), |i: int| v[i]@)
}

/// The form for one run.
#[derive(Debug, PartialEq)]
pub struct FormSchema {
    pub target: SchemaTarget,
    pub host_count_default: usize,
    /// The largest count that the form offers.
    pub host_count_max: usize,
    /// The board names that are already there.
    pub taken_duts: Vec<String>,
    pub host_defaults: Vec<HostDefaults>,
    pub advanced_gate: AdvancedGate,
    /// What the top-level sections hold, by advanced key.
    pub advanced_current: TextMap,
}

/// The meaning of a [`FormSchema`].
#[verifier::ext_equal]
pub struct SchemaView {
    pub target: SchemaTargetView,
    pub host_count_default: usize,
    pub host_count_max: usize,
    pub taken_duts: Seq<Seq<char>>,
    pub host_defaults: Seq<HostDefaultsView>,
    pub advanced_gate: AdvancedGate,
    pub advanced_current: Pairs,
}

impl View for FormSchema {
    type V = SchemaView;

    open spec fn view(&self) -> SchemaView {
        SchemaView {
            target: self.target@,
            host_count_default: self.host_count_default,
            host_count_max: self.host_count_max,
            taken_duts: texts(self.taken_duts@),
            host_defaults: host_defaults_view(self.host_defaults@),
            advanced_gate: self.advanced_gate,
            advanced_current: self.advanced_current@,
        }
    }
}

// ── From a configuration ─────────────────────────────────────────────
/// What a configuration says of a board.
pub open spec fn known_dut(d: DutView) -> DutDefaultsView {
    let r = match d.relay {
        Some(r) => r,
        None => crate::config::no_relay(),
    };
    DutDefaultsView {
        dut_name: Some(d.dut_name),
        serial_port: match d.serial {
            Some(s) => scalar_now(s.port),
            None => None,
        },
        login_user: match d.target {
            Some(t) => t.login_user,
            None => None,
        },
        relay_gate: d.relay is Some,
        relay_type: r.relay_type,
        relay_port: match r.port {
            Some(n) => Some(decimal(n as nat)),
            None => None,
        },
        relay_reset_ch: channel_now(r.reset_ch),
        relay_download_ch: channel_now(r.download_ch),
        relay_power_ch: channel_now(r.power_ch),
        relay_reset_time_ms: time_now(r.reset_time_ms),
        relay_power_off_time_ms: time_now(r.power_off_time_ms),
        advanced: dut_current_of(d),
    }
}

fn dut_defaults(d: &JsoncDut) -> (r: DutDefaults)
    ensures
        r@ == known_dut(d@),
{
    let relay = match &d.relay {
        Some(x) => x.copy(),
        None => crate::config::JsoncRelay::default(),
    };
    let serial_port = match &d.serial {
        Some(s) => match &s.port {
            Some(p) => Some(p.to_value_string()),
            None => None,
        },
        None => None,
    };
    let login_user = match &d.target {
        Some(t) => copy_opt(&t.login_user),
        None => None,
    };
    let relay_port = match relay.port {
        Some(n) => Some(decimal_text(n as u64)),
        None => None,
    };
    let r = DutDefaults {
        dut_name: Some(owned(d.dut_name.as_str())),
        serial_port,
        login_user,
        relay_gate: d.relay.is_some(),
        relay_type: copy_opt(&relay.relay_type),
        relay_port,
        relay_reset_ch: crate::update_dut::channel_text(relay.reset_ch),
        relay_download_ch: crate::update_dut::channel_text(relay.download_ch),
        relay_power_ch: crate::update_dut::channel_text(relay.power_ch),
        relay_reset_time_ms: crate::update_dut::time_text(relay.reset_time_ms),
        relay_power_off_time_ms: crate::update_dut::time_text(relay.power_off_time_ms),
        advanced: dut_advanced_current(d),
    };
    assert(r@ =~= known_dut(d@));
    r
}

/// What a configuration says of a host.
pub open spec fn known_host(h: HostView) -> HostDefaultsView {
    HostDefaultsView {
        ip: h.ip,
        user: h.user,
        pass: h.pass,
        host_name: h.host_name,
        dut_count: h.duts.len() as usize,
        duts: Seq::new(h.duts.len(), |i: int| known_dut(h.duts[i])),
    }
}

fn host_defaults(h: &JsoncDevHost) -> (r: HostDefaults)
    ensures
        r@ == known_host(h@),
{
    let ghost hv = h@;
    let mut duts: Vec<DutDefaults> = Vec::new();
    let mut i: usize = 0;
    while i < h.duts.len()
        invariant
            i <= h.duts.len(),
            hv == h@,
            duts@.len() == i,
            forall|k: int| 0 <= k < i ==> (#[trigger] duts@[k])@ == known_dut(hv.duts[k]),
        decreases h.duts.len() - i,
    {
        duts.push(dut_defaults(&h.duts[i]));
        i += 1;
    }
    let r = HostDefaults {
        ip: copy_opt(&h.ip),
        user: copy_opt(&h.user),
        pass: copy_opt(&h.pass),
        host_name: copy_opt(&h.host_name),
        dut_count: h.duts.len(),
        duts,
    };
    assert(r@.duts =~= known_host(hv).duts);
    assert(r@ =~= known_host(hv));
    r
}

/// The names of the first `n` boards of a host.
pub open spec fn dut_names(duts: Seq<DutView>, n: int) -> Seq<Seq<char>>
    decreases n,
{
    if n <= 0 {
        Seq::empty()
    } else {
        dut_names(duts, n - 1).push(duts[n - 1].dut_name)
    }
}

/// The names of the boards of the first `n` hosts.
pub open spec fn all_dut_names(hosts: Seq<HostView>, n: int) -> Seq<Seq<char>>
    decreases n,
{
    if n <= 0 {
        Seq::empty()
    } else {
        all_dut_names(hosts, n - 1) + dut_names(hosts[n - 1].duts, hosts[n - 1].duts.len() as int)
    }
}

fn list_dut_names(hosts: &Vec<JsoncDevHost>) -> (r: Vec<String>)
    ensures
        texts(r@) == all_dut_names(crate::config::hosts_view(hosts@), hosts@.len() as int),
{
    let ghost hv = crate::config::hosts_view(hosts@);
    let mut out: Vec<String> = Vec::new();
    assert(texts(out@) =~= Seq::empty());
    let mut i: usize = 0;
    while i < hosts.len()
        invariant
            i <= hosts.len(),
            hv == crate::config::hosts_view(hosts@),
            texts(out@) == all_dut_names(hv, i as int),
        decreases hosts.len() - i,
    {
        let h = &hosts[i];
        let ghost dv = hv[i as int].duts;
        let ghost before = texts(out@);
        let mut k: usize = 0;
        assert(texts(out@) =~= before + dut_names(dv, 0));
        while k < h.duts.len()
            invariant
                k <= h.duts.len(),
                dv == h@.duts,
                texts(out@) == before + dut_names(dv, k as int),
            decreases h.duts.len() - k,
        {
            broadcast use lemma_texts_push;

            assert(dv[k as int].dut_name == h.duts@[k as int].dut_name@);
            out.push(owned(h.duts[k].dut_name.as_str()));
            assert(texts(out@) =~= before + dut_names(dv, k + 1));
            k += 1;
        }
        i += 1;
    }
    out
}

/// Whether the options have the rare keys asked for.
pub open spec fn gate_of(o: InitOptions) -> AdvancedGate {
    if o.quick {
        AdvancedGate::Skip
    } else if o.advanced {
        AdvancedGate::Forced
    } else {
        AdvancedGate::Confirm { default: false }
    }
}

/// The form for a configuration, or for none.
pub open spec fn schema_of(existing: Option<ConfigView>, o: InitOptions) -> SchemaView {
    match existing {
        Some(c) => SchemaView {
            target: SchemaTargetView::Update(c),
            host_count_default: c.dev_hosts.len() as usize,
            host_count_max: 99,
            taken_duts: all_dut_names(c.dev_hosts, c.dev_hosts.len() as int),
            host_defaults: Seq::new(c.dev_hosts.len(), |i: int| known_host(c.dev_hosts[i])),
            advanced_gate: gate_of(o),
            advanced_current: current_of(c),
        },
        None => SchemaView {
            target: SchemaTargetView::Create,
            host_count_default: 1,
            host_count_max: 99,
            taken_duts: Seq::empty(),
            host_defaults: Seq::empty(),
            advanced_gate: gate_of(o),
            advanced_current: Pairs::empty(),
        },
    }
}

/// The meaning of an optional reference to a configuration.
pub open spec fn ref_config(o: Option<&TargetJsoncConfig>) -> Option<ConfigView> {
    match o {
        Some(c) => Some(c@),
        None => None,
    }
}

/// The form for a configuration, or for none.
pub fn build_form_schema(existing: Option<&TargetJsoncConfig>, opts: &InitOptions) -> (r: FormSchema)
    ensures
        r@ == schema_of(ref_config(existing), *opts),
{
    let advanced_gate = if opts.quick {
        AdvancedGate::Skip
    } else if opts.advanced {
        AdvancedGate::Forced
    } else {
        AdvancedGate::Confirm { default: false }
    };
    match existing {
        None => {
            let r = FormSchema {
                target: SchemaTarget::Create,
                host_count_default: 1,
                host_count_max: 99,
                taken_duts: Vec::new(),
                host_defaults: Vec::new(),
                advanced_gate,
                advanced_current: TextMap::new(),
            };
            assert(r@ =~= schema_of(None, *opts));
            r
        },
        Some(c) => {
            let ghost cv = c@;
            let mut hosts: Vec<HostDefaults> = Vec::new();
            let mut i: usize = 0;
            while i < c.dev_hosts.len()
                invariant
                    i <= c.dev_hosts.len(),
                    cv == c@,
                    hosts@.len() == i,
                    forall|k: int|
                        0 <= k < i ==> (#[trigger] hosts@[k])@ == known_host(cv.dev_hosts[k]),
                decreases c.dev_hosts.len() - i,
            {
                assert(cv.dev_hosts[i as int] == c.dev_hosts@[i as int]@);
                hosts.push(host_defaults(&c.dev_hosts[i]));
                i += 1;
            }
            let r = FormSchema {
                target: SchemaTarget::Update(Box::new(c.copy())),
                host_count_default: c.dev_hosts.len(),
                host_count_max: 99,
                taken_duts: list_dut_names(&c.dev_hosts),
                host_defaults: hosts,
                advanced_gate,
                advanced_current: advanced_current(c),
            };
            assert(r@ =~= schema_of(Some(cv), *opts));
            r
        },
    }
}

} // verus!

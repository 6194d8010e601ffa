//! The questions of the form with their labels, defaults and options.
use crate::advanced::{
    advanced_default, natural_default, reference_log_default, reference_log_of, EmptyMeans,
};
use crate::config::strs;
use crate::form::{
    form_groups, form_table, groups_view, key_of, DefaultSrc, FieldDef, FieldKey, FieldKind,
    FieldView, FormGroup, GroupView, KeyView, Repeat, SourceView,
};
use crate::naming::{next_free, next_free_dut_name};
use crate::number::{decimal, decimal_text};
use crate::schema::{
    DutDefaults, DutDefaultsView, FormSchema, HostDefaults, HostDefaultsView, SchemaView,
};
use crate::text::{copy_opt, opt_text, owned, same, texts};
use crate::text_map::{lookup, ref_text};
use vstd::prelude::*;

verus! {

// ── Looking up what is known ─────────────────────────────────────────
/// What is known of host `h`.
pub open spec fn host_at(s: SchemaView, h: usize) -> Option<HostDefaultsView> {
    if h < s.host_defaults.len() {
        Some(s.host_defaults[h as int])
    } else {
        None
    }
}

/// What is known of board `d` of host `h`.
pub open spec fn dut_at(s: SchemaView, h: usize, d: usize) -> Option<DutDefaultsView> {
    match host_at(s, h) {
        Some(x) => if d < x.duts.len() {
            Some(x.duts[d as int])
        } else {
            None
        },
        None => None,
    }
}

/// The meaning of an optional reference to what is known of a host.
pub open spec fn ref_host(o: Option<&HostDefaults>) -> Option<HostDefaultsView> {
    match o {
        Some(x) => Some(x@),
        None => None,
    }
}

/// The meaning of an optional reference to what is known of a board.
pub open spec fn ref_dut(o: Option<&DutDefaults>) -> Option<DutDefaultsView> {
    match o {
        Some(x) => Some(x@),
        None => None,
    }
}

impl FormSchema {
    /// What is known of host `h`.
    pub fn host(&self, h: usize) -> (r: Option<&HostDefaults>)
        ensures
            ref_host(r) == host_at(self@, h),
    {
        if h < self.host_defaults.len() {
            Some(&self.host_defaults[h])
        } else {
            None
        }
    }

    /// What is known of board `d` of host `h`.
    pub fn dut(&self, h: usize, d: usize) -> (r: Option<&DutDefaults>)
        ensures
            ref_dut(r) == dut_at(self@, h, d),
    {
        match self.host(h) {
            Some(x) => {
                if d < x.duts.len() {
                    Some(&x.duts[d])
                } else {
                    None
                }
            },
            None => None,
        }
    }
}

/// What board `d` of host `h` has for an advanced key: its own value, or what
/// it inherits.
pub open spec fn dut_current_value(s: SchemaView, h: usize, d: usize, k: Seq<char>) -> Option<
    Seq<char>,
> {
    let own = match dut_at(s, h, d) {
        Some(x) => lookup(x.advanced, k),
        None => None,
    };
    match own {
        Some(v) => Some(v),
        None => lookup(s.advanced_current, k),
    }
}

/// A copy of a text that may be there.
fn copy_ref(o: Option<&String>) -> (r: Option<String>)
    ensures
        opt_text(r) == ref_text(o),
        r is Some <==> o is Some,
{
    match o {
        Some(s) => Some(owned(s.as_str())),
        None => None,
    }
}

/// What a board has for an advanced key: its own value, or what it inherits;
/// never the default of the key.
pub fn dut_advanced_current_value(schema: &FormSchema, hi: usize, di: usize, k: &str) -> (r: Option<
    String,
>)
    ensures
        opt_text(r) == dut_current_value(schema@, hi, di, k@),
{
    let own = match schema.dut(hi, di) {
        Some(x) => copy_ref(x.advanced.get(k)),
        None => None,
    };
    match own {
        Some(v) => Some(v),
        None => copy_ref(schema.advanced_current.get(k)),
    }
}

/// The name of a board.
pub open spec fn known_name(o: Option<DutDefaultsView>) -> Option<Seq<char>> {
    match o {
        Some(x) => x.dut_name,
        None => None,
    }
}

/// The name that a composed default uses: the one just given, or that of the
/// board, or that of the first board, or `dut1`.
pub open spec fn name_for_default(s: SchemaView, h: usize, d: usize, live: Option<Seq<char>>) -> Seq<
    char,
> {
    match live {
        Some(n) => n,
        None => match known_name(dut_at(s, h, d)) {
            Some(n) => n,
            None => match known_name(dut_at(s, 0, 0)) {
                Some(n) => n,
                None => "dut1"@,
            },
        },
    }
}

fn name_of(o: Option<&DutDefaults>) -> (r: Option<String>)
    ensures
        opt_text(r) == known_name(ref_dut(o)),
{
    match o {
        Some(x) => copy_opt(&x.dut_name),
        None => None,
    }
}

/// The default of an advanced key of a board.
pub open spec fn dut_default_of(
    s: SchemaView,
    h: usize,
    d: usize,
    k: Seq<char>,
    live: Option<Seq<char>>,
) -> Seq<char> {
    match dut_current_value(s, h, d, k) {
        Some(v) => v,
        None => if k == "monitor.reference_log"@ {
            reference_log_of(name_for_default(s, h, d, live))
        } else {
            natural_default(k)
        },
    }
}

/// The default of an advanced key of a board: its own value, or what it
/// inherits, or the default of the key.
pub fn dut_advanced_default(
    schema: &FormSchema,
    hi: usize,
    di: usize,
    k: &str,
    live_name: Option<&str>,
) -> (r: String)
    ensures
        r@ == dut_default_of(schema@, hi, di, k@, crate::render::ref_comment(live_name)),
{
    match dut_advanced_current_value(schema, hi, di, k) {
        Some(v) => v,
        None => {
            if same(k, "monitor.reference_log") {
                let name = match live_name {
                    Some(n) => owned(n),
                    None => match name_of(schema.dut(hi, di)) {
                        Some(n) => n,
                        None => match name_of(schema.dut(0, 0)) {
                            Some(n) => n,
                            None => owned("dut1"),
                        },
                    },
                };
                reference_log_default(name.as_str())
            } else {
                advanced_default(k)
            }
        },
    }
}

// ── Instances ────────────────────────────────────────────────────────
/// A question with everything that it shows.
#[derive(Debug, PartialEq)]
pub struct FieldInstance {
    pub key: FieldKey,
    pub label: String,
    pub kind: FieldKind,
    pub required: bool,
    pub empty: EmptyMeans,
    pub default: Option<String>,
    pub options: Vec<String>,
}

/// The meaning of a [`FieldInstance`].
#[verifier::ext_equal]
pub struct InstanceView {
    pub key: KeyView,
    pub label: Seq<char>,
    pub kind: FieldKind,
    pub required: bool,
    pub empty: EmptyMeans,
    pub default: Option<Seq<char>>,
    pub options: Seq<Seq<char>>,
}

impl View for FieldInstance {
    type V = InstanceView;

    open spec fn view(&self) -> InstanceView {
        InstanceView {
            key: self.key@,
            label: self.label@,
            kind: self.kind,
            required: self.required,
            empty: self.empty,
            default: opt_text(self.default),
            options: texts(self.options@),
        }
    }
}

/// The meanings of some questions.
pub open spec fn instances_view(v: Seq<FieldInstance>) -> Seq<InstanceView> {
    Seq::new(v.len(), |i: int| v[i]@)
}

/// The relay types that can be chosen.
pub open spec fn relay_types() -> Seq<Seq<char>> {
    seq!["ch340"@, "ch340-relay"@, "none"@, "disabled"@]
}

/// The relay types that can be chosen.
pub fn supported_relay_types() -> (r: Vec<&'static str>)
    ensures
        strs(r@) == relay_types(),
{
    let r: Vec<&'static str> = vec!["ch340", "ch340-relay", "none", "disabled"];
    assert(strs(r@) =~= relay_types());
    r
}

/// What the configuration holds for a question about a host or a board.
pub open spec fn existing_value(s: SchemaView, key: KeyView) -> Option<Seq<char>> {
    match key {
        KeyView::HostIp(h) => match host_at(s, h) {
            Some(x) => x.ip,
            None => None,
        },
        KeyView::HostUser(h) => match host_at(s, h) {
            Some(x) => x.user,
            None => None,
        },
        KeyView::HostPass(h) => match host_at(s, h) {
            Some(x) => x.pass,
            None => None,
        },
        KeyView::HostName(h) => match host_at(s, h) {
            Some(x) => x.host_name,
            None => None,
        },
        KeyView::DutPort(h, d) => match dut_at(s, h, d) {
            Some(x) => x.serial_port,
            None => None,
        },
        KeyView::DutLoginUser(h, d) => match dut_at(s, h, d) {
            Some(x) => x.login_user,
            None => None,
        },
        KeyView::DutRelayType(h, d) => match dut_at(s, h, d) {
            Some(x) => x.relay_type,
            None => None,
        },
        KeyView::DutRelayPort(h, d) => match dut_at(s, h, d) {
            Some(x) => x.relay_port,
            None => None,
        },
        KeyView::DutRelayReset(h, d) => match dut_at(s, h, d) {
            Some(x) => x.relay_reset_ch,
            None => None,
        },
        KeyView::DutRelayDownload(h, d) => match dut_at(s, h, d) {
            Some(x) => x.relay_download_ch,
            None => None,
        },
        KeyView::DutRelayPower(h, d) => match dut_at(s, h, d) {
            Some(x) => x.relay_power_ch,
            None => None,
        },
        KeyView::DutRelayResetTimeMs(h, d) => match dut_at(s, h, d) {
            Some(x) => x.relay_reset_time_ms,
            None => None,
        },
        KeyView::DutRelayPowerOffTimeMs(h, d) => match dut_at(s, h, d) {
            Some(x) => x.relay_power_off_time_ms,
            None => None,
        },
        _ => None,
    }
}

fn value_now(schema: &FormSchema, key: FieldKey) -> (r: Option<String>)
    ensures
        opt_text(r) == existing_value(schema@, key@),
{
    match key {
        FieldKey::HostIp(h) => match schema.host(h) {
            Some(x) => copy_opt(&x.ip),
            None => None,
        },
        FieldKey::HostUser(h) => match schema.host(h) {
            Some(x) => copy_opt(&x.user),
            None => None,
        },
        FieldKey::HostPass(h) => match schema.host(h) {
            Some(x) => copy_opt(&x.pass),
            None => None,
        },
        FieldKey::HostName(h) => match schema.host(h) {
            Some(x) => copy_opt(&x.host_name),
            None => None,
        },
        FieldKey::DutPort(h, d) => match schema.dut(h, d) {
            Some(x) => copy_opt(&x.serial_port),
            None => None,
        },
        FieldKey::DutLoginUser(h, d) => match schema.dut(h, d) {
            Some(x) => copy_opt(&x.login_user),
            None => None,
        },
        FieldKey::DutRelayType(h, d) => match schema.dut(h, d) {
            Some(x) => copy_opt(&x.relay_type),
            None => None,
        },
        FieldKey::DutRelayPort(h, d) => match schema.dut(h, d) {
            Some(x) => copy_opt(&x.relay_port),
            None => None,
        },
        FieldKey::DutRelayReset(h, d) => match schema.dut(h, d) {
            Some(x) => copy_opt(&x.relay_reset_ch),
            None => None,
        },
        FieldKey::DutRelayDownload(h, d) => match schema.dut(h, d) {
            Some(x) => copy_opt(&x.relay_download_ch),
            None => None,
        },
        FieldKey::DutRelayPower(h, d) => match schema.dut(h, d) {
            Some(x) => copy_opt(&x.relay_power_ch),
            None => None,
        },
        FieldKey::DutRelayResetTimeMs(h, d) => match schema.dut(h, d) {
            Some(x) => copy_opt(&x.relay_reset_time_ms),
            None => None,
        },
        FieldKey::DutRelayPowerOffTimeMs(h, d) => match schema.dut(h, d) {
            Some(x) => copy_opt(&x.relay_power_off_time_ms),
            None => None,
        },
        _ => None,
    }
}

/// The number of boards that the form starts with for a host.
pub open spec fn dut_count_of(s: SchemaView, h: usize) -> usize {
    match host_at(s, h) {
        Some(x) => x.dut_count,
        None => 1,
    }
}

/// The name that the form offers for a board: its own, or the first free one.
pub open spec fn name_offer(s: SchemaView, h: usize, d: usize) -> Seq<char> {
    match known_name(dut_at(s, h, d)) {
        Some(n) => if n.len() > 0 {
            n
        } else {
            next_free("dut"@, s.taken_duts)
        },
        None => next_free("dut"@, s.taken_duts),
    }
}

/// The default from where the question says that it comes from.
pub open spec fn source_default(s: SchemaView, source: SourceView, key: KeyView) -> Option<
    Seq<char>,
> {
    match (source, key) {
        (SourceView::RuntimeCount, KeyView::HostCount) => Some(
            decimal(s.host_count_default as nat),
        ),
        (SourceView::RuntimeCount, KeyView::DutCount(h)) => Some(
            decimal(dut_count_of(s, h) as nat),
        ),
        (SourceView::AutoDutName, KeyView::DutName(h, d)) => Some(name_offer(s, h, d)),
        (SourceView::Static(t), _) => Some(t),
        (SourceView::RuntimeRelayGate, KeyView::DutRelayGate(h, d)) => Some(
            match dut_at(s, h, d) {
                Some(x) => if x.relay_gate {
                    "yes"@
                } else {
                    "no"@
                },
                None => "no"@,
            },
        ),
        (SourceView::AdvancedNatural, KeyView::Advanced(k)) => Some(
            match lookup(s.advanced_current, k) {
                Some(v) => v,
                None => natural_default(k),
            },
        ),
        (SourceView::ReferenceLogComposed, KeyView::Advanced(k)) => Some(
            match lookup(s.advanced_current, k) {
                Some(v) => v,
                None => reference_log_of(
                    match known_name(dut_at(s, 0, 0)) {
                        Some(n) => n,
                        None => "dut1"@,
                    },
                ),
            },
        ),
        (SourceView::AdvancedNatural, KeyView::DutAdvanced(h, d, k)) => Some(
            dut_default_of(s, h, d, k, None),
        ),
        (SourceView::ReferenceLogComposed, KeyView::DutAdvanced(h, d, k)) => Some(
            dut_default_of(s, h, d, k, None),
        ),
        _ => None,
    }
}

fn default_from(schema: &FormSchema, source: DefaultSrc, key: FieldKey) -> (r: Option<String>)
    ensures
        opt_text(r) == source_default(schema@, source@, key@),
{
    match (source, key) {
        (DefaultSrc::RuntimeCount, FieldKey::HostCount) => Some(
            decimal_text(schema.host_count_default as u64),
        ),
        (DefaultSrc::RuntimeCount, FieldKey::DutCount(h)) => {
            let n: usize = match schema.host(h) {
                Some(x) => x.dut_count,
                None => 1,
            };
            Some(decimal_text(n as u64))
        },
        (DefaultSrc::AutoDutName, FieldKey::DutName(h, d)) => {
            match name_of(schema.dut(h, d)) {
                Some(n) => {
                    if !n.as_str().is_empty() {
                        return Some(n);
                    }
                },
                None => {},
            }
            Some(next_free_dut_name("dut", schema.taken_duts.as_slice()))
        },
        (DefaultSrc::Static(t), _) => Some(owned(t)),
        (DefaultSrc::RuntimeRelayGate, FieldKey::DutRelayGate(h, d)) => {
            let on = match schema.dut(h, d) {
                Some(x) => x.relay_gate,
                None => false,
            };
            if on {
                Some(owned("yes"))
            } else {
                Some(owned("no"))
            }
        },
        (DefaultSrc::AdvancedNatural, FieldKey::Advanced(k)) => match schema.advanced_current.get(
            k,
        ) {
            Some(v) => Some(owned(v.as_str())),
            None => Some(advanced_default(k)),
        },
        (DefaultSrc::ReferenceLogComposed, FieldKey::Advanced(k)) => {
            match schema.advanced_current.get(k) {
                Some(v) => Some(owned(v.as_str())),
                None => {
                    let name = match name_of(schema.dut(0, 0)) {
                        Some(n) => n,
                        None => owned("dut1"),
                    };
                    Some(reference_log_default(name.as_str()))
                },
            }
        },
        (DefaultSrc::AdvancedNatural, FieldKey::DutAdvanced(h, d, k)) => Some(
            dut_advanced_default(schema, h, d, k, None),
        ),
        (DefaultSrc::ReferenceLogComposed, FieldKey::DutAdvanced(h, d, k)) => Some(
            dut_advanced_default(schema, h, d, k, None),
        ),
        _ => None,
    }
}

/// A question of the table for a host and a board. What the configuration
/// holds comes before the default of the table.
pub open spec fn instance_of(s: SchemaView, def: FieldView, h: usize, d: usize) -> InstanceView {
    let key = key_of(def.key, h, d);
    InstanceView {
        key,
        label: def.label,
        kind: def.kind,
        required: def.required,
        empty: def.empty,
        default: match existing_value(s, key) {
            Some(v) => Some(v),
            None => source_default(s, def.default, key),
        },
        options: if def.kind == FieldKind::Select {
            if def.options.len() == 0 {
                relay_types()
            } else {
                def.options
            }
        } else {
            Seq::empty()
        },
    }
}

/// The questions of a group for a host and a board.
pub open spec fn materialized(s: SchemaView, g: GroupView, h: usize, d: usize) -> Seq<InstanceView> {
    Seq::new(g.fields.len(), |i: int| instance_of(s, g.fields[i], h, d))
}

fn own_all(v: &Vec<&'static str>) -> (r: Vec<String>)
    ensures
        texts(r@) == strs(v@),
{
    let mut out: Vec<String> = Vec::new();
    let mut i: usize = 0;
    while i < v.len()
        invariant
            i <= v.len(),
            out@.len() == i,
            forall|k: int| 0 <= k < i ==> (#[trigger] out@[k])@ == v@[k]@,
        decreases v.len() - i,
    {
        out.push(owned(v[i]));
        i += 1;
    }
    assert(texts(out@) =~= strs(v@));
    out
}

fn materialize(schema: &FormSchema, def: &FieldDef, hi: usize, di: usize) -> (r: FieldInstance)
    ensures
        r@ == instance_of(schema@, def@, hi, di),
{
    let key = def.key.key(hi, di);
    let default = match value_now(schema, key) {
        Some(v) => Some(v),
        None => default_from(schema, def.default, key),
    };
    let options = if def.kind == FieldKind::Select {
        if def.options.len() == 0 {
            own_all(&supported_relay_types())
        } else {
            own_all(&def.options)
        }
    } else {
        Vec::new()
    };
    let r = FieldInstance {
        key,
        label: owned(def.label),
        kind: def.kind,
        required: def.required,
        empty: def.empty,
        default,
        options,
    };
    assert(r@ =~= instance_of(schema@, def@, hi, di));
    r
}

/// The questions of a group for a host and a board.
pub fn materialize_group_fields(
    schema: &FormSchema,
    group: &FormGroup,
    hi: usize,
    di: usize,
) -> (r: Vec<FieldInstance>)
    ensures
        instances_view(r@) == materialized(schema@, group@, hi, di),
{
    let mut out: Vec<FieldInstance> = Vec::new();
    let ghost all = materialized(schema@, group@, hi, di);
    let mut i: usize = 0;
    while i < group.fields.len()
        invariant
            i <= group.fields.len(),
            all == materialized(schema@, group@, hi, di),
            out@.len() == i,
            forall|k: int| 0 <= k < i ==> (#[trigger] out@[k])@ == all[k],
        decreases group.fields.len() - i,
    {
        assert(group@.fields[i as int] == group.fields@[i as int]@);
        out.push(materialize(schema, &group.fields[i], hi, di));
        i += 1;
    }
    assert(instances_view(out@) =~= all);
    out
}

// ── The whole form ───────────────────────────────────────────────────
/// The questions of a group for the first `n` boards of a host.
pub open spec fn dut_fields(s: SchemaView, g: GroupView, h: usize, n: int) -> Seq<InstanceView>
    decreases n,
{
    if n <= 0 {
        Seq::empty()
    } else {
        dut_fields(s, g, h, n - 1) + materialized(s, g, h, (n - 1) as usize)
    }
}

/// At least one.
pub open spec fn at_least_one(n: usize) -> usize {
    if n == 0 {
        1
    } else {
        n
    }
}

/// The questions of a group for the first `n` hosts.
pub open spec fn host_fields(s: SchemaView, g: GroupView, n: int) -> Seq<InstanceView>
    decreases n,
{
    if n <= 0 {
        Seq::empty()
    } else {
        let h = (n - 1) as usize;
        host_fields(s, g, n - 1) + (if g.repeat == Repeat::PerHost {
            materialized(s, g, h, 0)
        } else {
            dut_fields(s, g, h, at_least_one(dut_count_of(s, h)) as int)
        })
    }
}

/// The questions of a group, as often as it is asked.
pub open spec fn group_fields(s: SchemaView, g: GroupView) -> Seq<InstanceView> {
    if g.repeat == Repeat::Once {
        materialized(s, g, 0, 0)
    } else {
        host_fields(s, g, at_least_one(s.host_count_default) as int)
    }
}

/// The questions of the first `n` groups.
pub open spec fn all_fields(s: SchemaView, groups: Seq<GroupView>, n: int) -> Seq<InstanceView>
    decreases n,
{
    if n <= 0 {
        Seq::empty()
    } else {
        all_fields(s, groups, n - 1) + group_fields(s, groups[n - 1])
    }
}

fn append_instances(out: &mut Vec<FieldInstance>, more: Vec<FieldInstance>)
    ensures
        instances_view(final(out)@) == instances_view(old(out)@) + instances_view(more@),
{
    let mut rest = more;
    out.append(&mut rest);
    assert(instances_view(out@) =~= instances_view(old(out)@) + instances_view(more@));
}

fn append_host(out: &mut Vec<FieldInstance>, schema: &FormSchema, group: &FormGroup, hi: usize)
    ensures
        instances_view(final(out)@) == instances_view(old(out)@) + (if group@.repeat
            == Repeat::PerHost {
            materialized(schema@, group@, hi, 0)
        } else {
            dut_fields(
                schema@,
                group@,
                hi,
                at_least_one(dut_count_of(schema@, hi)) as int,
            )
        }),
{
    if group.repeat == Repeat::PerHost {
        append_instances(out, materialize_group_fields(schema, group, hi, 0));
        return;
    }
    let n: usize = match schema.host(hi) {
        Some(x) => x.dut_count,
        None => 1,
    };
    let n: usize = if n == 0 {
        1
    } else {
        n
    };
    let ghost before = instances_view(out@);
    let ghost s = schema@;
    let ghost g = group@;
    let mut di: usize = 0;
    assert(instances_view(out@) =~= before + dut_fields(s, g, hi, 0));
    while di < n
        invariant
            di <= n,
            s == schema@,
            g == group@,
            instances_view(out@) == before + dut_fields(s, g, hi, di as int),
        decreases n - di,
    {
        append_instances(out, materialize_group_fields(schema, group, hi, di));
        assert(instances_view(out@) =~= before + dut_fields(s, g, hi, di + 1));
        di += 1;
    }
}

/// The whole form with the counts that it starts with.
pub open spec fn form_fields(s: SchemaView) -> Seq<InstanceView> {
    all_fields(s, form_table(), form_table().len() as int)
}

/// The whole form with the counts that it starts with.
pub fn schema_fields(schema: &FormSchema) -> (r: Vec<FieldInstance>)
    ensures
        instances_view(r@) == form_fields(schema@),
{
    let groups = form_groups();
    let ghost gv = groups_view(groups@);
    let ghost s = schema@;
    let hosts: usize = if schema.host_count_default == 0 {
        1
    } else {
        schema.host_count_default
    };
    let mut out: Vec<FieldInstance> = Vec::new();
    assert(instances_view(out@) =~= Seq::empty());
    let mut i: usize = 0;
    while i < groups.len()
        invariant
            i <= groups.len(),
            gv == groups_view(groups@),
            s == schema@,
            hosts == at_least_one(s.host_count_default),
            instances_view(out@) == all_fields(s, gv, i as int),
        decreases groups.len() - i,
    {
        let ghost g = gv[i as int];
        assert(g == groups@[i as int]@);
        let ghost before = instances_view(out@);
        if groups[i].repeat == Repeat::Once {
            append_instances(&mut out, materialize_group_fields(schema, &groups[i], 0, 0));
        } else {
            let mut hi: usize = 0;
            assert(instances_view(out@) =~= before + host_fields(s, g, 0));
            while hi < hosts
                invariant
                    hi <= hosts,
                    i < groups.len(),
                    g == groups@[i as int]@,
                    s == schema@,
                    instances_view(out@) == before + host_fields(s, g, hi as int),
                decreases hosts - hi,
            {
                append_host(&mut out, schema, &groups[i], hi);
                assert(instances_view(out@) =~= before + host_fields(s, g, hi + 1));
                hi += 1;
            }
        }
        i += 1;
    }
    out
}

} // verus!

//! The answers where nobody is asked: the defaults of every question.
use crate::advanced::{
    adv_views, advanced_default, advanced_fields, advanced_table, natural_default, AdvFieldView,
};
use crate::answers::{
    dut_answers_view, host_answers_view, DutAnswers, DutAnswersView, HostAnswers, HostAnswersView,
    WizardAnswers, WizardAnswersView,
};
use crate::fields::at_least_one;
use crate::naming::{next_free, next_free_dut_name};
use crate::schema::{
    AdvancedGate, DutDefaults, DutDefaultsView, FormSchema, HostDefaults, HostDefaultsView,
    SchemaView,
};
use crate::text::{
    copy_opt, copy_texts, has_text, lemma_texts_push, opt_text, or_empty, owned, text_or_empty,
    texts,
};
use crate::text_map::{lookup, put, Pairs, TextMap};
use vstd::prelude::*;

verus! {

/// What is known of a board of which nothing is known.
pub open spec fn unknown_dut() -> DutDefaultsView {
    DutDefaultsView {
        dut_name: None,
        serial_port: None,
        login_user: None,
        relay_gate: false,
        relay_type: None,
        relay_port: None,
        relay_reset_ch: None,
        relay_download_ch: None,
        relay_power_ch: None,
        relay_reset_time_ms: None,
        relay_power_off_time_ms: None,
        advanced: Pairs::empty(),
    }
}

/// What is known of a host of which nothing is known.
pub open spec fn unknown_host() -> HostDefaultsView {
    HostDefaultsView {
        ip: None,
        user: None,
        pass: None,
        host_name: None,
        dut_count: 0,
        duts: Seq::empty(),
    }
}

impl Default for DutDefaults {
    fn default() -> (r: Self)
        ensures
            r@ == unknown_dut(),
    {
        let r = DutDefaults {
            dut_name: None,
            serial_port: None,
            login_user: None,
            relay_gate: false,
            relay_type: None,
            relay_port: None,
            relay_reset_ch: None,
            relay_download_ch: None,
            relay_power_ch: None,
            relay_reset_time_ms: None,
            relay_power_off_time_ms: None,
            advanced: TextMap::new(),
        };
        assert(r@ =~= unknown_dut());
        r
    }
}

impl DutDefaults {
    /// A copy.
    pub fn copy(&self) -> (r: Self)
        ensures
            r@ == self@,
    {
        let r = DutDefaults {
            dut_name: copy_opt(&self.dut_name),
            serial_port: copy_opt(&self.serial_port),
            login_user: copy_opt(&self.login_user),
            relay_gate: self.relay_gate,
            relay_type: copy_opt(&self.relay_type),
            relay_port: copy_opt(&self.relay_port),
            relay_reset_ch: copy_opt(&self.relay_reset_ch),
            relay_download_ch: copy_opt(&self.relay_download_ch),
            relay_power_ch: copy_opt(&self.relay_power_ch),
            relay_reset_time_ms: copy_opt(&self.relay_reset_time_ms),
            relay_power_off_time_ms: copy_opt(&self.relay_power_off_time_ms),
            advanced: self.advanced.copy(),
        };
        assert(r@ =~= self@);
        r
    }
}

impl Default for HostDefaults {
    fn default() -> (r: Self)
        ensures
            r@ == unknown_host(),
    {
        let r = HostDefaults {
            ip: None,
            user: None,
            pass: None,
            host_name: None,
            dut_count: 0,
            duts: Vec::new(),
        };
        assert(r@ =~= unknown_host());
        r
    }
}

impl HostDefaults {
    /// A copy.
    pub fn copy(&self) -> (r: Self)
        ensures
            r@ == self@,
    {
        let mut duts: Vec<DutDefaults> = Vec::new();
        let mut i: usize = 0;
        while i < self.duts.len()
            invariant
                i <= self.duts.len(),
                duts@.len() == i,
                forall|k: int| 0 <= k < i ==> (#[trigger] duts@[k])@ == self.duts@[k]@,
            decreases self.duts.len() - i,
        {
            duts.push(self.duts[i].copy());
            i += 1;
        }
        let r = HostDefaults {
            ip: copy_opt(&self.ip),
            user: copy_opt(&self.user),
            pass: copy_opt(&self.pass),
            host_name: copy_opt(&self.host_name),
            dut_count: self.dut_count,
            duts,
        };
        assert(r@.duts =~= self@.duts);
        assert(r@ =~= self@);
        r
    }
}

/// What is known of host `h`, or that nothing is.
pub open spec fn host_or_unknown(s: SchemaView, h: int) -> HostDefaultsView {
    if 0 <= h < s.host_defaults.len() {
        s.host_defaults[h]
    } else {
        unknown_host()
    }
}

/// What is known of board `d` of a host, or that nothing is.
pub open spec fn dut_or_unknown(h: HostDefaultsView, d: int) -> DutDefaultsView {
    if 0 <= d < h.duts.len() {
        h.duts[d]
    } else {
        unknown_dut()
    }
}

/// What is known of host `h`, or that nothing is.
pub fn known_host_or_default(schema: &FormSchema, h: usize) -> (r: HostDefaults)
    ensures
        r@ == host_or_unknown(schema@, h as int),
{
    if h < schema.host_defaults.len() {
        schema.host_defaults[h].copy()
    } else {
        HostDefaults::default()
    }
}

/// What is known of board `d` of a host, or that nothing is.
pub fn known_dut_or_default(h: &HostDefaults, d: usize) -> (r: DutDefaults)
    ensures
        r@ == dut_or_unknown(h@, d as int),
{
    if d < h.duts.len() {
        h.duts[d].copy()
    } else {
        DutDefaults::default()
    }
}

// ── Boards ───────────────────────────────────────────────────────────
/// The text, or another where there is none.
pub open spec fn text_or(o: Option<Seq<char>>, other: Seq<char>) -> Seq<char> {
    match o {
        Some(t) => t,
        None => other,
    }
}

/// The text, or another where there is none.
pub fn or_text(o: &Option<String>, other: &str) -> (r: String)
    ensures
        r@ == text_or(opt_text(*o), other@),
{
    match o {
        Some(t) => owned(t.as_str()),
        None => owned(other),
    }
}

/// The text if the board has a relay.
pub open spec fn if_relay(gate: bool, t: Seq<char>) -> Seq<char> {
    if gate {
        t
    } else {
        Seq::empty()
    }
}

fn when_relay(gate: bool, t: String) -> (r: String)
    ensures
        r@ == if_relay(gate, t@),
{
    if gate {
        t
    } else {
        String::new()
    }
}

/// The advanced values of a board. One that is new gets the default baud rate
/// where there is none; one that is there keeps what it has.
pub open spec fn with_baudrate(p: Pairs, known: bool) -> Pairs {
    if known || lookup(p, "serial.baudrate"@) is Some {
        p
    } else {
        put(p, "serial.baudrate"@, natural_default("serial.baudrate"@))
    }
}

/// The default answers about a board.
pub open spec fn default_dut(d: DutDefaultsView, name: Seq<char>) -> DutAnswersView {
    let on = d.relay_gate;
    DutAnswersView {
        dut_name: name,
        serial_port: or_empty(d.serial_port),
        login_user: text_or(d.login_user, "root"@),
        relay_gate: on,
        relay_type: if_relay(on, text_or(d.relay_type, "ch340"@)),
        relay_port: if_relay(on, or_empty(d.relay_port)),
        relay_reset_ch: if_relay(on, or_empty(d.relay_reset_ch)),
        relay_download_ch: if_relay(on, or_empty(d.relay_download_ch)),
        relay_power_ch: if_relay(on, or_empty(d.relay_power_ch)),
        relay_reset_time_ms: if_relay(on, or_empty(d.relay_reset_time_ms)),
        relay_power_off_time_ms: if_relay(on, text_or(d.relay_power_off_time_ms, "3000"@)),
        advanced: with_baudrate(d.advanced, d.dut_name is Some),
    }
}

fn default_dut_answers(d: &DutDefaults, name: String) -> (r: DutAnswers)
    ensures
        r@ == default_dut(d@, name@),
{
    let on = d.relay_gate;
    let mut advanced = d.advanced.copy();
    if d.dut_name.is_none() && !advanced.contains_key("serial.baudrate") {
        advanced.insert("serial.baudrate", advanced_default("serial.baudrate"));
    }
    let r = DutAnswers {
        dut_name: name,
        serial_port: text_or_empty(&d.serial_port),
        login_user: or_text(&d.login_user, "root"),
        relay_gate: on,
        relay_type: when_relay(on, or_text(&d.relay_type, "ch340")),
        relay_port: when_relay(on, text_or_empty(&d.relay_port)),
        relay_reset_ch: when_relay(on, text_or_empty(&d.relay_reset_ch)),
        relay_download_ch: when_relay(on, text_or_empty(&d.relay_download_ch)),
        relay_power_ch: when_relay(on, text_or_empty(&d.relay_power_ch)),
        relay_reset_time_ms: when_relay(on, text_or_empty(&d.relay_reset_time_ms)),
        relay_power_off_time_ms: when_relay(on, or_text(&d.relay_power_off_time_ms, "3000")),
        advanced,
    };
    assert(r@ =~= default_dut(d@, name@));
    r
}

/// The default name of a board: its own, or the first free one.
pub open spec fn default_name(d: DutDefaultsView, taken: Seq<Seq<char>>) -> Seq<char> {
    if or_empty(d.dut_name).len() > 0 {
        or_empty(d.dut_name)
    } else {
        next_free("dut"@, taken)
    }
}

/// The names with one more, unless it is there.
pub open spec fn with_name(taken: Seq<Seq<char>>, name: Seq<char>) -> Seq<Seq<char>> {
    if taken.contains(name) {
        taken
    } else {
        taken.push(name)
    }
}

/// Adds a name unless it is there.
pub fn take_name(taken: &mut Vec<String>, name: &str)
    ensures
        texts(final(taken)@) == with_name(texts(old(taken)@), name@),
{
    broadcast use lemma_texts_push;

    if !has_text(taken.as_slice(), name) {
        taken.push(owned(name));
    }
}

/// The default answers about the boards of a host, from board `d` to the one
/// before `n`, behind those in `before`; and the names that are taken then.
pub open spec fn default_duts(
    h: HostDefaultsView,
    taken: Seq<Seq<char>>,
    d: int,
    n: int,
    before: Seq<DutAnswersView>,
) -> (Seq<DutAnswersView>, Seq<Seq<char>>)
    decreases n - d,
{
    if d >= n {
        (before, taken)
    } else {
        let known = dut_or_unknown(h, d);
        let name = default_name(known, taken);
        default_duts(
            h,
            with_name(taken, name),
            d + 1,
            n,
            before.push(default_dut(known, name)),
        )
    }
}

/// The default answers about a host.
pub open spec fn default_host(h: HostDefaultsView, duts: Seq<DutAnswersView>) -> HostAnswersView {
    HostAnswersView {
        ip: or_empty(h.ip),
        user: or_empty(h.user),
        pass: or_empty(h.pass),
        host_name: or_empty(h.host_name),
        duts,
    }
}

fn default_host_answers(h: &HostDefaults, taken: &mut Vec<String>) -> (r: HostAnswers)
    ensures
        ({
            let (duts, after) = default_duts(
                h@,
                texts(old(taken)@),
                0,
                at_least_one(h@.dut_count) as int,
                Seq::empty(),
            );
            r@ == default_host(h@, duts) && texts(final(taken)@) == after
        }),
{
    let ghost hv = h@;
    let n: usize = if h.dut_count == 0 {
        1
    } else {
        h.dut_count
    };
    let ghost whole = default_duts(hv, texts(taken@), 0, n as int, Seq::empty());
    let mut duts: Vec<DutAnswers> = Vec::new();
    assert(dut_answers_view(duts@) =~= Seq::empty());
    let mut d: usize = 0;
    while d < n
        invariant
            d <= n,
            hv == h@,
            default_duts(hv, texts(taken@), d as int, n as int, dut_answers_view(duts@)) == whole,
        decreases n - d,
    {
        let known = known_dut_or_default(h, d);
        let own = text_or_empty(&known.dut_name);
        let name = if own.as_str().is_empty() {
            next_free_dut_name("dut", taken.as_slice())
        } else {
            own
        };
        take_name(taken, name.as_str());
        let ghost before = duts@;
        let a = default_dut_answers(&known, name);
        duts.push(a);
        assert(dut_answers_view(duts@) =~= dut_answers_view(before).push(a@));
        d += 1;
    }
    let r = HostAnswers {
        ip: text_or_empty(&h.ip),
        user: text_or_empty(&h.user),
        pass: text_or_empty(&h.pass),
        host_name: text_or_empty(&h.host_name),
        duts,
    };
    assert(r@ =~= default_host(hv, whole.0));
    r
}

/// The default answers about the hosts, from host `h` to the one before `n`,
/// behind those in `before`.
pub open spec fn default_hosts(
    s: SchemaView,
    taken: Seq<Seq<char>>,
    h: int,
    n: int,
    before: Seq<HostAnswersView>,
) -> Seq<HostAnswersView>
    decreases n - h,
{
    if h >= n {
        before
    } else {
        let known = host_or_unknown(s, h);
        let (duts, after) = default_duts(
            known,
            taken,
            0,
            at_least_one(known.dut_count) as int,
            Seq::empty(),
        );
        default_hosts(s, after, h + 1, n, before.push(default_host(known, duts)))
    }
}

/// The advanced values that are set, of the keys from number `i` on, put
/// behind those in `before`.
pub open spec fn current_values(
    table: Seq<AdvFieldView>,
    current: Pairs,
    i: int,
    before: Pairs,
) -> Pairs
    decreases table.len() - i,
{
    if i < 0 || i >= table.len() {
        before
    } else {
        let next = match lookup(current, table[i].key) {
            Some(v) => if v.len() > 0 {
                put(before, table[i].key, v)
            } else {
                before
            },
            None => before,
        };
        current_values(table, current, i + 1, next)
    }
}

fn collect_current(current: &TextMap) -> (r: TextMap)
    ensures
        r@ == current_values(advanced_table(), current@, 0, Pairs::empty()),
{
    let fields = advanced_fields();
    let ghost table = adv_views(fields@);
    let mut r = TextMap::new();
    let mut i: usize = 0;
    while i < fields.len()
        invariant
            i <= fields.len(),
            table == adv_views(fields@),
            table == advanced_table(),
            current_values(table, current@, i as int, r@) == current_values(
                advanced_table(),
                current@,
                0,
                Pairs::empty(),
            ),
        decreases fields.len() - i,
    {
        assert(table[i as int] == fields@[i as int]@);
        match current.get(fields[i].key) {
            Some(v) => {
                if !v.as_str().is_empty() {
                    r.insert(fields[i].key, owned(v.as_str()));
                }
            },
            None => {},
        }
        i += 1;
    }
    r
}

// ── All answers ──────────────────────────────────────────────────────
/// The default answers: at least one host with at least one board. Advanced
/// values at the top level are answered only where they are asked for, and
/// only with what is set.
pub open spec fn default_answers(s: SchemaView) -> WizardAnswersView {
    WizardAnswersView {
        hosts: default_hosts(
            s,
            s.taken_duts,
            0,
            at_least_one(s.host_count_default) as int,
            Seq::empty(),
        ),
        advanced: if s.advanced_gate == AdvancedGate::Forced {
            current_values(advanced_table(), s.advanced_current, 0, Pairs::empty())
        } else {
            Pairs::empty()
        },
        announcements: Seq::empty(),
    }
}

/// The default answers.
pub fn fill_defaults(schema: &FormSchema) -> (r: WizardAnswers)
    ensures
        r@ == default_answers(schema@),
{
    let ghost s = schema@;
    let n: usize = if schema.host_count_default == 0 {
        1
    } else {
        schema.host_count_default
    };
    let mut taken = copy_texts(&schema.taken_duts);
    let ghost whole = default_hosts(s, s.taken_duts, 0, n as int, Seq::empty());
    let mut hosts: Vec<HostAnswers> = Vec::new();
    assert(host_answers_view(hosts@) =~= Seq::empty());
    let mut h: usize = 0;
    while h < n
        invariant
            h <= n,
            s == schema@,
            default_hosts(s, texts(taken@), h as int, n as int, host_answers_view(hosts@)) == whole,
        decreases n - h,
    {
        let known = known_host_or_default(schema, h);
        let ghost before = hosts@;
        let a = default_host_answers(&known, &mut taken);
        hosts.push(a);
        assert(host_answers_view(hosts@) =~= host_answers_view(before).push(a@));
        h += 1;
    }
    let advanced = if schema.advanced_gate == AdvancedGate::Forced {
        collect_current(&schema.advanced_current)
    } else {
        TextMap::new()
    };
    let r = WizardAnswers { hosts, advanced, announcements: Vec::new() };
    assert(r@ =~= default_answers(s));
    r
}

} // verus!

//! The answers of the wizard, and the configuration that they describe.
use crate::advanced::{invalid_answer, invalid_text, parse_number_or_string, scalar_of};
use crate::config::{
    no_config, no_serial, no_target, ConfigView, DutView, HostView, JsoncDevHost, JsoncDut,
    JsoncRelay, JsoncSerial, JsoncTarget, RelayView, SerialView, TargetJsoncConfig, TargetView,
};
use crate::merge::{merge_advanced, merge_dut_advanced, merged_dut_from, merged_from};
use crate::number::{decimal, decimal_text, parse_unsigned, unsigned};
use crate::text::{lemma_texts_push, owned, same, texts, trim, trimmed};
use crate::text_map::{Pairs, TextMap};
use vstd::prelude::*;

verus! {

/// The answers about one board.
#[derive(Debug, PartialEq)]
pub struct DutAnswers {
    pub dut_name: String,
    pub serial_port: String,
    pub login_user: String,
    /// Whether the board has a relay. Without one the relay answers are empty.
    pub relay_gate: bool,
    pub relay_type: String,
    pub relay_port: String,
    pub relay_reset_ch: String,
    pub relay_download_ch: String,
    pub relay_power_ch: String,
    pub relay_reset_time_ms: String,
    pub relay_power_off_time_ms: String,
    /// The answers to the advanced keys of the board; an empty answer unsets
    /// a key.
    pub advanced: TextMap,
}

/// The meaning of [`DutAnswers`].
#[verifier::ext_equal]
pub struct DutAnswersView {
    pub dut_name: Seq<char>,
    pub serial_port: Seq<char>,
    pub login_user: Seq<char>,
    pub relay_gate: bool,
    pub relay_type: Seq<char>,
    pub relay_port: Seq<char>,
    pub relay_reset_ch: Seq<char>,
    pub relay_download_ch: Seq<char>,
    pub relay_power_ch: Seq<char>,
    pub relay_reset_time_ms: Seq<char>,
    pub relay_power_off_time_ms: Seq<char>,
    pub advanced: Pairs,
}

impl View for DutAnswers {
    type V = DutAnswersView;

    open spec fn view(&self) -> DutAnswersView {
        DutAnswersView {
            dut_name: self.dut_name@,
            serial_port: self.serial_port@,
            login_user: self.login_user@,
            relay_gate: self.relay_gate,
            relay_type: self.relay_type@,
            relay_port: self.relay_port@,
            relay_reset_ch: self.relay_reset_ch@,
            relay_download_ch: self.relay_download_ch@,
            relay_power_ch: self.relay_power_ch@,
            relay_reset_time_ms: self.relay_reset_time_ms@,
            relay_power_off_time_ms: self.relay_power_off_time_ms@,
            advanced: self.advanced@,
        }
    }
}

/// The answers about one host and its boards.
#[derive(Debug, PartialEq)]
pub struct HostAnswers {
    pub ip: String,
    pub user: String,
    pub pass: String,
    pub host_name: String,
    pub duts: Vec<DutAnswers>,
}

/// The meaning of [`HostAnswers`].
#[verifier::ext_equal]
pub struct HostAnswersView {
    pub ip: Seq<char>,
    pub user: Seq<char>,
    pub pass: Seq<char>,
    pub host_name: Seq<char>,
    pub duts: Seq<DutAnswersView>,
}

/// The meanings of the answers about some boards.
pub open spec fn dut_answers_view(v: Seq<DutAnswers>) -> Seq<DutAnswersView> {
    Seq::new(v.len(), |i: int| v[i]@)
}

impl View for HostAnswers {
    type V = HostAnswersView;

    open spec fn view(&self) -> HostAnswersView {
        HostAnswersView {
            ip: self.ip@,
            user: self.user@,
            pass: self.pass@,
            host_name: self.host_name@,
            duts: dut_answers_view(self.duts@),
        }
    }
}

/// The meanings of the answers about some hosts.
pub open spec fn host_answers_view(v: Seq<HostAnswers>) -> Seq<HostAnswersView> {
    Seq::new(v.len(), |i: int| v[i]@)
}

/// All answers.
#[derive(Debug, PartialEq)]
pub struct WizardAnswers {
    pub hosts: Vec<HostAnswers>,
    /// The answers to the advanced keys of the top-level sections.
    pub advanced: TextMap,
    /// What was decided about names.
    pub announcements: Vec<String>,
}

/// The meaning of [`WizardAnswers`].
#[verifier::ext_equal]
pub struct WizardAnswersView {
    pub hosts: Seq<HostAnswersView>,
    pub advanced: Pairs,
    pub announcements: Seq<Seq<char>>,
}

impl View for WizardAnswers {
    type V = WizardAnswersView;

    open spec fn view(&self) -> WizardAnswersView {
        WizardAnswersView {
            hosts: host_answers_view(self.hosts@),
            advanced: self.advanced@,
            announcements: texts(self.announcements@),
        }
    }
}

// ── Required answers ─────────────────────────────────────────────────
/// Whether an answer names a serial port.
pub open spec fn names_port(port: Seq<char>) -> bool {
    trimmed(port).len() > 0 && trimmed(port) != "0"@
}

/// What is missing of the boards before number `n` of host `hi`.
pub open spec fn missing_ports(hi: nat, duts: Seq<DutAnswersView>, n: int) -> Seq<Seq<char>>
    decreases n,
{
    if n <= 0 {
        Seq::empty()
    } else if names_port(duts[n - 1].serial_port) {
        missing_ports(hi, duts, n - 1)
    } else {
        missing_ports(hi, duts, n - 1).push(
            "dev_hosts["@ + decimal(hi) + "].duts["@ + decimal((n - 1) as nat) + "].serial.port"@,
        )
    }
}

/// What is missing of the hosts before number `n`.
pub open spec fn missing_from(hosts: Seq<HostAnswersView>, n: int) -> Seq<Seq<char>>
    decreases n,
{
    if n <= 0 {
        Seq::empty()
    } else {
        let h = hosts[n - 1];
        let ip = if trimmed(h.ip).len() == 0 {
            seq!["dev_hosts["@ + decimal((n - 1) as nat) + "].ip"@]
        } else {
            Seq::empty()
        };
        missing_from(hosts, n - 1) + ip + missing_ports((n - 1) as nat, h.duts, h.duts.len() as int)
    }
}

/// The required answers that are missing, every one of them.
pub open spec fn missing_of(a: WizardAnswersView) -> Seq<Seq<char>> {
    missing_from(a.hosts, a.hosts.len() as int)
}

/// The required answers that are missing: host addresses and serial ports.
pub fn missing_required(answers: &WizardAnswers) -> (r: Vec<String>)
    ensures
        texts(r@) == missing_of(answers@),
{
    let mut out: Vec<String> = Vec::new();
    let mut hi: usize = 0;
    assert(texts(out@) =~= Seq::empty());
    while hi < answers.hosts.len()
        invariant
            hi <= answers.hosts.len(),
            texts(out@) == missing_from(answers@.hosts, hi as int),
        decreases answers.hosts.len() - hi,
    {
        broadcast use lemma_texts_push;

        let host = &answers.hosts[hi];
        let ghost before = texts(out@);
        let ghost hv = host@;
        assert(answers@.hosts[hi as int] == hv);
        let ghost mut ip: Seq<Seq<char>> = Seq::empty();
        if trim(host.ip.as_str()).is_empty() {
            let mut m = owned("dev_hosts[");
            m.append(decimal_text(hi as u64).as_str());
            m.append("].ip");
            proof {
                ip = seq![m@];
            }
            out.push(m);
            assert(texts(out@) =~= before + ip);
        } else {
            assert(texts(out@) =~= before + ip);
        }
        let mut di: usize = 0;
        assert(texts(out@) =~= before + ip + missing_ports(hi as nat, hv.duts, 0));
        while di < host.duts.len()
            invariant
                di <= host.duts.len(),
                hv == host@,
                texts(out@) == before + ip + missing_ports(hi as nat, hv.duts, di as int),
            decreases host.duts.len() - di,
        {
            broadcast use lemma_texts_push;

            let port = trim(host.duts[di].serial_port.as_str());
            assert(hv.duts[di as int].serial_port == host.duts@[di as int].serial_port@);
            let ghost now = missing_ports(hi as nat, hv.duts, di + 1);
            if port.is_empty() || same(port, "0") {
                let mut m = owned("dev_hosts[");
                m.append(decimal_text(hi as u64).as_str());
                m.append("].duts[");
                m.append(decimal_text(di as u64).as_str());
                m.append("].serial.port");
                out.push(m);
                assert(texts(out@) =~= before + ip + now);
            } else {
                assert(texts(out@) =~= before + ip + now);
            }
            di += 1;
        }
        hi += 1;
    }
    out
}

// ── Answers to configuration ─────────────────────────────────────────
/// A number of which zero and nothing mean that it is inherited.
pub open spec fn guarded_number(key: Seq<char>, kind: Seq<char>, v: Seq<char>, max: nat) -> Result<
    Option<nat>,
    Seq<char>,
> {
    let t = trimmed(v);
    if t.len() == 0 {
        Ok(None)
    } else {
        match unsigned(t, max) {
            Some(n) => if n == 0 {
                Ok(None)
            } else {
                Ok(Some(n))
            },
            None => Err(invalid_answer(key, kind, t)),
        }
    }
}

fn parse_guarded(key: &str, kind: &str, v: &str, max: u64) -> (r: Result<Option<u64>, String>)
    ensures
        match r {
            Ok(Some(n)) => guarded_number(key@, kind@, v@, max as nat) == Ok::<
                Option<nat>,
                Seq<char>,
            >(Some(n as nat)) && n <= max,
            Ok(None) => guarded_number(key@, kind@, v@, max as nat) == Ok::<
                Option<nat>,
                Seq<char>,
            >(None),
            Err(e) => guarded_number(key@, kind@, v@, max as nat) == Err::<
                Option<nat>,
                Seq<char>,
            >(e@),
        },
{
    let t = trim(v);
    if t.is_empty() {
        return Ok(None);
    }
    match parse_unsigned(t, max) {
        Some(n) => {
            if n == 0 {
                Ok(None)
            } else {
                Ok(Some(n))
            }
        },
        None => Err(invalid_text(key, kind, t)),
    }
}

/// The port of a relay.
pub fn parse_relay_u16(key: &str, v: &str) -> (r: Result<Option<u16>, String>)
    ensures
        match r {
            Ok(Some(n)) => guarded_number(key@, "port"@, v@, 65535) == Ok::<
                Option<nat>,
                Seq<char>,
            >(Some(n as nat)),
            Ok(None) => guarded_number(key@, "port"@, v@, 65535) == Ok::<Option<nat>, Seq<char>>(
                None,
            ),
            Err(e) => guarded_number(key@, "port"@, v@, 65535) == Err::<Option<nat>, Seq<char>>(
                e@,
            ),
        },
{
    match parse_guarded(key, "port", v, 65535) {
        Ok(Some(n)) => Ok(Some(n as u16)),
        Ok(None) => Ok(None),
        Err(e) => Err(e),
    }
}

/// A channel of a relay.
pub fn parse_relay_u8(key: &str, v: &str) -> (r: Result<Option<u8>, String>)
    ensures
        match r {
            Ok(Some(n)) => guarded_number(key@, "channel"@, v@, 255) == Ok::<
                Option<nat>,
                Seq<char>,
            >(Some(n as nat)),
            Ok(None) => guarded_number(key@, "channel"@, v@, 255) == Ok::<Option<nat>, Seq<char>>(
                None,
            ),
            Err(e) => guarded_number(key@, "channel"@, v@, 255) == Err::<Option<nat>, Seq<char>>(
                e@,
            ),
        },
{
    match parse_guarded(key, "channel", v, 255) {
        Ok(Some(n)) => Ok(Some(n as u8)),
        Ok(None) => Ok(None),
        Err(e) => Err(e),
    }
}

/// A time of a relay.
pub fn parse_relay_u64(key: &str, v: &str) -> (r: Result<Option<u64>, String>)
    ensures
        match r {
            Ok(Some(n)) => guarded_number(key@, "ms"@, v@, u64::MAX as nat) == Ok::<
                Option<nat>,
                Seq<char>,
            >(Some(n as nat)),
            Ok(None) => guarded_number(key@, "ms"@, v@, u64::MAX as nat) == Ok::<
                Option<nat>,
                Seq<char>,
            >(None),
            Err(e) => guarded_number(key@, "ms"@, v@, u64::MAX as nat) == Err::<
                Option<nat>,
                Seq<char>,
            >(e@),
        },
{
    parse_guarded(key, "ms", v, u64::MAX)
}

/// The number in a result, as a number of 8 bits.
pub open spec fn as_u8(r: Result<Option<nat>, Seq<char>>) -> Option<u8> {
    match r {
        Ok(Some(n)) => Some(n as u8),
        _ => None,
    }
}

/// The first of two errors.
pub open spec fn first_error(a: Option<Seq<char>>, b: Option<Seq<char>>) -> Option<Seq<char>> {
    if a is Some {
        a
    } else {
        b
    }
}

/// The error in a result.
pub open spec fn error_of(r: Result<Option<nat>, Seq<char>>) -> Option<Seq<char>> {
    match r {
        Err(e) => Some(e),
        Ok(_) => None,
    }
}

/// The relay section that the answers about a board describe: none without a
/// relay. The power key is held for at least 3000 milliseconds.
pub open spec fn relay_of(d: DutAnswersView) -> Result<Option<RelayView>, Seq<char>> {
    if !d.relay_gate {
        Ok(None)
    } else {
        let port = guarded_number("relay.port"@, "port"@, d.relay_port, 65535);
        let reset = guarded_number("relay.reset_ch"@, "channel"@, d.relay_reset_ch, 255);
        let download = guarded_number("relay.download_ch"@, "channel"@, d.relay_download_ch, 255);
        let power = guarded_number("relay.power_ch"@, "channel"@, d.relay_power_ch, 255);
        let hold = guarded_number(
            "relay.reset_time_ms"@,
            "ms"@,
            d.relay_reset_time_ms,
            u64::MAX as nat,
        );
        let off = guarded_number(
            "relay.power_off_time_ms"@,
            "ms"@,
            d.relay_power_off_time_ms,
            u64::MAX as nat,
        );
        match first_error(
            error_of(port),
            first_error(
                error_of(reset),
                first_error(
                    error_of(download),
                    first_error(error_of(power), first_error(error_of(hold), error_of(off))),
                ),
            ),
        ) {
            Some(e) => Err(e),
            None => Ok(
                Some(
                    RelayView {
                        relay_type: Some(d.relay_type),
                        port: match port {
                            Ok(Some(n)) => Some(n as u16),
                            _ => None,
                        },
                        ip: None,
                        reset_ch: as_u8(reset),
                        download_ch: as_u8(download),
                        power_ch: as_u8(power),
                        reset_time_ms: match hold {
                            Ok(Some(n)) => Some(n as u64),
                            _ => None,
                        },
                        power_off_time_ms: match off {
                            Ok(Some(n)) => Some(
                                if n < 3000 {
                                    3000
                                } else {
                                    n as u64
                                },
                            ),
                            _ => None,
                        },
                    },
                ),
            ),
        }
    }
}

/// The relay section that the answers about a board describe.
pub fn relay_from_answers(dut: &DutAnswers) -> (r: Result<Option<JsoncRelay>, String>)
    ensures
        match r {
            Ok(Some(x)) => relay_of(dut@) == Ok::<Option<RelayView>, Seq<char>>(Some(x@)),
            Ok(None) => relay_of(dut@) == Ok::<Option<RelayView>, Seq<char>>(None),
            Err(e) => relay_of(dut@) == Err::<Option<RelayView>, Seq<char>>(e@),
        },
{
    if !dut.relay_gate {
        return Ok(None);
    }
    let port = match parse_relay_u16("relay.port", dut.relay_port.as_str()) {
        Ok(n) => n,
        Err(e) => {
            return Err(e);
        },
    };
    let reset_ch = match parse_relay_u8("relay.reset_ch", dut.relay_reset_ch.as_str()) {
        Ok(n) => n,
        Err(e) => {
            return Err(e);
        },
    };
    let download_ch = match parse_relay_u8("relay.download_ch", dut.relay_download_ch.as_str()) {
        Ok(n) => n,
        Err(e) => {
            return Err(e);
        },
    };
    let power_ch = match parse_relay_u8("relay.power_ch", dut.relay_power_ch.as_str()) {
        Ok(n) => n,
        Err(e) => {
            return Err(e);
        },
    };
    let reset_time_ms = match parse_relay_u64(
        "relay.reset_time_ms",
        dut.relay_reset_time_ms.as_str(),
    ) {
        Ok(n) => n,
        Err(e) => {
            return Err(e);
        },
    };
    let power_off_time_ms = match parse_relay_u64(
        "relay.power_off_time_ms",
        dut.relay_power_off_time_ms.as_str(),
    ) {
        Ok(Some(n)) => if n < 3000 {
            Some(3000)
        } else {
            Some(n)
        },
        Ok(None) => None,
        Err(e) => {
            return Err(e);
        },
    };
    let r = JsoncRelay {
        relay_type: Some(owned(dut.relay_type.as_str())),
        port,
        ip: None,
        reset_ch,
        download_ch,
        power_ch,
        reset_time_ms,
        power_off_time_ms,
    };
    assert(Some(r@) =~= relay_of(dut@)->Ok_0);
    Ok(Some(r))
}

/// The board that answers describe, without its advanced answers.
pub open spec fn plain_dut(d: DutAnswersView, relay: Option<RelayView>) -> DutView {
    DutView {
        dut_name: d.dut_name,
        serial: Some(SerialView { port: Some(scalar_of(d.serial_port)), ..no_serial() }),
        target: Some(
            TargetView {
                login_user: Some(d.login_user),
                login_pass: Some(Seq::empty()),
                ..no_target()
            },
        ),
        relay,
        uboot: None,
        monitor: None,
        flash: None,
        download: None,
        control: None,
        loader: None,
        reference_log: None,
        dut_dir: None,
    }
}

/// The board that answers describe.
pub open spec fn dut_config(d: DutAnswersView) -> Result<DutView, Seq<char>> {
    match relay_of(d) {
        Err(e) => Err(e),
        Ok(relay) => {
            let (x, e) = merged_dut_from(plain_dut(d, relay), d.advanced, 0);
            match e {
                Some(m) => Err(m),
                None => Ok(x),
            }
        },
    }
}

/// The board that answers describe.
pub fn dut_jsonc(dut: &DutAnswers) -> (r: Result<JsoncDut, String>)
    ensures
        match r {
            Ok(x) => dut_config(dut@) == Ok::<DutView, Seq<char>>(x@),
            Err(e) => dut_config(dut@) == Err::<DutView, Seq<char>>(e@),
        },
{
    let port = match parse_number_or_string(dut.serial_port.as_str()) {
        Ok(p) => p,
        Err(e) => {
            return Err(e);
        },
    };
    let relay = match relay_from_answers(dut) {
        Ok(x) => x,
        Err(e) => {
            return Err(e);
        },
    };
    let ghost rv = relay_of(dut@)->Ok_0;
    let mut serial = JsoncSerial::default();
    serial.port = Some(port);
    let mut target = JsoncTarget::default();
    target.login_user = Some(owned(dut.login_user.as_str()));
    target.login_pass = Some(String::new());
    let mut out = JsoncDut {
        dut_name: owned(dut.dut_name.as_str()),
        serial: Some(serial),
        target: Some(target),
        relay,
        uboot: None,
        monitor: None,
        flash: None,
        download: None,
        control: None,
        loader: None,
        reference_log: None,
        dut_dir: None,
    };
    assert(out@ =~= plain_dut(dut@, rv));
    match merge_dut_advanced(&mut out, &dut.advanced) {
        Ok(()) => Ok(out),
        Err(e) => Err(e),
    }
}

/// The boards from number `i` on, behind those in `before`.
pub open spec fn duts_config(duts: Seq<DutAnswersView>, i: int, before: Seq<DutView>) -> Result<
    Seq<DutView>,
    Seq<char>,
>
    decreases duts.len() - i,
{
    if i < 0 || i >= duts.len() {
        Ok(before)
    } else {
        match dut_config(duts[i]) {
            Ok(d) => duts_config(duts, i + 1, before.push(d)),
            Err(e) => Err(e),
        }
    }
}

/// The host that answers describe. An empty display name is none.
pub open spec fn host_config(h: HostAnswersView) -> Result<HostView, Seq<char>> {
    match duts_config(h.duts, 0, Seq::empty()) {
        Ok(duts) => Ok(
            HostView {
                host_name: if h.host_name.len() == 0 {
                    None
                } else {
                    Some(h.host_name)
                },
                ip: Some(h.ip),
                user: Some(h.user),
                pass: Some(h.pass),
                duts,
            },
        ),
        Err(e) => Err(e),
    }
}

/// The host that answers describe.
pub fn host_jsonc(host: &HostAnswers) -> (r: Result<JsoncDevHost, String>)
    ensures
        match r {
            Ok(x) => host_config(host@) == Ok::<HostView, Seq<char>>(x@),
            Err(e) => host_config(host@) == Err::<HostView, Seq<char>>(e@),
        },
{
    let mut duts: Vec<JsoncDut> = Vec::new();
    let mut i: usize = 0;
    let ghost dv = host@.duts;
    assert(crate::config::duts_view(duts@) =~= Seq::empty());
    while i < host.duts.len()
        invariant
            i <= host.duts.len(),
            dv == host@.duts,
            duts_config(dv, i as int, crate::config::duts_view(duts@)) == duts_config(
                dv,
                0,
                Seq::empty(),
            ),
        decreases host.duts.len() - i,
    {
        let ghost before = duts@;
        assert(dv[i as int] == host.duts@[i as int]@);
        match dut_jsonc(&host.duts[i]) {
            Ok(d) => {
                duts.push(d);
                assert(crate::config::duts_view(duts@) =~= crate::config::duts_view(before).push(
                    d@,
                ));
            },
            Err(e) => {
                return Err(e);
            },
        }
        i += 1;
    }
    let r = JsoncDevHost {
        host_name: if host.host_name.as_str().is_empty() {
            None
        } else {
            Some(owned(host.host_name.as_str()))
        },
        ip: Some(owned(host.ip.as_str())),
        user: Some(owned(host.user.as_str())),
        pass: Some(owned(host.pass.as_str())),
        duts,
    };
    assert(r@ =~= host_config(host@)->Ok_0);
    Ok(r)
}

/// The hosts from number `i` on, behind those in `before`.
pub open spec fn hosts_config(hosts: Seq<HostAnswersView>, i: int, before: Seq<HostView>) -> Result<
    Seq<HostView>,
    Seq<char>,
>
    decreases hosts.len() - i,
{
    if i < 0 || i >= hosts.len() {
        Ok(before)
    } else {
        match host_config(hosts[i]) {
            Ok(h) => hosts_config(hosts, i + 1, before.push(h)),
            Err(e) => Err(e),
        }
    }
}

/// The configuration that answers describe.
pub open spec fn answers_config(a: WizardAnswersView) -> Result<ConfigView, Seq<char>> {
    match hosts_config(a.hosts, 0, Seq::empty()) {
        Err(e) => Err(e),
        Ok(hosts) => {
            let (c, e) = merged_from(ConfigView { dev_hosts: hosts, ..no_config() }, a.advanced, 0);
            match e {
                Some(m) => Err(m),
                None => Ok(c),
            }
        },
    }
}

/// The configuration that answers describe.
pub fn build_config_from_answers(answers: &WizardAnswers) -> (r: Result<TargetJsoncConfig, String>)
    ensures
        match r {
            Ok(c) => answers_config(answers@) == Ok::<ConfigView, Seq<char>>(c@),
            Err(e) => answers_config(answers@) == Err::<ConfigView, Seq<char>>(e@),
        },
{
    let mut hosts: Vec<JsoncDevHost> = Vec::new();
    let mut i: usize = 0;
    let ghost hv = answers@.hosts;
    assert(crate::config::hosts_view(hosts@) =~= Seq::empty());
    while i < answers.hosts.len()
        invariant
            i <= answers.hosts.len(),
            hv == answers@.hosts,
            hosts_config(hv, i as int, crate::config::hosts_view(hosts@)) == hosts_config(
                hv,
                0,
                Seq::empty(),
            ),
        decreases answers.hosts.len() - i,
    {
        let ghost before = hosts@;
        assert(hv[i as int] == answers.hosts@[i as int]@);
        match host_jsonc(&answers.hosts[i]) {
            Ok(h) => {
                hosts.push(h);
                assert(crate::config::hosts_view(hosts@) =~= crate::config::hosts_view(
                    before,
                ).push(h@));
            },
            Err(e) => {
                return Err(e);
            },
        }
        i += 1;
    }
    let mut config = TargetJsoncConfig::default();
    config.dev_hosts = hosts;
    assert(config@ =~= ConfigView {
        dev_hosts: crate::config::hosts_view(hosts@),
        ..no_config()
    });
    match merge_advanced(&mut config, &answers.advanced) {
        Ok(()) => Ok(config),
        Err(e) => Err(e),
    }
}

/// Without hosts there are no boards in the configuration.
pub proof fn lemma_no_hosts_no_duts(a: WizardAnswersView)
    requires
        a.hosts.len() == 0,
        answers_config(a) is Ok,
    ensures
        answers_config(a)->Ok_0.dev_hosts.len() == 0,
{
    crate::merge::lemma_answers_keep_hosts(
        ConfigView { dev_hosts: Seq::empty(), ..no_config() },
        a.advanced,
        0,
    );
}

} // verus!

//! From what was typed into a form to answers, or to what is wrong with it.
use crate::advanced::{
    adv_views, advanced_default, advanced_fields, advanced_literal, advanced_table, dut_owned,
    dut_owned_advanced, literal_of, natural_default, AdvFieldView, EmptyMeans,
};
use crate::answers::{
    dut_answers_view, host_answers_view, DutAnswers, DutAnswersView, HostAnswers, HostAnswersView,
    WizardAnswers, WizardAnswersView,
};
use crate::defaults::{
    dut_or_unknown, host_or_unknown, known_dut_or_default, known_host_or_default, or_text,
    take_name, text_or, with_name,
};
use crate::fields::{at_least_one, dut_advanced_current_value, dut_current_value};
use crate::form::{
    dut_advanced_group, dut_advanced_group_of, typed_names, typed_value, FieldKey, FieldKeyFrag,
    FieldValues, FieldView, FragView, KeyView, Typed,
};
use crate::naming::{next_free, next_free_dut_name};
use crate::number::{ascii_lowered, parse_unsigned, to_ascii_lower, unsigned};
use crate::schema::{DutDefaults, DutDefaultsView, FormSchema, HostDefaultsView, SchemaView};
use crate::text::{
    copy_texts, has_text, lemma_texts_push, opt_text, or_empty, owned, same, text_or_empty, texts,
    trim, trimmed,
};
use crate::text_map::{lookup, put, ref_text, Pairs, TextMap};
use vstd::prelude::*;

verus! {

/// What happens to a board name that is already taken.
#[derive(Clone, Copy, Debug, PartialEq, Eq, Structural)]
pub enum NamePolicy {
    /// Another name is used.
    AutoAdvance,
    /// The name is refused.
    ErrorOnCollision,
}

/// What is wrong, field by field.
pub type Errors = Seq<(KeyView, Seq<char>)>;

/// The meanings of what is wrong.
pub open spec fn errors_view(v: Seq<(FieldKey, String)>) -> Errors {
    Seq::new(v.len(), |i: int| (v[i].0@, v[i].1@))
}

/// What has come up so far: what is wrong, the names that are taken, and what
/// was decided about names.
pub struct Progress {
    pub errors: Vec<(FieldKey, String)>,
    pub taken: Vec<String>,
    pub announcements: Vec<String>,
}

/// The meaning of [`Progress`].
#[verifier::ext_equal]
pub struct ProgressView {
    pub errors: Errors,
    pub taken: Seq<Seq<char>>,
    pub announcements: Seq<Seq<char>>,
}

impl View for Progress {
    type V = ProgressView;

    open spec fn view(&self) -> ProgressView {
        ProgressView {
            errors: errors_view(self.errors@),
            taken: texts(self.taken@),
            announcements: texts(self.announcements@),
        }
    }
}

/// With one more thing that is wrong.
pub open spec fn with_error(p: ProgressView, key: KeyView, e: Seq<char>) -> ProgressView {
    ProgressView { errors: p.errors.push((key, e)), ..p }
}

impl Progress {
    /// Adds one more thing that is wrong.
    pub fn error(&mut self, key: FieldKey, e: String)
        ensures
            final(self)@ == with_error(old(self)@, key@, e@),
    {
        self.errors.push((key, e));
        assert(self@ =~= with_error(old(self)@, key@, e@)) by {
            assert(errors_view(self.errors@) =~= errors_view(old(self).errors@).push((key@, e@)));
        }
    }
}

// ── Single fields ────────────────────────────────────────────────────
/// What was typed, without white space around it.
pub open spec fn cleaned(raw: Option<Seq<char>>) -> Seq<char> {
    trimmed(or_empty(raw))
}

fn clean<'a>(raw: Option<&'a String>) -> (r: &'a str)
    ensures
        r@ == cleaned(ref_text(raw)),
{
    match raw {
        Some(s) => trim(s.as_str()),
        None => {
            proof {
                reveal_strlit("");
                assert(""@ =~= Seq::empty());
            }
            ""
        },
    }
}

/// The message about a count that is none.
pub open spec fn not_a_count(t: Seq<char>) -> Seq<char> {
    "'"@ + t + "' is not a non-negative integer"@
}

/// The message about a count that is none.
pub fn not_a_count_text(t: &str) -> (r: String)
    ensures
        r@ == not_a_count(t@),
{
    let mut e = owned("'");
    e.append(t);
    e.append("' is not a non-negative integer");
    e
}

/// The count that was typed, or the default where nothing was.
pub open spec fn count_of(raw: Option<Seq<char>>, default: usize) -> Result<usize, Seq<char>> {
    let t = cleaned(raw);
    if t.len() == 0 {
        Ok(default)
    } else {
        match unsigned(t, usize::MAX as nat) {
            Some(n) => Ok(n as usize),
            None => Err(not_a_count(t)),
        }
    }
}

/// The count that was typed, or the default where nothing was. Zero is a count.
pub fn count_value(raw: Option<&String>, default: usize) -> (r: Result<usize, String>)
    ensures
        match r {
            Ok(n) => count_of(ref_text(raw), default) == Ok::<usize, Seq<char>>(n),
            Err(e) => count_of(ref_text(raw), default) == Err::<usize, Seq<char>>(e@),
        },
{
    let t = clean(raw);
    if t.is_empty() {
        return Ok(default);
    }
    match parse_unsigned(t, usize::MAX as u64) {
        Some(n) => Ok(n as usize),
        None => Err(not_a_count_text(t)),
    }
}

/// A text that must be there: what was typed, or the default unless it is
/// empty.
pub open spec fn required_of(
    p: ProgressView,
    key: KeyView,
    raw: Option<Seq<char>>,
    default: Option<Seq<char>>,
) -> (Seq<char>, ProgressView) {
    if cleaned(raw).len() > 0 {
        (cleaned(raw), p)
    } else if or_empty(default).len() > 0 {
        (or_empty(default), p)
    } else {
        (Seq::empty(), with_error(p, key, "value is required"@))
    }
}

fn required_text(p: &mut Progress, key: FieldKey, raw: Option<&String>, default: &Option<String>) -> (r:
    String)
    ensures
        (r@, final(p)@) == required_of(old(p)@, key@, ref_text(raw), opt_text(*default)),
{
    let t = clean(raw);
    if !t.is_empty() {
        return owned(t);
    }
    let d = text_or_empty(default);
    if !d.as_str().is_empty() {
        return d;
    }
    p.error(key, owned("value is required"));
    String::new()
}

/// A text that may be there: what was typed, or the default.
pub open spec fn optional_of(raw: Option<Seq<char>>, default: Seq<char>) -> Seq<char> {
    if cleaned(raw).len() > 0 {
        cleaned(raw)
    } else {
        default
    }
}

fn optional_text(raw: Option<&String>, default: String) -> (r: String)
    ensures
        r@ == optional_of(ref_text(raw), default@),
{
    let t = clean(raw);
    if t.is_empty() {
        default
    } else {
        owned(t)
    }
}

/// The serial port of a board. Zero is none.
pub open spec fn port_of(
    p: ProgressView,
    key: KeyView,
    raw: Option<Seq<char>>,
    default: Option<Seq<char>>,
) -> (Seq<char>, ProgressView) {
    if cleaned(raw) == "0"@ {
        ("0"@, with_error(p, key, "serial.port cannot be 0"@))
    } else {
        required_of(p, key, raw, default)
    }
}

fn port_text(p: &mut Progress, key: FieldKey, raw: Option<&String>, default: &Option<String>) -> (r:
    String)
    ensures
        (r@, final(p)@) == port_of(old(p)@, key@, ref_text(raw), opt_text(*default)),
{
    if same(clean(raw), "0") {
        p.error(key, owned("serial.port cannot be 0"));
        return owned("0");
    }
    required_text(p, key, raw, default)
}

/// Whether the board has a relay: what was typed, or what is known.
pub open spec fn relay_gate_of(
    p: ProgressView,
    key: KeyView,
    raw: Option<Seq<char>>,
    default: bool,
) -> (bool, ProgressView) {
    let v = ascii_lowered(cleaned(raw));
    if v.len() == 0 {
        (default, p)
    } else if v == "yes"@ || v == "true"@ || v == "1"@ || v == "on"@ {
        (true, p)
    } else if v == "no"@ || v == "false"@ || v == "0"@ || v == "off"@ {
        (false, p)
    } else {
        (default, with_error(p, key, "'"@ + v + "' is not yes/no"@))
    }
}

fn relay_gate_value(p: &mut Progress, key: FieldKey, raw: Option<&String>, default: bool) -> (r: bool)
    ensures
        (r, final(p)@) == relay_gate_of(old(p)@, key@, ref_text(raw), default),
{
    let t = clean(raw);
    let low = to_ascii_lower(t);
    let v = low.as_str();
    if v.is_empty() {
        return default;
    }
    if same(v, "yes") || same(v, "true") || same(v, "1") || same(v, "on") {
        return true;
    }
    if same(v, "no") || same(v, "false") || same(v, "0") || same(v, "off") {
        return false;
    }
    let mut e = owned("'");
    e.append(v);
    e.append("' is not yes/no");
    p.error(key, e);
    default
}

/// A number of the relay: what was typed if it can be taken, or the default
/// where nothing was.
pub open spec fn relay_field_of(
    p: ProgressView,
    key: KeyView,
    advanced_key: Seq<char>,
    raw: Option<Seq<char>>,
    default: Seq<char>,
) -> (Seq<char>, ProgressView) {
    let t = cleaned(raw);
    if t.len() == 0 {
        (default, p)
    } else {
        match literal_of(advanced_key, t) {
            Ok(_) => (t, p),
            Err(e) => (Seq::empty(), with_error(p, key, e)),
        }
    }
}

fn relay_field(
    p: &mut Progress,
    key: FieldKey,
    advanced_key: &str,
    raw: Option<&String>,
    default: String,
) -> (r: String)
    ensures
        (r@, final(p)@) == relay_field_of(old(p)@, key@, advanced_key@, ref_text(raw), default@),
{
    let t = clean(raw);
    if t.is_empty() {
        return default;
    }
    match advanced_literal(advanced_key, t) {
        Ok(_) => owned(t),
        Err(e) => {
            p.error(key, e);
            String::new()
        },
    }
}

// ── Names ────────────────────────────────────────────────────────────
/// How often a name is among the first `n`.
pub open spec fn times(names: Seq<Seq<char>>, name: Seq<char>, n: int) -> nat
    decreases n,
{
    if n <= 0 {
        0
    } else if names[n - 1] == name {
        times(names, name, n - 1) + 1
    } else {
        times(names, name, n - 1)
    }
}

/// The names with the first `n` others that are not empty.
pub open spec fn with_names(taken: Seq<Seq<char>>, names: Seq<Seq<char>>, n: int) -> Seq<Seq<char>>
    decreases n,
{
    if n <= 0 {
        taken
    } else if names[n - 1].len() > 0 {
        with_names(taken, names, n - 1).push(names[n - 1])
    } else {
        with_names(taken, names, n - 1)
    }
}

/// Whether a typed name is already taken: it was typed twice, or the
/// configuration has it for another board.
pub open spec fn name_collides(
    names: Seq<Seq<char>>,
    known: Seq<Seq<char>>,
    own: Option<Seq<char>>,
    name: Seq<char>,
) -> bool {
    times(names, name, names.len() as int) > 1 || (own != Some(name) && known.contains(name))
}

/// The name of a board. An empty field means the board's own name, or the
/// first free one.
pub open spec fn resolved_name(
    p: ProgressView,
    key: KeyView,
    raw: Option<Seq<char>>,
    own: Option<Seq<char>>,
    names: Seq<Seq<char>>,
    known: Seq<Seq<char>>,
    policy: NamePolicy,
) -> (Seq<char>, ProgressView) {
    let t = cleaned(raw);
    let free = next_free("dut"@, p.taken);
    if t.len() == 0 {
        if or_empty(own).len() > 0 {
            (or_empty(own), ProgressView { taken: with_name(p.taken, or_empty(own)), ..p })
        } else {
            (
                free,
                ProgressView {
                    taken: p.taken.push(free),
                    announcements: p.announcements.push(
                        "dut name was empty — auto-named '"@ + free + "'"@,
                    ),
                    ..p
                },
            )
        }
    } else if !name_collides(names, known, own, t) {
        (t, ProgressView { taken: p.taken.push(t), ..p })
    } else if policy == NamePolicy::AutoAdvance {
        (
            free,
            ProgressView {
                taken: p.taken.push(free),
                announcements: p.announcements.push(
                    "dut name '"@ + t + "' already taken — using '"@ + free + "'"@,
                ),
                ..p
            },
        )
    } else {
        (
            t,
            with_error(
                p,
                key,
                "dut name '"@ + t
                    + "' already taken — pick another or leave empty to auto-name '"@ + free
                    + "'"@,
            ),
        )
    }
}

fn count_times(names: &Vec<String>, name: &str) -> (r: usize)
    ensures
        r == times(texts(names@), name@, names@.len() as int),
        r <= names@.len(),
{
    let ghost nv = texts(names@);
    let mut n: usize = 0;
    let mut i: usize = 0;
    while i < names.len()
        invariant
            i <= names.len(),
            n <= i,
            nv == texts(names@),
            n == times(nv, name@, i as int),
        decreases names.len() - i,
    {
        if same(names[i].as_str(), name) {
            n += 1;
        }
        i += 1;
    }
    n
}

fn resolve_dut_name(
    p: &mut Progress,
    key: FieldKey,
    raw: Option<&String>,
    own: &Option<String>,
    names: &Vec<String>,
    known: &Vec<String>,
    policy: NamePolicy,
) -> (r: String)
    ensures
        (r@, final(p)@) == resolved_name(
            old(p)@,
            key@,
            ref_text(raw),
            opt_text(*own),
            texts(names@),
            texts(known@),
            policy,
        ),
{
    broadcast use lemma_texts_push;

    let ghost p0 = p@;
    let t = clean(raw);
    if t.is_empty() {
        let o = text_or_empty(own);
        if !o.as_str().is_empty() {
            take_name(&mut p.taken, o.as_str());
            assert(p@ =~= ProgressView { taken: with_name(p0.taken, o@), ..p0 });
            return o;
        }
        let free = next_free_dut_name("dut", p.taken.as_slice());
        p.taken.push(owned(free.as_str()));
        let mut note = owned("dut name was empty — auto-named '");
        note.append(free.as_str());
        note.append("'");
        p.announcements.push(note);
        assert(p@ =~= resolved_name(
            p0,
            key@,
            ref_text(raw),
            opt_text(*own),
            texts(names@),
            texts(known@),
            policy,
        ).1);
        return free;
    }
    let is_own = match own {
        Some(o) => same(o.as_str(), t),
        None => false,
    };
    let collides = count_times(names, t) > 1 || (!is_own && has_text(known.as_slice(), t));
    if !collides {
        p.taken.push(owned(t));
        assert(p@ =~= ProgressView { taken: p0.taken.push(t@), ..p0 });
        return owned(t);
    }
    let free = next_free_dut_name("dut", p.taken.as_slice());
    if policy == NamePolicy::AutoAdvance {
        p.taken.push(owned(free.as_str()));
        let mut note = owned("dut name '");
        note.append(t);
        note.append("' already taken — using '");
        note.append(free.as_str());
        note.append("'");
        p.announcements.push(note);
        assert(p@ =~= resolved_name(
            p0,
            key@,
            ref_text(raw),
            opt_text(*own),
            texts(names@),
            texts(known@),
            policy,
        ).1);
        return free;
    }
    let mut e = owned("dut name '");
    e.append(t);
    e.append("' already taken — pick another or leave empty to auto-name '");
    e.append(free.as_str());
    e.append("'");
    p.error(key, e);
    owned(t)
}

// ── Boards ───────────────────────────────────────────────────────────
/// The relay answers about a board.
pub struct RelayAnswers {
    pub relay_type: String,
    pub relay_port: String,
    pub relay_reset_ch: String,
    pub relay_download_ch: String,
    pub relay_power_ch: String,
    pub relay_reset_time_ms: String,
    pub relay_power_off_time_ms: String,
}

/// The meaning of [`RelayAnswers`].
#[verifier::ext_equal]
pub struct RelayAnswersView {
    pub relay_type: Seq<char>,
    pub relay_port: Seq<char>,
    pub relay_reset_ch: Seq<char>,
    pub relay_download_ch: Seq<char>,
    pub relay_power_ch: Seq<char>,
    pub relay_reset_time_ms: Seq<char>,
    pub relay_power_off_time_ms: Seq<char>,
}

impl View for RelayAnswers {
    type V = RelayAnswersView;

    open spec fn view(&self) -> RelayAnswersView {
        RelayAnswersView {
            relay_type: self.relay_type@,
            relay_port: self.relay_port@,
            relay_reset_ch: self.relay_reset_ch@,
            relay_download_ch: self.relay_download_ch@,
            relay_power_ch: self.relay_power_ch@,
            relay_reset_time_ms: self.relay_reset_time_ms@,
            relay_power_off_time_ms: self.relay_power_off_time_ms@,
        }
    }
}

/// The relay answers about a board without a relay.
pub open spec fn no_relay_answers() -> RelayAnswersView {
    RelayAnswersView {
        relay_type: Seq::empty(),
        relay_port: Seq::empty(),
        relay_reset_ch: Seq::empty(),
        relay_download_ch: Seq::empty(),
        relay_power_ch: Seq::empty(),
        relay_reset_time_ms: Seq::empty(),
        relay_power_off_time_ms: Seq::empty(),
    }
}

/// The relay answers about a board without a relay.
pub fn empty_relay_answers() -> (r: RelayAnswers)
    ensures
        r@ == no_relay_answers(),
{
    let r = RelayAnswers {
        relay_type: String::new(),
        relay_port: String::new(),
        relay_reset_ch: String::new(),
        relay_download_ch: String::new(),
        relay_power_ch: String::new(),
        relay_reset_time_ms: String::new(),
        relay_power_off_time_ms: String::new(),
    };
    assert(r@ =~= no_relay_answers());
    r
}

/// The relay answers about a board with a relay. An empty port, channel or
/// reset time is inherited; the power-off time has a default.
pub open spec fn resolved_relay(
    p: ProgressView,
    v: Typed,
    h: usize,
    d: usize,
    known: DutDefaultsView,
) -> (RelayAnswersView, ProgressView) {
    let relay_type = optional_of(
        typed_value(v, KeyView::DutRelayType(h, d)),
        text_or(known.relay_type, "ch340"@),
    );
    let k1 = KeyView::DutRelayPort(h, d);
    let (relay_port, p1) = relay_field_of(p, k1, "relay.port"@, typed_value(v, k1), Seq::empty());
    let k2 = KeyView::DutRelayReset(h, d);
    let (reset, p2) = relay_field_of(p1, k2, "relay.reset_ch"@, typed_value(v, k2), Seq::empty());
    let k3 = KeyView::DutRelayDownload(h, d);
    let (download, p3) = relay_field_of(
        p2,
        k3,
        "relay.download_ch"@,
        typed_value(v, k3),
        Seq::empty(),
    );
    let k4 = KeyView::DutRelayPower(h, d);
    let (power, p4) = relay_field_of(p3, k4, "relay.power_ch"@, typed_value(v, k4), Seq::empty());
    let k5 = KeyView::DutRelayResetTimeMs(h, d);
    let (hold, p5) = relay_field_of(
        p4,
        k5,
        "relay.reset_time_ms"@,
        typed_value(v, k5),
        Seq::empty(),
    );
    let k6 = KeyView::DutRelayPowerOffTimeMs(h, d);
    let (off, p6) = relay_field_of(
        p5,
        k6,
        "relay.power_off_time_ms"@,
        typed_value(v, k6),
        text_or(known.relay_power_off_time_ms, "3000"@),
    );
    (
        RelayAnswersView {
            relay_type,
            relay_port,
            relay_reset_ch: reset,
            relay_download_ch: download,
            relay_power_ch: power,
            relay_reset_time_ms: hold,
            relay_power_off_time_ms: off,
        },
        p6,
    )
}

fn resolve_relay(p: &mut Progress, v: &FieldValues, h: usize, d: usize, known: &DutDefaults) -> (r:
    RelayAnswers)
    ensures
        (r@, final(p)@) == resolved_relay(old(p)@, v@, h, d, known@),
{
    let relay_type = optional_text(
        v.get(&FieldKey::DutRelayType(h, d)),
        or_text(&known.relay_type, "ch340"),
    );
    let k = FieldKey::DutRelayPort(h, d);
    let relay_port = relay_field(p, k, "relay.port", v.get(&k), String::new());
    let k = FieldKey::DutRelayReset(h, d);
    let relay_reset_ch = relay_field(p, k, "relay.reset_ch", v.get(&k), String::new());
    let k = FieldKey::DutRelayDownload(h, d);
    let relay_download_ch = relay_field(p, k, "relay.download_ch", v.get(&k), String::new());
    let k = FieldKey::DutRelayPower(h, d);
    let relay_power_ch = relay_field(p, k, "relay.power_ch", v.get(&k), String::new());
    let k = FieldKey::DutRelayResetTimeMs(h, d);
    let relay_reset_time_ms = relay_field(
        p,
        k,
        "relay.reset_time_ms",
        v.get(&k),
        String::new(),
    );
    let k = FieldKey::DutRelayPowerOffTimeMs(h, d);
    let relay_power_off_time_ms = relay_field(
        p,
        k,
        "relay.power_off_time_ms",
        v.get(&k),
        or_text(&known.relay_power_off_time_ms, "3000"),
    );
    let r = RelayAnswers {
        relay_type,
        relay_port,
        relay_reset_ch,
        relay_download_ch,
        relay_power_ch,
        relay_reset_time_ms,
        relay_power_off_time_ms,
    };
    assert(r@ =~= resolved_relay(old(p)@, v@, h, d, known@).0);
    r
}

/// One advanced key of a board. A field that was not touched records nothing,
/// but for the baud rate; one that was cleared records what the board has, or
/// that the value is to be inherited.
pub open spec fn resolved_dut_key(
    map: Pairs,
    p: ProgressView,
    s: SchemaView,
    v: Typed,
    h: usize,
    d: usize,
    k: Seq<char>,
    empty: EmptyMeans,
) -> (Pairs, ProgressView) {
    let key = KeyView::DutAdvanced(h, d, k);
    let fallback = if k == "serial.baudrate"@ {
        put(map, k, natural_default(k))
    } else {
        map
    };
    match typed_value(v, key) {
        None => (fallback, p),
        Some(raw) => {
            let t = trimmed(raw);
            if t.len() > 0 {
                match literal_of(k, t) {
                    Ok(_) => (put(map, k, t), p),
                    Err(e) => (map, with_error(p, key, e)),
                }
            } else if empty == EmptyMeans::SkipInherit {
                (put(map, k, Seq::empty()), p)
            } else {
                let now = dut_current_value(s, h, d, k);
                if or_empty(now).len() > 0 {
                    (put(map, k, or_empty(now)), p)
                } else {
                    (fallback, p)
                }
            }
        },
    }
}

fn resolve_dut_key(
    map: &mut TextMap,
    p: &mut Progress,
    schema: &FormSchema,
    v: &FieldValues,
    h: usize,
    d: usize,
    k: &'static str,
    empty: EmptyMeans,
)
    ensures
        (final(map)@, final(p)@) == resolved_dut_key(
            old(map)@,
            old(p)@,
            schema@,
            v@,
            h,
            d,
            k@,
            empty,
        ),
{
    let key = FieldKey::DutAdvanced(h, d, k);
    match v.get(&key) {
        None => {
            if same(k, "serial.baudrate") {
                map.insert(k, advanced_default(k));
            }
        },
        Some(raw) => {
            let t = trim(raw.as_str());
            if !t.is_empty() {
                match advanced_literal(k, t) {
                    Ok(_) => map.insert(k, owned(t)),
                    Err(e) => p.error(key, e),
                }
            } else if empty == EmptyMeans::SkipInherit {
                map.insert(k, String::new());
            } else {
                let now = dut_advanced_current_value(schema, h, d, k);
                let text = text_or_empty(&now);
                if !text.as_str().is_empty() {
                    map.insert(k, text);
                } else if same(k, "serial.baudrate") {
                    map.insert(k, advanced_default(k));
                }
            }
        },
    }
}

/// The advanced keys of a board, from field `i` on.
pub open spec fn resolved_dut_keys(
    map: Pairs,
    p: ProgressView,
    s: SchemaView,
    v: Typed,
    h: usize,
    d: usize,
    fields: Seq<FieldView>,
    i: int,
) -> (Pairs, ProgressView)
    decreases fields.len() - i,
{
    if i < 0 || i >= fields.len() {
        (map, p)
    } else {
        match fields[i].key {
            FragView::DutAdvanced(k) => {
                let (m, q) = resolved_dut_key(map, p, s, v, h, d, k, fields[i].empty);
                resolved_dut_keys(m, q, s, v, h, d, fields, i + 1)
            },
            _ => resolved_dut_keys(map, p, s, v, h, d, fields, i + 1),
        }
    }
}

/// What the answers, the board or the default say of an advanced key.
pub open spec fn answered_or_current(map: Pairs, s: SchemaView, h: usize, d: usize, k: Seq<char>) -> Option<
    Seq<char>,
> {
    let answered = lookup(map, k);
    if answered is Some && trimmed(or_empty(answered)).len() > 0 {
        answered
    } else {
        dut_current_value(s, h, d, k)
    }
}

fn answered(map: &TextMap, schema: &FormSchema, h: usize, d: usize, k: &str) -> (r: Option<String>)
    ensures
        opt_text(r) == answered_or_current(map@, schema@, h, d, k@),
{
    match map.get(k) {
        Some(v) => {
            if !trim(v.as_str()).is_empty() {
                return Some(owned(v.as_str()));
            }
        },
        None => {},
    }
    dut_advanced_current_value(schema, h, d, k)
}

/// With the complaint about a loader that is to be stopped by a pattern and
/// has none.
pub open spec fn check_pattern(map: Pairs, p: ProgressView, s: SchemaView, h: usize, d: usize) -> ProgressView {
    let strategy = text_or(
        answered_or_current(map, s, h, d, "uboot.interrupt_strategy"@),
        natural_default("uboot.interrupt_strategy"@),
    );
    if strategy == "pattern"@ && answered_or_current(map, s, h, d, "uboot.pattern"@) is None {
        with_error(
            p,
            KeyView::DutAdvanced(h, d, "uboot.pattern"@),
            "value is required when interrupt strategy is pattern"@,
        )
    } else {
        p
    }
}

/// The advanced answers about a board.
pub open spec fn resolved_dut_advanced(p: ProgressView, s: SchemaView, v: Typed, h: usize, d: usize) -> (
    Pairs,
    ProgressView,
) {
    let (map, q) = resolved_dut_keys(
        Pairs::empty(),
        p,
        s,
        v,
        h,
        d,
        dut_advanced_group_of().fields,
        0,
    );
    (map, check_pattern(map, q, s, h, d))
}

fn resolve_dut_advanced(p: &mut Progress, schema: &FormSchema, v: &FieldValues, h: usize, d: usize) -> (r:
    TextMap)
    ensures
        (r@, final(p)@) == resolved_dut_advanced(old(p)@, schema@, v@, h, d),
{
    let group = dut_advanced_group();
    let ghost fields = group@.fields;
    let ghost whole = resolved_dut_keys(Pairs::empty(), p@, schema@, v@, h, d, fields, 0);
    let mut map = TextMap::new();
    let mut i: usize = 0;
    while i < group.fields.len()
        invariant
            i <= group.fields.len(),
            fields == group@.fields,
            resolved_dut_keys(map@, p@, schema@, v@, h, d, fields, i as int) == whole,
        decreases group.fields.len() - i,
    {
        assert(fields[i as int] == group.fields@[i as int]@);
        match group.fields[i].key {
            FieldKeyFrag::DutAdvanced(k) => resolve_dut_key(
                &mut map,
                p,
                schema,
                v,
                h,
                d,
                k,
                group.fields[i].empty,
            ),
            _ => {},
        }
        i += 1;
    }
    let strategy = match answered(&map, schema, h, d, "uboot.interrupt_strategy") {
        Some(x) => x,
        None => advanced_default("uboot.interrupt_strategy"),
    };
    if same(strategy.as_str(), "pattern") && answered(
        &map,
        schema,
        h,
        d,
        "uboot.pattern",
    ).is_none() {
        p.error(
            FieldKey::DutAdvanced(h, d, "uboot.pattern"),
            owned("value is required when interrupt strategy is pattern"),
        );
    }
    map
}

/// What does not change from board to board.
pub struct FormContext<'a> {
    pub schema: &'a FormSchema,
    pub values: &'a FieldValues,
    pub names: Vec<String>,
    pub policy: NamePolicy,
}

/// The answers about a board.
pub open spec fn resolved_dut(
    p: ProgressView,
    s: SchemaView,
    v: Typed,
    policy: NamePolicy,
    h: usize,
    d: usize,
    known: DutDefaultsView,
) -> (DutAnswersView, ProgressView) {
    let (name, p1) = resolved_name(
        p,
        KeyView::DutName(h, d),
        typed_value(v, KeyView::DutName(h, d)),
        known.dut_name,
        typed_names(v, v.len() as int),
        s.taken_duts,
        policy,
    );
    let (port, p2) = port_of(
        p1,
        KeyView::DutPort(h, d),
        typed_value(v, KeyView::DutPort(h, d)),
        known.serial_port,
    );
    let user = optional_of(
        typed_value(v, KeyView::DutLoginUser(h, d)),
        text_or(known.login_user, "root"@),
    );
    let (gate, p3) = relay_gate_of(
        p2,
        KeyView::DutRelayGate(h, d),
        typed_value(v, KeyView::DutRelayGate(h, d)),
        known.relay_gate,
    );
    let (relay, p4) = if gate {
        resolved_relay(p3, v, h, d, known)
    } else {
        (no_relay_answers(), p3)
    };
    let (advanced, p5) = resolved_dut_advanced(p4, s, v, h, d);
    (dut_answers(name, port, user, gate, relay, advanced), p5)
}

/// The answers about a board, put together.
pub open spec fn dut_answers(
    name: Seq<char>,
    port: Seq<char>,
    user: Seq<char>,
    gate: bool,
    relay: RelayAnswersView,
    advanced: Pairs,
) -> DutAnswersView {
    DutAnswersView {
        dut_name: name,
        serial_port: port,
        login_user: user,
        relay_gate: gate,
        relay_type: relay.relay_type,
        relay_port: relay.relay_port,
        relay_reset_ch: relay.relay_reset_ch,
        relay_download_ch: relay.relay_download_ch,
        relay_power_ch: relay.relay_power_ch,
        relay_reset_time_ms: relay.relay_reset_time_ms,
        relay_power_off_time_ms: relay.relay_power_off_time_ms,
        advanced,
    }
}

/// The answers about a board, put together.
pub fn make_dut_answers(
    name: String,
    port: String,
    user: String,
    gate: bool,
    relay: RelayAnswers,
    advanced: TextMap,
) -> (r: DutAnswers)
    ensures
        r@ == dut_answers(name@, port@, user@, gate, relay@, advanced@),
{
    let r = DutAnswers {
        dut_name: name,
        serial_port: port,
        login_user: user,
        relay_gate: gate,
        relay_type: relay.relay_type,
        relay_port: relay.relay_port,
        relay_reset_ch: relay.relay_reset_ch,
        relay_download_ch: relay.relay_download_ch,
        relay_power_ch: relay.relay_power_ch,
        relay_reset_time_ms: relay.relay_reset_time_ms,
        relay_power_off_time_ms: relay.relay_power_off_time_ms,
        advanced,
    };
    assert(r@ =~= dut_answers(name@, port@, user@, gate, relay@, advanced@));
    r
}

fn resolve_dut(
    p: &mut Progress,
    c: &FormContext<'_>,
    h: usize,
    d: usize,
    known: &DutDefaults,
) -> (r: DutAnswers)
    requires
        texts(c.names@) == typed_names(c.values@, c.values@.len() as int),
    ensures
        (r@, final(p)@) == resolved_dut(
            old(p)@,
            c.schema@,
            c.values@,
            c.policy,
            h,
            d,
            known@,
        ),
{
    let k = FieldKey::DutName(h, d);
    let name = resolve_dut_name(
        p,
        k,
        c.values.get(&k),
        &known.dut_name,
        &c.names,
        &c.schema.taken_duts,
        c.policy,
    );
    let k = FieldKey::DutPort(h, d);
    let port = port_text(p, k, c.values.get(&k), &known.serial_port);
    let user = optional_text(
        c.values.get(&FieldKey::DutLoginUser(h, d)),
        or_text(&known.login_user, "root"),
    );
    let k = FieldKey::DutRelayGate(h, d);
    let gate = relay_gate_value(p, k, c.values.get(&k), known.relay_gate);
    let relay = if gate {
        resolve_relay(p, c.values, h, d, known)
    } else {
        empty_relay_answers()
    };
    let advanced = resolve_dut_advanced(p, c.schema, c.values, h, d);
    make_dut_answers(name, port, user, gate, relay, advanced)
}

/// The answers about the boards of a host, from board `d` to the one before
/// `n`, behind those in `before`.
pub open spec fn resolved_duts(
    before: Seq<DutAnswersView>,
    p: ProgressView,
    s: SchemaView,
    v: Typed,
    policy: NamePolicy,
    h: usize,
    known: HostDefaultsView,
    d: int,
    n: int,
) -> (Seq<DutAnswersView>, ProgressView)
    decreases n - d,
{
    if d >= n {
        (before, p)
    } else {
        let (a, q) = resolved_dut(p, s, v, policy, h, d as usize, dut_or_unknown(known, d));
        resolved_duts(before.push(a), q, s, v, policy, h, known, d + 1, n)
    }
}

// ── Hosts ────────────────────────────────────────────────────────────
/// A count, or its default with the complaint about it.
pub open spec fn counted_or(
    p: ProgressView,
    key: KeyView,
    raw: Option<Seq<char>>,
    default: usize,
) -> (usize, ProgressView) {
    match count_of(raw, default) {
        Ok(n) => (n, p),
        Err(e) => (default, with_error(p, key, e)),
    }
}

fn count_or(p: &mut Progress, key: FieldKey, raw: Option<&String>, default: usize) -> (r: usize)
    ensures
        (r, final(p)@) == counted_or(old(p)@, key@, ref_text(raw), default),
{
    match count_value(raw, default) {
        Ok(n) => n,
        Err(e) => {
            p.error(key, e);
            default
        },
    }
}

/// The answers about a host.
pub open spec fn resolved_host(
    p: ProgressView,
    s: SchemaView,
    v: Typed,
    policy: NamePolicy,
    h: usize,
) -> (HostAnswersView, ProgressView) {
    let known = host_or_unknown(s, h as int);
    let (ip, p1) = required_of(
        p,
        KeyView::HostIp(h),
        typed_value(v, KeyView::HostIp(h)),
        known.ip,
    );
    let user = optional_of(typed_value(v, KeyView::HostUser(h)), or_empty(known.user));
    let pass = optional_of(typed_value(v, KeyView::HostPass(h)), or_empty(known.pass));
    let host_name = optional_of(typed_value(v, KeyView::HostName(h)), or_empty(known.host_name));
    let (n, p2) = counted_or(
        p1,
        KeyView::DutCount(h),
        typed_value(v, KeyView::DutCount(h)),
        at_least_one(known.dut_count),
    );
    let (duts, p3) = resolved_duts(Seq::empty(), p2, s, v, policy, h, known, 0, n as int);
    (HostAnswersView { ip, user, pass, host_name, duts }, p3)
}

fn resolve_host(p: &mut Progress, c: &FormContext<'_>, h: usize) -> (r: HostAnswers)
    requires
        texts(c.names@) == typed_names(c.values@, c.values@.len() as int),
    ensures
        (r@, final(p)@) == resolved_host(old(p)@, c.schema@, c.values@, c.policy, h),
{
    let ghost s = c.schema@;
    let ghost v = c.values@;
    let known = known_host_or_default(c.schema, h);
    let ghost kv = known@;
    let k = FieldKey::HostIp(h);
    let ip = required_text(p, k, c.values.get(&k), &known.ip);
    let user = optional_text(c.values.get(&FieldKey::HostUser(h)), text_or_empty(&known.user));
    let pass = optional_text(c.values.get(&FieldKey::HostPass(h)), text_or_empty(&known.pass));
    let host_name = optional_text(
        c.values.get(&FieldKey::HostName(h)),
        text_or_empty(&known.host_name),
    );
    let default: usize = if known.dut_count == 0 {
        1
    } else {
        known.dut_count
    };
    let k = FieldKey::DutCount(h);
    let n: usize = count_or(p, k, c.values.get(&k), default);
    let mut duts: Vec<DutAnswers> = Vec::new();
    assert(dut_answers_view(duts@) =~= Seq::empty());
    let ghost whole = resolved_duts(Seq::empty(), p@, s, v, c.policy, h, kv, 0, n as int);
    let mut d: usize = 0;
    while d < n
        invariant
            d <= n,
            s == c.schema@,
            v == c.values@,
            kv == known@,
            texts(c.names@) == typed_names(v, v.len() as int),
            resolved_duts(
                dut_answers_view(duts@),
                p@,
                s,
                v,
                c.policy,
                h,
                kv,
                d as int,
                n as int,
            ) == whole,
        decreases n - d,
    {
        let dut = known_dut_or_default(&known, d);
        let ghost before = duts@;
        let a = resolve_dut(p, c, h, d, &dut);
        duts.push(a);
        assert(dut_answers_view(duts@) =~= dut_answers_view(before).push(a@));
        d += 1;
    }
    let r = HostAnswers { ip, user, pass, host_name, duts };
    assert(r@ =~= resolved_host(old(p)@, s, v, c.policy, h).0);
    r
}

/// The answers about the hosts, from host `h` to the one before `n`, behind
/// those in `before`.
pub open spec fn resolved_hosts(
    before: Seq<HostAnswersView>,
    p: ProgressView,
    s: SchemaView,
    v: Typed,
    policy: NamePolicy,
    h: int,
    n: int,
) -> (Seq<HostAnswersView>, ProgressView)
    decreases n - h,
{
    if h >= n {
        (before, p)
    } else {
        let (a, q) = resolved_host(p, s, v, policy, h as usize);
        resolved_hosts(before.push(a), q, s, v, policy, h + 1, n)
    }
}

// ── Top-level sections ───────────────────────────────────────────────
/// One advanced key of the top-level sections.
pub open spec fn resolved_key(
    map: Pairs,
    p: ProgressView,
    s: SchemaView,
    v: Typed,
    f: AdvFieldView,
) -> (Pairs, ProgressView) {
    let key = KeyView::Advanced(f.key);
    let t = cleaned(typed_value(v, key));
    if t.len() > 0 {
        match literal_of(f.key, t) {
            Ok(_) => (put(map, f.key, t), p),
            Err(e) => (map, with_error(p, key, e)),
        }
    } else if f.empty == EmptyMeans::AcceptDefault {
        let default = text_or(lookup(s.advanced_current, f.key), natural_default(f.key));
        if default.len() > 0 {
            (put(map, f.key, default), p)
        } else {
            (map, p)
        }
    } else {
        (map, p)
    }
}

/// The advanced keys of the top-level sections, from number `i` on. Those of
/// the boards are left out.
pub open spec fn resolved_keys(
    map: Pairs,
    p: ProgressView,
    s: SchemaView,
    v: Typed,
    table: Seq<AdvFieldView>,
    i: int,
) -> (Pairs, ProgressView)
    decreases table.len() - i,
{
    if i < 0 || i >= table.len() {
        (map, p)
    } else if dut_owned(table[i].key) {
        resolved_keys(map, p, s, v, table, i + 1)
    } else {
        let (m, q) = resolved_key(map, p, s, v, table[i]);
        resolved_keys(m, q, s, v, table, i + 1)
    }
}

fn resolve_key(
    map: &mut TextMap,
    p: &mut Progress,
    schema: &FormSchema,
    v: &FieldValues,
    f: &crate::advanced::AdvFieldSpec,
)
    ensures
        (final(map)@, final(p)@) == resolved_key(old(map)@, old(p)@, schema@, v@, f@),
{
    let key = FieldKey::Advanced(f.key);
    let t = clean(v.get(&key));
    if !t.is_empty() {
        match advanced_literal(f.key, t) {
            Ok(_) => map.insert(f.key, owned(t)),
            Err(e) => p.error(key, e),
        }
        return;
    }
    if f.empty == EmptyMeans::AcceptDefault {
        let default = match schema.advanced_current.get(f.key) {
            Some(x) => owned(x.as_str()),
            None => advanced_default(f.key),
        };
        if !default.as_str().is_empty() {
            map.insert(f.key, default);
        }
    }
}

fn resolve_keys(p: &mut Progress, schema: &FormSchema, v: &FieldValues) -> (r: TextMap)
    ensures
        (r@, final(p)@) == resolved_keys(
            Pairs::empty(),
            old(p)@,
            schema@,
            v@,
            advanced_table(),
            0,
        ),
{
    let fields = advanced_fields();
    let ghost table = adv_views(fields@);
    let ghost whole = resolved_keys(Pairs::empty(), p@, schema@, v@, table, 0);
    let mut map = TextMap::new();
    let mut i: usize = 0;
    while i < fields.len()
        invariant
            i <= fields.len(),
            table == adv_views(fields@),
            resolved_keys(map@, p@, schema@, v@, table, i as int) == whole,
        decreases fields.len() - i,
    {
        assert(table[i as int] == fields@[i as int]@);
        if !dut_owned_advanced(fields[i].key) {
            resolve_key(&mut map, p, schema, v, &fields[i]);
        }
        i += 1;
    }
    map
}

// ── All answers ──────────────────────────────────────────────────────
/// The state at the start: nothing is wrong, and the names of the
/// configuration and those that were typed are taken.
pub open spec fn start_of(s: SchemaView, v: Typed) -> ProgressView {
    let names = typed_names(v, v.len() as int);
    ProgressView {
        errors: Seq::empty(),
        taken: with_names(s.taken_duts, names, names.len() as int),
        announcements: Seq::empty(),
    }
}

/// The answers, with everything that is wrong.
pub open spec fn resolved(s: SchemaView, v: Typed, gate: bool, policy: NamePolicy) -> (
    WizardAnswersView,
    Errors,
) {
    let (n, p1) = counted_or(
        start_of(s, v),
        KeyView::HostCount,
        typed_value(v, KeyView::HostCount),
        s.host_count_default,
    );
    let (hosts, p2) = resolved_hosts(Seq::empty(), p1, s, v, policy, 0, n as int);
    let (advanced, p3) = if gate {
        resolved_keys(Pairs::empty(), p2, s, v, advanced_table(), 0)
    } else {
        (Pairs::empty(), p2)
    };
    (WizardAnswersView { hosts, advanced, announcements: p3.announcements }, p3.errors)
}

fn start(schema: &FormSchema, names: &Vec<String>) -> (r: Progress)
    ensures
        r@ == (ProgressView {
            errors: Seq::empty(),
            taken: with_names(schema@.taken_duts, texts(names@), names@.len() as int),
            announcements: Seq::empty(),
        }),
{
    let ghost nv = texts(names@);
    let mut taken = copy_texts(&schema.taken_duts);
    let mut i: usize = 0;
    while i < names.len()
        invariant
            i <= names.len(),
            nv == texts(names@),
            texts(taken@) == with_names(schema@.taken_duts, nv, i as int),
        decreases names.len() - i,
    {
        broadcast use lemma_texts_push;

        if !names[i].as_str().is_empty() {
            taken.push(owned(names[i].as_str()));
        }
        i += 1;
    }
    let r = Progress { errors: Vec::new(), taken, announcements: Vec::new() };
    assert(r@.errors =~= Seq::empty());
    assert(r@.announcements =~= Seq::empty());
    r
}

/// The answers that were typed into a form, or everything that is wrong with
/// them. An empty field means its default.
pub fn resolve_answers(
    schema: &FormSchema,
    values: &FieldValues,
    gate_enabled: bool,
    policy: NamePolicy,
) -> (r: Result<WizardAnswers, Vec<(FieldKey, String)>>)
    ensures
        r is Ok <==> resolved(schema@, values@, gate_enabled, policy).1.len() == 0,
        r is Ok ==> r->Ok_0@ == resolved(schema@, values@, gate_enabled, policy).0,
        r is Err ==> errors_view(r->Err_0@) == resolved(
            schema@,
            values@,
            gate_enabled,
            policy,
        ).1,
{
    let ghost s = schema@;
    let ghost v = values@;
    let names = values.dut_names();
    let mut p = start(schema, &names);
    let c = FormContext { schema, values, names, policy };
    let n: usize = count_or(
        &mut p,
        FieldKey::HostCount,
        values.get(&FieldKey::HostCount),
        schema.host_count_default,
    );
    let ghost whole = resolved_hosts(Seq::empty(), p@, s, v, policy, 0, n as int);
    let mut hosts: Vec<HostAnswers> = Vec::new();
    assert(host_answers_view(hosts@) =~= Seq::empty());
    let mut h: usize = 0;
    while h < n
        invariant
            h <= n,
            s == c.schema@,
            v == c.values@,
            policy == c.policy,
            texts(c.names@) == typed_names(v, v.len() as int),
            resolved_hosts(host_answers_view(hosts@), p@, s, v, policy, h as int, n as int)
                == whole,
        decreases n - h,
    {
        let ghost before = hosts@;
        let a = resolve_host(&mut p, &c, h);
        hosts.push(a);
        assert(host_answers_view(hosts@) =~= host_answers_view(before).push(a@));
        h += 1;
    }
    let advanced = if gate_enabled {
        resolve_keys(&mut p, schema, values)
    } else {
        TextMap::new()
    };
    if p.errors.len() > 0 {
        return Err(p.errors);
    }
    let r = WizardAnswers { hosts, advanced, announcements: p.announcements };
    assert(r@ =~= resolved(s, v, gate_enabled, policy).0);
    Ok(r)
}

} // verus!

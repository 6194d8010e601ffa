//! What the written form of a configuration keeps of it, and that reading the
//! written values gives back just that.
use crate::config::{
    config_keys, config_of, control_keys, control_of, control_value, dut_keys, dut_of, duts_from,
    flash_keys, flash_of, flash_value, host_keys, host_of, hosts_from, member, monitor_keys,
    monitor_of, monitor_value, no_flash, no_serial, number_value, only, real_value_of, relay_keys,
    relay_of, relay_value, serial_keys, serial_of, serial_value, target_keys, target_of,
    target_value, texts_from, texts_value, u16_value, u64_value, u8_value, uboot_keys, uboot_of,
    uboot_value, ConfigView, ControlView, DutView, FlashView, HostView, MonitorView, NumberView,
    RelayView, SerialView, TargetView, UbootView,
};
use crate::jsonc::{digits_end, JsonView};
use crate::number::{
    all_digits, decimal, is_digit, lemma_decimal_round_trip, lemma_real_is_kept, lemma_real_shape,
    real_value, unsigned, without_plus, written_out, zeros, RealSign, RealView,
};
use crate::pieces::is_number;
use crate::render::{nat16, nat64, nat8, not_zero};
use crate::slots::{apart, apart_before, filled, lemma_filled, Slot};
use crate::text::or_empty;
use vstd::prelude::*;

verus! {

// ── Scalars ──────────────────────────────────────────────────────────
pub open spec fn text_json(o: Option<Seq<char>>) -> Option<JsonView> {
    match o {
        Some(t) => Some(JsonView::Text(t)),
        None => None,
    }
}

pub open spec fn truth_json(o: Option<bool>) -> Option<JsonView> {
    match o {
        Some(b) => Some(JsonView::Bool(b)),
        None => None,
    }
}

pub open spec fn whole_json(o: Option<nat>) -> Option<JsonView> {
    match o {
        Some(n) => Some(JsonView::Number(decimal(n))),
        None => None,
    }
}

pub open spec fn scalar_json(v: NumberView) -> JsonView {
    match v {
        NumberView::Int(n) => JsonView::Number(decimal(n)),
        NumberView::Float(t) => JsonView::Number(t),
        NumberView::Text(t) => JsonView::Text(t),
    }
}

pub open spec fn number_json(o: Option<NumberView>) -> Option<JsonView> {
    match o {
        Some(v) => Some(scalar_json(v)),
        None => None,
    }
}

/// The threshold, where it is positive.
pub open spec fn shown_real(o: Option<RealView>) -> Option<RealView> {
    match o {
        Some(x) => if x.sign == RealSign::Positive {
            o
        } else {
            None
        },
        None => None,
    }
}

pub open spec fn real_json(o: Option<RealView>) -> Option<JsonView> {
    match shown_real(o) {
        Some(x) => Some(JsonView::Number(x.text)),
        None => None,
    }
}

/// The threshold that is read where this one was written.
pub open spec fn kept_real(o: Option<RealView>) -> Option<RealView> {
    match shown_real(o) {
        Some(x) => real_value(x.text),
        None => None,
    }
}

pub open spec fn items_json(v: Seq<Seq<char>>) -> Seq<JsonView> {
    Seq::new(v.len(), |i: int| JsonView::Text(v[i]))
}

pub open spec fn texts_json(o: Option<Seq<Seq<char>>>) -> Option<JsonView> {
    match o {
        Some(v) => Some(JsonView::Array(items_json(v))),
        None => None,
    }
}

/// Whether a text is that of a real number, written out.
pub open spec fn is_real_text(t: Seq<char>) -> bool {
    is_number(t) && (real_value(t) matches Some(x) && x.text == t)
}

/// A number that JSON can spell: a whole number of 64 bits, or a real number
/// that is written out.
pub open spec fn spellable(v: NumberView) -> bool {
    match v {
        NumberView::Int(n) => n <= u64::MAX,
        NumberView::Float(t) => is_real_text(t),
        NumberView::Text(_) => true,
    }
}

/// The number that is read where this one was written. One without a fraction
/// is read as a whole number.
pub open spec fn kept_number(o: Option<NumberView>) -> Option<NumberView> {
    match o {
        Some(NumberView::Float(t)) => match unsigned(t, u64::MAX as nat) {
            Some(n) => Some(NumberView::Int(n)),
            None => match real_value(t) {
                Some(x) => Some(NumberView::Float(x.text)),
                None => None,
            },
        },
        _ => o,
    }
}

pub open spec fn number_spellable(o: Option<NumberView>) -> bool {
    o matches Some(v) ==> spellable(v)
}

/// A threshold that JSON can spell, or that is not written.
pub open spec fn real_spellable(o: Option<RealView>) -> bool {
    shown_real(o) matches Some(x) ==> is_real_text(x.text)
}

proof fn lemma_digits_over(s: Seq<char>, i: int, k: int)
    requires
        0 <= i <= k <= s.len(),
        forall|j: int| i <= j < k ==> is_digit(#[trigger] s[j]),
        k == s.len() || !is_digit(s[k]),
    ensures
        digits_end(s, i) == k,
    decreases k - i,
{
    if i < k {
        lemma_digits_over(s, i + 1, k);
    }
}

proof fn lemma_small_numeral(t: Seq<char>, w: int, d: Seq<char>, z: nat)
    requires
        w == 0 || w == 1 && t[0] == '-',
        t.len() == w + 2 + z + d.len(),
        d.len() > 0,
        all_digits(d),
        t.skip(w) == seq!['0', '.'] + zeros(z) + d,
    ensures
        is_number(t),
{
    let b = seq!['0', '.'] + zeros(z) + d;
    assert forall|j: int| 0 <= j < b.len() implies t[w + j] == #[trigger] b[j] by {
        assert(t.skip(w)[j] == b[j]);
    }
    assert(t[w + 0] == b[0]);
    assert(t[w + 1] == b[1]);
    assert forall|j: int| w + 2 <= j < t.len() implies is_digit(#[trigger] t[j]) by {
        assert(t[w + (j - w)] == b[j - w]);
        if j - w - 2 >= z {
            assert(b[j - w] == d[j - w - 2 - z]);
        }
    }
    lemma_digits_over(t, w + 2, t.len() as int);
}

proof fn lemma_whole_numeral(t: Seq<char>, w: int, d: Seq<char>, z: nat)
    requires
        w == 0 || w == 1 && t[0] == '-',
        t.len() == w + z + d.len(),
        d.len() > 0,
        d[0] != '0',
        all_digits(d),
        t.skip(w) == d + zeros(z),
    ensures
        is_number(t),
{
    let b = d + zeros(z);
    assert forall|j: int| w <= j < t.len() implies is_digit(#[trigger] t[j]) by {
        assert(t.skip(w)[j - w] == b[j - w]);
        if j - w < d.len() {
            assert(b[j - w] == d[j - w]);
        }
    }
    assert(t[w] == d[0]) by {
        assert(t.skip(w)[0] == b[0]);
    }
    lemma_digits_over(t, w, t.len() as int);
}

proof fn lemma_parted_numeral(t: Seq<char>, w: int, d: Seq<char>, p: int)
    requires
        w == 0 || w == 1 && t[0] == '-',
        0 < p < d.len(),
        t.len() == w + 1 + d.len(),
        d[0] != '0',
        all_digits(d),
        t.skip(w) == d.take(p) + seq!['.'] + d.skip(p),
    ensures
        is_number(t),
{
    let b = d.take(p) + seq!['.'] + d.skip(p);
    assert forall|j: int| w <= j < t.len() && j != w + p implies is_digit(#[trigger] t[j]) by {
        assert(t.skip(w)[j - w] == b[j - w]);
        if j - w < p {
            assert(b[j - w] == d[j - w]);
        } else {
            assert(b[j - w] == d[j - w - 1]);
        }
    }
    assert(t[w + p] == '.') by {
        assert(t.skip(w)[p] == b[p]);
    }
    assert(t[w] == d[0]) by {
        assert(t.skip(w)[0] == b[0]);
    }
    lemma_digits_over(t, w, w + p);
    lemma_digits_over(t, w + p + 1, t.len() as int);
}

proof fn lemma_numeral(t: Seq<char>, negative: bool, d: Seq<char>, p: int)
    requires
        d.len() > 0 ==> d[0] != '0' && all_digits(d),
        t == (if negative {
            seq!['-']
        } else {
            Seq::empty()
        }) + (if d.len() == 0 {
            seq!['0']
        } else {
            written_out(d, p)
        }),
    ensures
        is_number(t),
{
    let w: int = if negative {
        1
    } else {
        0
    };
    if d.len() == 0 {
        assert(t[w] == '0' && t.len() == w + 1);
    } else {
        let b = written_out(d, p);
        assert(t.skip(w) =~= b);
        if p <= 0 {
            lemma_small_numeral(t, w, d, (-p) as nat);
        } else if p >= d.len() {
            lemma_whole_numeral(t, w, d, (p - d.len()) as nat);
        } else {
            lemma_parted_numeral(t, w, d, p);
        }
    }
}

/// A real number is written as one JSON number, and read as what it is.
pub proof fn lemma_real_is_number(s: Seq<char>)
    requires
        real_value(s) is Some,
    ensures
        is_real_text(real_value(s)->0.text),
{
    let (negative, d, p) = lemma_real_shape(s);
    lemma_real_is_kept(s);
    lemma_numeral(real_value(s)->0.text, negative, d, p);
}

/// The digits of a number read as the number.
pub proof fn lemma_unsigned_decimal(n: nat, max: nat)
    requires
        n <= max,
    ensures
        unsigned(decimal(n), max) == Some(n),
{
    lemma_decimal_round_trip(n);
    let t = decimal(n);
    assert(without_plus(t) == t) by {
        assert(all_digits(t));
        assert(is_digit(t[0]));
    }
}

pub proof fn lemma_number(o: Option<NumberView>)
    requires
        number_spellable(o),
    ensures
        number_value(number_json(o)) == Some(kept_number(o)),
{
    if let Some(NumberView::Int(n)) = o {
        lemma_unsigned_decimal(n, u64::MAX as nat);
    }
}

proof fn lemma_u64(o: Option<u64>)
    ensures
        u64_value(whole_json(nat64(o))) == Some(o),
{
    if let Some(n) = o {
        lemma_unsigned_decimal(n as nat, u64::MAX as nat);
    }
}

/// The number, where it is not zero.
pub open spec fn kept_u64(o: Option<u64>) -> Option<u64> {
    if o == Some(0u64) {
        None
    } else {
        o
    }
}

proof fn lemma_time(o: Option<u64>)
    ensures
        u64_value(whole_json(not_zero(nat64(o)))) == Some(kept_u64(o)),
{
    lemma_u64(o);
    if o != Some(0u64) {
        assert(not_zero(nat64(o)) == nat64(o));
    }
}

/// The number, where it is not zero.
pub open spec fn kept_u8(o: Option<u8>) -> Option<u8> {
    if o == Some(0u8) {
        None
    } else {
        o
    }
}

proof fn lemma_channel(o: Option<u8>)
    ensures
        u8_value(whole_json(not_zero(nat8(o)))) == Some(kept_u8(o)),
{
    if let Some(n) = o {
        lemma_unsigned_decimal(n as nat, u8::MAX as nat);
    }
}

proof fn lemma_u16(o: Option<u16>)
    ensures
        u16_value(whole_json(nat16(o))) == Some(o),
{
    if let Some(n) = o {
        lemma_unsigned_decimal(n as nat, u16::MAX as nat);
    }
}

proof fn lemma_real(o: Option<RealView>)
    requires
        real_spellable(o),
    ensures
        real_value_of(real_json(o)) == Some(kept_real(o)),
{
}

pub proof fn lemma_texts_from(v: Seq<Seq<char>>, i: int)
    requires
        0 <= i <= v.len(),
    ensures
        texts_from(items_json(v), i, v.take(i)) == Some(v),
    decreases v.len() - i,
{
    if i < v.len() {
        lemma_texts_from(v, i + 1);
        assert(v.take(i).push(v[i]) =~= v.take(i + 1));
    } else {
        assert(v.take(i) =~= v);
    }
}

proof fn lemma_texts(o: Option<Seq<Seq<char>>>)
    ensures
        texts_value(texts_json(o)) == Some(o),
{
    if let Some(v) = o {
        lemma_texts_from(v, 0);
        assert(v.take(0) =~= Seq::empty());
    }
}

// ── Sections ─────────────────────────────────────────────────────────
/// Of a serial section: port, baud rate and protocol.
pub open spec fn kept_serial(x: SerialView) -> SerialView {
    SerialView {
        port: kept_number(x.port),
        baudrate: kept_number(x.baudrate),
        rfc2217: x.rfc2217,
        ..no_serial()
    }
}

pub open spec fn serial_slots(x: SerialView) -> Seq<Slot> {
    seq![
        ("port"@, number_json(x.port)),
        ("baudrate"@, number_json(x.baudrate)),
        ("rfc2217"@, truth_json(x.rfc2217)),
        ("tx_repeat"@, None),
        ("tx_gap_ms"@, None),
        ("backspace"@, None),
        ("enter"@, None),
        ("rx_newline"@, None),
        ("highlight"@, None),
        ("mouse"@, None),
    ]
}

proof fn lemma_serial_keys()
    ensures
        apart_before(serial_keys(), 10),
        serial_keys().len() == 10,
{
    reveal_with_fuel(apart_before, 11);
    reveal_with_fuel(apart, 11);
    reveal_strlit("port");
    reveal_strlit("baudrate");
    reveal_strlit("rfc2217");
    reveal_strlit("tx_repeat");
    reveal_strlit("tx_gap_ms");
    reveal_strlit("backspace");
    reveal_strlit("enter");
    reveal_strlit("rx_newline");
    reveal_strlit("highlight");
    reveal_strlit("mouse");
    assert("port"@.len() == 4);
    assert("baudrate"@.len() == 8);
    assert("rfc2217"@.len() == 7);
    assert("tx_repeat"@.len() == 9);
    assert("tx_gap_ms"@.len() == 9);
    assert("backspace"@.len() == 9);
    assert("enter"@.len() == 5);
    assert("rx_newline"@.len() == 10);
    assert("highlight"@.len() == 9);
    assert("mouse"@.len() == 5);
    assert("tx_repeat"@[3] == 'r' && "tx_gap_ms"@[3] == 'g');
    assert("tx_repeat"@[0] == 't' && "backspace"@[0] == 'b');
    assert("tx_gap_ms"@[0] == 't' && "backspace"@[0] == 'b');
    assert("tx_repeat"@[0] == 't' && "highlight"@[0] == 'h');
    assert("tx_gap_ms"@[0] == 't' && "highlight"@[0] == 'h');
    assert("backspace"@[0] == 'b' && "highlight"@[0] == 'h');
    assert("enter"@[0] == 'e' && "mouse"@[0] == 'm');
}

/// Whether JSON can spell the numbers of the section.
pub open spec fn serial_spellable(o: Option<SerialView>) -> bool {
    o matches Some(x) ==> number_spellable(x.port) && number_spellable(x.baudrate)
}

proof fn lemma_serial_object(x: SerialView)
    requires
        serial_spellable(Some(x)),
    ensures
        serial_of(JsonView::Object(filled(serial_slots(x)))) == Some(kept_serial(x)),
{
    let sl = serial_slots(x);
    let m = filled(sl);
    lemma_serial_keys();
    assert forall|i: int| 0 <= i < serial_keys().len() implies (#[trigger] sl[i]).0 == serial_keys()[i] by {}
    lemma_filled(sl, serial_keys());
    assert(sl[0] == ("port"@, sl[0].1));
    assert(sl[1] == ("baudrate"@, sl[1].1));
    assert(sl[2] == ("rfc2217"@, sl[2].1));
    assert(sl[3] == ("tx_repeat"@, sl[3].1));
    assert(sl[4] == ("tx_gap_ms"@, sl[4].1));
    assert(sl[5] == ("backspace"@, sl[5].1));
    assert(sl[6] == ("enter"@, sl[6].1));
    assert(sl[7] == ("rx_newline"@, sl[7].1));
    assert(sl[8] == ("highlight"@, sl[8].1));
    assert(sl[9] == ("mouse"@, sl[9].1));
    lemma_number(x.port);
    lemma_number(x.baudrate);
    assert(serial_of(JsonView::Object(m))->0 =~= kept_serial(x));
}

pub open spec fn kept_serial_section(o: Option<SerialView>) -> Option<SerialView> {
    match o {
        Some(x) => Some(kept_serial(x)),
        None => None,
    }
}

pub open spec fn serial_json(o: Option<SerialView>) -> Option<JsonView> {
    match o {
        Some(x) => Some(JsonView::Object(filled(serial_slots(x)))),
        None => None,
    }
}

proof fn lemma_serial(o: Option<SerialView>)
    requires
        serial_spellable(o),
    ensures
        serial_value(serial_json(o)) == Some(kept_serial_section(o)),
{
    if let Some(x) = o {
        lemma_serial_object(x);
    }
}

/// Of a target section: all, with user and password empty where they were not set.
pub open spec fn kept_target(x: TargetView) -> TargetView {
    TargetView {
        login_user: Some(or_empty(x.login_user)),
        login_pass: Some(or_empty(x.login_pass)),
        login_prompt: x.login_prompt,
    }
}

pub open spec fn target_slots(x: TargetView) -> Seq<Slot> {
    seq![
        ("login_user"@, text_json(Some(or_empty(x.login_user)))),
        ("login_pass"@, text_json(Some(or_empty(x.login_pass)))),
        ("login_prompt"@, text_json(x.login_prompt)),
    ]
}

proof fn lemma_target_keys()
    ensures
        apart_before(target_keys(), 3),
        target_keys().len() == 3,
{
    reveal_with_fuel(apart_before, 4);
    reveal_with_fuel(apart, 4);
    reveal_strlit("login_user");
    reveal_strlit("login_pass");
    reveal_strlit("login_prompt");
    assert("login_user"@.len() == 10);
    assert("login_pass"@.len() == 10);
    assert("login_prompt"@.len() == 12);
    assert("login_user"@[6] == 'u' && "login_pass"@[6] == 'p');
}

proof fn lemma_target_object(x: TargetView)
    ensures
        target_of(JsonView::Object(filled(target_slots(x)))) == Some(kept_target(x)),
{
    let sl = target_slots(x);
    let m = filled(sl);
    lemma_target_keys();
    assert forall|i: int| 0 <= i < target_keys().len() implies (#[trigger] sl[i]).0 == target_keys()[i] by {}
    lemma_filled(sl, target_keys());
    assert(sl[0] == ("login_user"@, sl[0].1));
    assert(sl[1] == ("login_pass"@, sl[1].1));
    assert(sl[2] == ("login_prompt"@, sl[2].1));
    assert(target_of(JsonView::Object(m))->0 =~= kept_target(x));
}

pub open spec fn kept_target_section(o: Option<TargetView>) -> Option<TargetView> {
    match o {
        Some(x) => Some(kept_target(x)),
        None => None,
    }
}

pub open spec fn target_json(o: Option<TargetView>) -> Option<JsonView> {
    match o {
        Some(x) => Some(JsonView::Object(filled(target_slots(x)))),
        None => None,
    }
}

proof fn lemma_target(o: Option<TargetView>)
    ensures
        target_value(target_json(o)) == Some(kept_target_section(o)),
{
    if let Some(x) = o {
        lemma_target_object(x);
    }
}

pub open spec fn uboot_slots(x: UbootView) -> Seq<Slot> {
    seq![
        ("interrupt_char"@, text_json(x.interrupt_char)),
        ("interrupt_strategy"@, text_json(x.interrupt_strategy)),
        ("pattern"@, text_json(x.pattern)),
    ]
}

proof fn lemma_uboot_keys()
    ensures
        apart_before(uboot_keys(), 3),
        uboot_keys().len() == 3,
{
    reveal_with_fuel(apart_before, 4);
    reveal_with_fuel(apart, 4);
    reveal_strlit("interrupt_char");
    reveal_strlit("interrupt_strategy");
    reveal_strlit("pattern");
    assert("interrupt_char"@.len() == 14);
    assert("interrupt_strategy"@.len() == 18);
    assert("pattern"@.len() == 7);
}

proof fn lemma_uboot_object(x: UbootView)
    ensures
        uboot_of(JsonView::Object(filled(uboot_slots(x)))) == Some(x),
{
    let sl = uboot_slots(x);
    let m = filled(sl);
    lemma_uboot_keys();
    assert forall|i: int| 0 <= i < uboot_keys().len() implies (#[trigger] sl[i]).0 == uboot_keys()[i] by {}
    lemma_filled(sl, uboot_keys());
    assert(sl[0] == ("interrupt_char"@, sl[0].1));
    assert(sl[1] == ("interrupt_strategy"@, sl[1].1));
    assert(sl[2] == ("pattern"@, sl[2].1));
    assert(uboot_of(JsonView::Object(m))->0 =~= x);
}

pub open spec fn uboot_json(o: Option<UbootView>) -> Option<JsonView> {
    match o {
        Some(x) => Some(JsonView::Object(filled(uboot_slots(x)))),
        None => None,
    }
}

proof fn lemma_uboot(o: Option<UbootView>)
    ensures
        uboot_value(uboot_json(o)) == Some(o),
{
    if let Some(x) = o {
        lemma_uboot_object(x);
    }
}

/// Of a relay section: all, but channels and times of zero count as not set.
pub open spec fn kept_relay(x: RelayView) -> RelayView {
    RelayView {
        reset_ch: kept_u8(x.reset_ch),
        download_ch: kept_u8(x.download_ch),
        power_ch: kept_u8(x.power_ch),
        reset_time_ms: kept_u64(x.reset_time_ms),
        power_off_time_ms: kept_u64(x.power_off_time_ms),
        ..x
    }
}

pub open spec fn relay_slots(x: RelayView) -> Seq<Slot> {
    seq![
        ("type"@, text_json(x.relay_type)),
        ("port"@, whole_json(nat16(x.port))),
        ("ip"@, text_json(x.ip)),
        ("reset_ch"@, whole_json(not_zero(nat8(x.reset_ch)))),
        ("reset_channel"@, None),
        ("download_ch"@, whole_json(not_zero(nat8(x.download_ch)))),
        ("download_channel"@, None),
        ("power_ch"@, whole_json(not_zero(nat8(x.power_ch)))),
        ("power_channel"@, None),
        ("reset_time_ms"@, whole_json(not_zero(nat64(x.reset_time_ms)))),
        ("power_off_time_ms"@, whole_json(not_zero(nat64(x.power_off_time_ms)))),
    ]
}

proof fn lemma_relay_keys()
    ensures
        apart_before(relay_keys(), 11),
        relay_keys().len() == 11,
{
    reveal_with_fuel(apart_before, 12);
    reveal_with_fuel(apart, 12);
    reveal_strlit("type");
    reveal_strlit("port");
    reveal_strlit("ip");
    reveal_strlit("reset_ch");
    reveal_strlit("reset_channel");
    reveal_strlit("download_ch");
    reveal_strlit("download_channel");
    reveal_strlit("power_ch");
    reveal_strlit("power_channel");
    reveal_strlit("reset_time_ms");
    reveal_strlit("power_off_time_ms");
    assert("type"@.len() == 4);
    assert("port"@.len() == 4);
    assert("ip"@.len() == 2);
    assert("reset_ch"@.len() == 8);
    assert("reset_channel"@.len() == 13);
    assert("download_ch"@.len() == 11);
    assert("download_channel"@.len() == 16);
    assert("power_ch"@.len() == 8);
    assert("power_channel"@.len() == 13);
    assert("reset_time_ms"@.len() == 13);
    assert("power_off_time_ms"@.len() == 17);
    assert("type"@[0] == 't' && "port"@[0] == 'p');
    assert("reset_ch"@[0] == 'r' && "power_ch"@[0] == 'p');
    assert("reset_channel"@[0] == 'r' && "power_channel"@[0] == 'p');
    assert("reset_channel"@[6] == 'c' && "reset_time_ms"@[6] == 't');
    assert("power_channel"@[0] == 'p' && "reset_time_ms"@[0] == 'r');
}

proof fn lemma_relay_object(x: RelayView)
    ensures
        relay_of(JsonView::Object(filled(relay_slots(x)))) == Some(kept_relay(x)),
{
    let sl = relay_slots(x);
    let m = filled(sl);
    lemma_relay_keys();
    assert forall|i: int| 0 <= i < relay_keys().len() implies (#[trigger] sl[i]).0 == relay_keys()[i] by {}
    lemma_filled(sl, relay_keys());
    assert(sl[0] == ("type"@, sl[0].1));
    assert(sl[1] == ("port"@, sl[1].1));
    assert(sl[2] == ("ip"@, sl[2].1));
    assert(sl[3] == ("reset_ch"@, sl[3].1));
    assert(sl[4] == ("reset_channel"@, sl[4].1));
    assert(sl[5] == ("download_ch"@, sl[5].1));
    assert(sl[6] == ("download_channel"@, sl[6].1));
    assert(sl[7] == ("power_ch"@, sl[7].1));
    assert(sl[8] == ("power_channel"@, sl[8].1));
    assert(sl[9] == ("reset_time_ms"@, sl[9].1));
    assert(sl[10] == ("power_off_time_ms"@, sl[10].1));
    lemma_u16(x.port);
    lemma_channel(x.reset_ch);
    lemma_channel(x.download_ch);
    lemma_channel(x.power_ch);
    lemma_time(x.reset_time_ms);
    lemma_time(x.power_off_time_ms);
    assert(relay_of(JsonView::Object(m))->0 =~= kept_relay(x));
}

pub open spec fn kept_relay_section(o: Option<RelayView>) -> Option<RelayView> {
    match o {
        Some(x) => Some(kept_relay(x)),
        None => None,
    }
}

pub open spec fn relay_json(o: Option<RelayView>) -> Option<JsonView> {
    match o {
        Some(x) => Some(JsonView::Object(filled(relay_slots(x)))),
        None => None,
    }
}

proof fn lemma_relay(o: Option<RelayView>)
    ensures
        relay_value(relay_json(o)) == Some(kept_relay_section(o)),
{
    if let Some(x) = o {
        lemma_relay_object(x);
    }
}

/// Of a monitor section: all, but thresholds that are not positive count as not set.
pub open spec fn kept_monitor(x: MonitorView) -> MonitorView {
    MonitorView {
        learner_stage_threshold: kept_real(x.learner_stage_threshold),
        learner_crash_threshold: kept_real(x.learner_crash_threshold),
        ..x
    }
}

pub open spec fn monitor_slots(x: MonitorView) -> Seq<Slot> {
    seq![
        ("hang_timeout"@, whole_json(nat64(x.hang_timeout))),
        ("hang_hysteresis"@, whole_json(nat64(x.hang_hysteresis))),
        ("max_archived_logs"@, whole_json(nat64(x.max_archived_logs))),
        ("max_log_file_size"@, whole_json(nat64(x.max_log_file_size))),
        ("reference_log"@, text_json(x.reference_log)),
        ("learner_stage_threshold"@, real_json(x.learner_stage_threshold)),
        ("learner_crash_threshold"@, real_json(x.learner_crash_threshold)),
        ("crash_keywords"@, texts_json(x.crash_keywords)),
    ]
}

proof fn lemma_monitor_keys()
    ensures
        apart_before(monitor_keys(), 8),
        monitor_keys().len() == 8,
{
    reveal_with_fuel(apart_before, 9);
    reveal_with_fuel(apart, 9);
    reveal_strlit("hang_timeout");
    reveal_strlit("hang_hysteresis");
    reveal_strlit("max_archived_logs");
    reveal_strlit("max_log_file_size");
    reveal_strlit("reference_log");
    reveal_strlit("learner_stage_threshold");
    reveal_strlit("learner_crash_threshold");
    reveal_strlit("crash_keywords");
    assert("hang_timeout"@.len() == 12);
    assert("hang_hysteresis"@.len() == 15);
    assert("max_archived_logs"@.len() == 17);
    assert("max_log_file_size"@.len() == 17);
    assert("reference_log"@.len() == 13);
    assert("learner_stage_threshold"@.len() == 23);
    assert("learner_crash_threshold"@.len() == 23);
    assert("crash_keywords"@.len() == 14);
    assert("max_archived_logs"@[4] == 'a' && "max_log_file_size"@[4] == 'l');
    assert("learner_stage_threshold"@[8] == 's' && "learner_crash_threshold"@[8] == 'c');
}

/// Whether JSON can spell the numbers of the section.
pub open spec fn monitor_spellable(o: Option<MonitorView>) -> bool {
    o matches Some(x) ==> real_spellable(x.learner_stage_threshold) && real_spellable(x.learner_crash_threshold)
}

proof fn lemma_monitor_object(x: MonitorView)
    requires
        monitor_spellable(Some(x)),
    ensures
        monitor_of(JsonView::Object(filled(monitor_slots(x)))) == Some(kept_monitor(x)),
{
    let sl = monitor_slots(x);
    let m = filled(sl);
    lemma_monitor_keys();
    assert forall|i: int| 0 <= i < monitor_keys().len() implies (#[trigger] sl[i]).0 == monitor_keys()[i] by {}
    lemma_filled(sl, monitor_keys());
    assert(sl[0] == ("hang_timeout"@, sl[0].1));
    assert(sl[1] == ("hang_hysteresis"@, sl[1].1));
    assert(sl[2] == ("max_archived_logs"@, sl[2].1));
    assert(sl[3] == ("max_log_file_size"@, sl[3].1));
    assert(sl[4] == ("reference_log"@, sl[4].1));
    assert(sl[5] == ("learner_stage_threshold"@, sl[5].1));
    assert(sl[6] == ("learner_crash_threshold"@, sl[6].1));
    assert(sl[7] == ("crash_keywords"@, sl[7].1));
    lemma_u64(x.hang_timeout);
    lemma_u64(x.hang_hysteresis);
    lemma_u64(x.max_archived_logs);
    lemma_u64(x.max_log_file_size);
    lemma_real(x.learner_stage_threshold);
    lemma_real(x.learner_crash_threshold);
    lemma_texts(x.crash_keywords);
    assert(monitor_of(JsonView::Object(m))->0 =~= kept_monitor(x));
}

pub open spec fn kept_monitor_section(o: Option<MonitorView>) -> Option<MonitorView> {
    match o {
        Some(x) => Some(kept_monitor(x)),
        None => None,
    }
}

pub open spec fn monitor_json(o: Option<MonitorView>) -> Option<JsonView> {
    match o {
        Some(x) => Some(JsonView::Object(filled(monitor_slots(x)))),
        None => None,
    }
}

proof fn lemma_monitor(o: Option<MonitorView>)
    requires
        monitor_spellable(o),
    ensures
        monitor_value(monitor_json(o)) == Some(kept_monitor_section(o)),
{
    if let Some(x) = o {
        lemma_monitor_object(x);
    }
}

/// Of a flash section: the commands of both images and the loader.
pub open spec fn kept_flash(x: FlashView) -> FlashView {
    FlashView {
        full_image_cmd: x.full_image_cmd,
        kernel_image_cmd: x.kernel_image_cmd,
        loader_bin: x.loader_bin,
        ..no_flash()
    }
}

pub open spec fn flash_slots(x: FlashView) -> Seq<Slot> {
    seq![
        ("tool"@, None),
        ("full_image_cmd"@, text_json(x.full_image_cmd)),
        ("kernel_image_cmd"@, text_json(x.kernel_image_cmd)),
        ("loader_bin"@, text_json(x.loader_bin)),
        ("loader_cmd"@, None),
        ("list_devices_cmd"@, None),
        ("upload_dir"@, None),
    ]
}

proof fn lemma_flash_keys()
    ensures
        apart_before(flash_keys(), 7),
        flash_keys().len() == 7,
{
    reveal_with_fuel(apart_before, 8);
    reveal_with_fuel(apart, 8);
    reveal_strlit("tool");
    reveal_strlit("full_image_cmd");
    reveal_strlit("kernel_image_cmd");
    reveal_strlit("loader_bin");
    reveal_strlit("loader_cmd");
    reveal_strlit("list_devices_cmd");
    reveal_strlit("upload_dir");
    assert("tool"@.len() == 4);
    assert("full_image_cmd"@.len() == 14);
    assert("kernel_image_cmd"@.len() == 16);
    assert("loader_bin"@.len() == 10);
    assert("loader_cmd"@.len() == 10);
    assert("list_devices_cmd"@.len() == 16);
    assert("upload_dir"@.len() == 10);
    assert("loader_bin"@[7] == 'b' && "loader_cmd"@[7] == 'c');
    assert("kernel_image_cmd"@[0] == 'k' && "list_devices_cmd"@[0] == 'l');
    assert("loader_bin"@[0] == 'l' && "upload_dir"@[0] == 'u');
    assert("loader_cmd"@[0] == 'l' && "upload_dir"@[0] == 'u');
}

proof fn lemma_flash_object(x: FlashView)
    ensures
        flash_of(JsonView::Object(filled(flash_slots(x)))) == Some(kept_flash(x)),
{
    let sl = flash_slots(x);
    let m = filled(sl);
    lemma_flash_keys();
    assert forall|i: int| 0 <= i < flash_keys().len() implies (#[trigger] sl[i]).0 == flash_keys()[i] by {}
    lemma_filled(sl, flash_keys());
    assert(sl[0] == ("tool"@, sl[0].1));
    assert(sl[1] == ("full_image_cmd"@, sl[1].1));
    assert(sl[2] == ("kernel_image_cmd"@, sl[2].1));
    assert(sl[3] == ("loader_bin"@, sl[3].1));
    assert(sl[4] == ("loader_cmd"@, sl[4].1));
    assert(sl[5] == ("list_devices_cmd"@, sl[5].1));
    assert(sl[6] == ("upload_dir"@, sl[6].1));
    assert(flash_of(JsonView::Object(m))->0 =~= kept_flash(x));
}

pub open spec fn kept_flash_section(o: Option<FlashView>) -> Option<FlashView> {
    match o {
        Some(x) => Some(kept_flash(x)),
        None => None,
    }
}

pub open spec fn flash_json(o: Option<FlashView>) -> Option<JsonView> {
    match o {
        Some(x) => Some(JsonView::Object(filled(flash_slots(x)))),
        None => None,
    }
}

proof fn lemma_flash(o: Option<FlashView>)
    ensures
        flash_value(flash_json(o)) == Some(kept_flash_section(o)),
{
    if let Some(x) = o {
        lemma_flash_object(x);
    }
}

pub open spec fn control_slots(x: ControlView) -> Seq<Slot> {
    seq![
        ("dev_ctrl"@, text_json(x.dev_ctrl)),
    ]
}

proof fn lemma_control_keys()
    ensures
        apart_before(control_keys(), 1),
        control_keys().len() == 1,
{
    reveal_with_fuel(apart_before, 2);
    reveal_with_fuel(apart, 2);
    reveal_strlit("dev_ctrl");
    assert("dev_ctrl"@.len() == 8);
}

proof fn lemma_control_object(x: ControlView)
    ensures
        control_of(JsonView::Object(filled(control_slots(x)))) == Some(x),
{
    let sl = control_slots(x);
    let m = filled(sl);
    lemma_control_keys();
    assert forall|i: int| 0 <= i < control_keys().len() implies (#[trigger] sl[i]).0 == control_keys()[i] by {}
    lemma_filled(sl, control_keys());
    assert(sl[0] == ("dev_ctrl"@, sl[0].1));
    assert(control_of(JsonView::Object(m))->0 =~= x);
}

pub open spec fn control_json(o: Option<ControlView>) -> Option<JsonView> {
    match o {
        Some(x) => Some(JsonView::Object(filled(control_slots(x)))),
        None => None,
    }
}

proof fn lemma_control(o: Option<ControlView>)
    ensures
        control_value(control_json(o)) == Some(o),
{
    if let Some(x) = o {
        lemma_control_object(x);
    }
}

// ── Boards, hosts, the whole ─────────────────────────────────────────
/// Of a board: its sections as they are kept, and no download settings.
pub open spec fn kept_dut(d: DutView) -> DutView {
    DutView {
        serial: kept_serial_section(d.serial),
        target: kept_target_section(d.target),
        relay: kept_relay_section(d.relay),
        monitor: kept_monitor_section(d.monitor),
        flash: kept_flash_section(d.flash),
        download: None,
        ..d
    }
}

pub open spec fn dut_spellable(d: DutView) -> bool {
    serial_spellable(d.serial) && monitor_spellable(d.monitor)
}

pub open spec fn dut_slots(d: DutView) -> Seq<Slot> {
    seq![
        ("dut_name"@, text_json(Some(d.dut_name))),
        ("serial"@, serial_json(d.serial)),
        ("target"@, target_json(d.target)),
        ("uboot"@, uboot_json(d.uboot)),
        ("relay"@, relay_json(d.relay)),
        ("monitor"@, monitor_json(d.monitor)),
        ("flash"@, flash_json(d.flash)),
        ("download"@, None),
        ("control"@, control_json(d.control)),
        ("loader"@, text_json(d.loader)),
        ("reference_log"@, text_json(d.reference_log)),
        ("dut_dir"@, text_json(d.dut_dir)),
    ]
}

proof fn lemma_dut_keys()
    ensures
        apart_before(dut_keys(), 12),
        dut_keys().len() == 12,
{
    reveal_with_fuel(apart_before, 13);
    reveal_with_fuel(apart, 13);
    reveal_strlit("dut_name");
    reveal_strlit("serial");
    reveal_strlit("target");
    reveal_strlit("uboot");
    reveal_strlit("relay");
    reveal_strlit("monitor");
    reveal_strlit("flash");
    reveal_strlit("download");
    reveal_strlit("control");
    reveal_strlit("loader");
    reveal_strlit("reference_log");
    reveal_strlit("dut_dir");
    assert("dut_name"@.len() == 8);
    assert("serial"@.len() == 6);
    assert("target"@.len() == 6);
    assert("uboot"@.len() == 5);
    assert("relay"@.len() == 5);
    assert("monitor"@.len() == 7);
    assert("flash"@.len() == 5);
    assert("download"@.len() == 8);
    assert("control"@.len() == 7);
    assert("loader"@.len() == 6);
    assert("reference_log"@.len() == 13);
    assert("dut_dir"@.len() == 7);
    assert("serial"@[0] == 's' && "target"@[0] == 't');
    assert("uboot"@[0] == 'u' && "relay"@[0] == 'r');
    assert("uboot"@[0] == 'u' && "flash"@[0] == 'f');
    assert("relay"@[0] == 'r' && "flash"@[0] == 'f');
    assert("dut_name"@[1] == 'u' && "download"@[1] == 'o');
    assert("monitor"@[0] == 'm' && "control"@[0] == 'c');
    assert("serial"@[0] == 's' && "loader"@[0] == 'l');
    assert("target"@[0] == 't' && "loader"@[0] == 'l');
    assert("monitor"@[0] == 'm' && "dut_dir"@[0] == 'd');
    assert("control"@[0] == 'c' && "dut_dir"@[0] == 'd');
}

pub proof fn lemma_dut_object(d: DutView)
    requires
        dut_spellable(d),
    ensures
        dut_of(JsonView::Object(filled(dut_slots(d)))) == Some(kept_dut(d)),
{
    let sl = dut_slots(d);
    let m = filled(sl);
    lemma_dut_keys();
    assert forall|i: int| 0 <= i < dut_keys().len() implies (#[trigger] sl[i]).0 == dut_keys()[i] by {}
    lemma_filled(sl, dut_keys());
    assert(sl[0] == ("dut_name"@, sl[0].1));
    assert(sl[1] == ("serial"@, sl[1].1));
    assert(sl[2] == ("target"@, sl[2].1));
    assert(sl[3] == ("uboot"@, sl[3].1));
    assert(sl[4] == ("relay"@, sl[4].1));
    assert(sl[5] == ("monitor"@, sl[5].1));
    assert(sl[6] == ("flash"@, sl[6].1));
    assert(sl[7] == ("download"@, sl[7].1));
    assert(sl[8] == ("control"@, sl[8].1));
    assert(sl[9] == ("loader"@, sl[9].1));
    assert(sl[10] == ("reference_log"@, sl[10].1));
    assert(sl[11] == ("dut_dir"@, sl[11].1));
    lemma_serial(d.serial);
    lemma_target(d.target);
    lemma_uboot(d.uboot);
    lemma_relay(d.relay);
    lemma_monitor(d.monitor);
    lemma_flash(d.flash);
    lemma_control(d.control);
    assert(dut_of(JsonView::Object(m))->0 =~= kept_dut(d));
}

pub open spec fn kept_duts(v: Seq<DutView>) -> Seq<DutView> {
    Seq::new(v.len(), |i: int| kept_dut(v[i]))
}

pub open spec fn duts_json(v: Seq<DutView>) -> Seq<JsonView> {
    Seq::new(v.len(), |i: int| JsonView::Object(filled(dut_slots(v[i]))))
}

/// Of a host: address, user and password, empty where they were not set, the
/// display name unless it is empty, and the boards as they are kept.
pub open spec fn kept_host(h: HostView) -> HostView {
    HostView {
        host_name: shown_name(h),
        ip: Some(or_empty(h.ip)),
        user: Some(or_empty(h.user)),
        pass: Some(or_empty(h.pass)),
        duts: kept_duts(h.duts),
    }
}

/// The display name of a host, unless it is empty.
pub open spec fn shown_name(h: HostView) -> Option<Seq<char>> {
    if or_empty(h.host_name).len() > 0 {
        h.host_name
    } else {
        None
    }
}

pub open spec fn host_spellable(h: HostView) -> bool {
    forall|i: int| 0 <= i < h.duts.len() ==> dut_spellable(#[trigger] h.duts[i])
}

/// The names of a host's members in the order in which they are written.
pub open spec fn host_order() -> Seq<Seq<char>> {
    seq!["ip"@, "user"@, "pass"@, "host_name"@, "duts"@]
}

pub open spec fn host_slots(h: HostView) -> Seq<Slot> {
    seq![
        ("ip"@, text_json(Some(or_empty(h.ip)))),
        ("user"@, text_json(Some(or_empty(h.user)))),
        ("pass"@, text_json(Some(or_empty(h.pass)))),
        ("host_name"@, text_json(shown_name(h))),
        ("duts"@, Some(JsonView::Array(duts_json(h.duts)))),
    ]
}

proof fn lemma_host_order()
    ensures
        apart_before(host_order(), 5),
{
    reveal_with_fuel(apart_before, 6);
    reveal_with_fuel(apart, 6);
    reveal_strlit("ip");
    reveal_strlit("user");
    reveal_strlit("pass");
    reveal_strlit("host_name");
    reveal_strlit("duts");
    assert("ip"@.len() == 2);
    assert("user"@.len() == 4);
    assert("pass"@.len() == 4);
    assert("host_name"@.len() == 9);
    assert("duts"@.len() == 4);
    assert("user"@[0] == 'u' && "pass"@[0] == 'p');
    assert("user"@[0] == 'u' && "duts"@[0] == 'd');
    assert("pass"@[0] == 'p' && "duts"@[0] == 'd');
}

proof fn lemma_duts_from(v: Seq<DutView>, i: int)
    requires
        0 <= i <= v.len(),
        forall|k: int| 0 <= k < v.len() ==> dut_spellable(#[trigger] v[k]),
    ensures
        duts_from(duts_json(v), i, kept_duts(v).take(i)) == Some(kept_duts(v)),
    decreases v.len() - i,
{
    let kd = kept_duts(v);
    if i < v.len() {
        lemma_dut_object(v[i]);
        lemma_duts_from(v, i + 1);
        assert(kd.take(i).push(kept_dut(v[i])) =~= kd.take(i + 1));
    } else {
        assert(kd.take(i) =~= kd);
    }
}

pub proof fn lemma_host_object(h: HostView)
    requires
        host_spellable(h),
    ensures
        host_of(JsonView::Object(filled(host_slots(h)))) == Some(kept_host(h)),
{
    let sl = host_slots(h);
    let m = filled(sl);
    lemma_host_order();
    assert forall|i: int| 0 <= i < host_order().len() implies (#[trigger] sl[i]).0 == host_order()[i] by {}
    lemma_filled(sl, host_order());
    assert(sl[0] == ("ip"@, sl[0].1));
    assert(sl[1] == ("user"@, sl[1].1));
    assert(sl[2] == ("pass"@, sl[2].1));
    assert(sl[3] == ("host_name"@, sl[3].1));
    assert(sl[4] == ("duts"@, sl[4].1));
    assert(only(m, host_keys())) by {
        let hk = host_keys();
        assert(hk[0] == "host_name"@ && hk[1] == "ip"@ && hk[2] == "user"@ && hk[3] == "pass"@
            && hk[4] == "duts"@);
        assert forall|i: int| 0 <= i < m.len() implies hk.contains((#[trigger] m[i]).0) by {
            assert(host_order().contains(m[i].0));
        }
    }
    lemma_duts_from(h.duts, 0);
    assert(kept_duts(h.duts).take(0) =~= Seq::empty());
    assert(host_of(JsonView::Object(m))->0 =~= kept_host(h));
}

pub open spec fn kept_hosts(v: Seq<HostView>) -> Seq<HostView> {
    Seq::new(v.len(), |i: int| kept_host(v[i]))
}

pub open spec fn hosts_json(v: Seq<HostView>) -> Seq<JsonView> {
    Seq::new(v.len(), |i: int| JsonView::Object(filled(host_slots(v[i]))))
}

proof fn lemma_hosts_from(v: Seq<HostView>, i: int)
    requires
        0 <= i <= v.len(),
        forall|k: int| 0 <= k < v.len() ==> host_spellable(#[trigger] v[k]),
    ensures
        hosts_from(hosts_json(v), i, kept_hosts(v).take(i)) == Some(kept_hosts(v)),
    decreases v.len() - i,
{
    let kh = kept_hosts(v);
    if i < v.len() {
        lemma_host_object(v[i]);
        lemma_hosts_from(v, i + 1);
        assert(kh.take(i).push(kept_host(v[i])) =~= kh.take(i + 1));
    } else {
        assert(kh.take(i) =~= kh);
    }
}

/// What the written form of a configuration keeps of it: the hosts and
/// sections as they are kept, and no download settings.
pub open spec fn kept_config(c: ConfigView) -> ConfigView {
    ConfigView {
        dev_hosts: kept_hosts(c.dev_hosts),
        serial: kept_serial_section(c.serial),
        target: kept_target_section(c.target),
        relay: kept_relay_section(c.relay),
        monitor: kept_monitor_section(c.monitor),
        flash: kept_flash_section(c.flash),
        download: None,
        ..c
    }
}

/// Whether JSON can spell the numbers of a configuration.
pub open spec fn config_spellable(c: ConfigView) -> bool {
    &&& serial_spellable(c.serial)
    &&& monitor_spellable(c.monitor)
    &&& forall|i: int| 0 <= i < c.dev_hosts.len() ==> host_spellable(#[trigger] c.dev_hosts[i])
}

pub open spec fn config_slots(c: ConfigView) -> Seq<Slot> {
    seq![
        ("dev_hosts"@, Some(JsonView::Array(hosts_json(c.dev_hosts)))),
        ("serial"@, serial_json(c.serial)),
        ("target"@, target_json(c.target)),
        ("uboot"@, uboot_json(c.uboot)),
        ("relay"@, relay_json(c.relay)),
        ("monitor"@, monitor_json(c.monitor)),
        ("flash"@, flash_json(c.flash)),
        ("download"@, None),
        ("control"@, control_json(c.control)),
        ("loader"@, text_json(c.loader)),
        ("reference_log"@, text_json(c.reference_log)),
        ("dut_dir"@, text_json(c.dut_dir)),
        ("lock_dir"@, text_json(c.lock_dir)),
    ]
}

proof fn lemma_config_keys()
    ensures
        apart_before(config_keys(), 13),
        config_keys().len() == 13,
{
    reveal_with_fuel(apart_before, 14);
    reveal_with_fuel(apart, 14);
    reveal_strlit("dev_hosts");
    reveal_strlit("serial");
    reveal_strlit("target");
    reveal_strlit("uboot");
    reveal_strlit("relay");
    reveal_strlit("monitor");
    reveal_strlit("flash");
    reveal_strlit("download");
    reveal_strlit("control");
    reveal_strlit("loader");
    reveal_strlit("reference_log");
    reveal_strlit("dut_dir");
    reveal_strlit("lock_dir");
    assert("dev_hosts"@.len() == 9);
    assert("serial"@.len() == 6);
    assert("target"@.len() == 6);
    assert("uboot"@.len() == 5);
    assert("relay"@.len() == 5);
    assert("monitor"@.len() == 7);
    assert("flash"@.len() == 5);
    assert("download"@.len() == 8);
    assert("control"@.len() == 7);
    assert("loader"@.len() == 6);
    assert("reference_log"@.len() == 13);
    assert("dut_dir"@.len() == 7);
    assert("lock_dir"@.len() == 8);
    assert("serial"@[0] == 's' && "target"@[0] == 't');
    assert("uboot"@[0] == 'u' && "relay"@[0] == 'r');
    assert("uboot"@[0] == 'u' && "flash"@[0] == 'f');
    assert("relay"@[0] == 'r' && "flash"@[0] == 'f');
    assert("monitor"@[0] == 'm' && "control"@[0] == 'c');
    assert("serial"@[0] == 's' && "loader"@[0] == 'l');
    assert("target"@[0] == 't' && "loader"@[0] == 'l');
    assert("monitor"@[0] == 'm' && "dut_dir"@[0] == 'd');
    assert("control"@[0] == 'c' && "dut_dir"@[0] == 'd');
    assert("download"@[0] == 'd' && "lock_dir"@[0] == 'l');
}

pub proof fn lemma_config_object(c: ConfigView)
    requires
        config_spellable(c),
    ensures
        config_of(JsonView::Object(filled(config_slots(c)))) == Some(kept_config(c)),
{
    let sl = config_slots(c);
    let m = filled(sl);
    lemma_config_keys();
    assert forall|i: int| 0 <= i < config_keys().len() implies (#[trigger] sl[i]).0 == config_keys()[i] by {}
    lemma_filled(sl, config_keys());
    assert(sl[0] == ("dev_hosts"@, sl[0].1));
    assert(sl[1] == ("serial"@, sl[1].1));
    assert(sl[2] == ("target"@, sl[2].1));
    assert(sl[3] == ("uboot"@, sl[3].1));
    assert(sl[4] == ("relay"@, sl[4].1));
    assert(sl[5] == ("monitor"@, sl[5].1));
    assert(sl[6] == ("flash"@, sl[6].1));
    assert(sl[7] == ("download"@, sl[7].1));
    assert(sl[8] == ("control"@, sl[8].1));
    assert(sl[9] == ("loader"@, sl[9].1));
    assert(sl[10] == ("reference_log"@, sl[10].1));
    assert(sl[11] == ("dut_dir"@, sl[11].1));
    assert(sl[12] == ("lock_dir"@, sl[12].1));
    lemma_serial(c.serial);
    lemma_target(c.target);
    lemma_uboot(c.uboot);
    lemma_relay(c.relay);
    lemma_monitor(c.monitor);
    lemma_flash(c.flash);
    lemma_control(c.control);
    lemma_hosts_from(c.dev_hosts, 0);
    assert(kept_hosts(c.dev_hosts).take(0) =~= Seq::empty());
    assert(config_of(JsonView::Object(m))->0 =~= kept_config(c));
}

/// The members of a relay section as it is written.
pub proof fn lemma_relay_members(x: RelayView)
    ensures
        member(filled(relay_slots(x)), "type"@) == text_json(x.relay_type),
        member(filled(relay_slots(x)), "port"@) == whole_json(nat16(x.port)),
        member(filled(relay_slots(x)), "ip"@) == text_json(x.ip),
        member(filled(relay_slots(x)), "reset_ch"@) == whole_json(not_zero(nat8(x.reset_ch))),
        member(filled(relay_slots(x)), "reset_channel"@) == None::<JsonView>,
        member(filled(relay_slots(x)), "download_ch"@) == whole_json(not_zero(nat8(x.download_ch))),
        member(filled(relay_slots(x)), "download_channel"@) == None::<JsonView>,
        member(filled(relay_slots(x)), "power_ch"@) == whole_json(not_zero(nat8(x.power_ch))),
        member(filled(relay_slots(x)), "power_channel"@) == None::<JsonView>,
        member(filled(relay_slots(x)), "reset_time_ms"@) == whole_json(not_zero(nat64(x.reset_time_ms))),
        member(filled(relay_slots(x)), "power_off_time_ms"@) == whole_json(not_zero(nat64(x.power_off_time_ms))),
{
    let sl = relay_slots(x);
    lemma_relay_keys();
    assert forall|i: int| 0 <= i < relay_keys().len() implies (#[trigger] sl[i]).0 == relay_keys()[i] by {}
    lemma_filled(sl, relay_keys());
    assert(sl[0] == ("type"@, sl[0].1));
    assert(sl[1] == ("port"@, sl[1].1));
    assert(sl[2] == ("ip"@, sl[2].1));
    assert(sl[3] == ("reset_ch"@, sl[3].1));
    assert(sl[4] == ("reset_channel"@, sl[4].1));
    assert(sl[5] == ("download_ch"@, sl[5].1));
    assert(sl[6] == ("download_channel"@, sl[6].1));
    assert(sl[7] == ("power_ch"@, sl[7].1));
    assert(sl[8] == ("power_channel"@, sl[8].1));
    assert(sl[9] == ("reset_time_ms"@, sl[9].1));
    assert(sl[10] == ("power_off_time_ms"@, sl[10].1));
}

/// The members of a board as it is written.
pub proof fn lemma_dut_members(d: DutView)
    ensures
        member(filled(dut_slots(d)), "dut_name"@) == text_json(Some(d.dut_name)),
        member(filled(dut_slots(d)), "serial"@) == serial_json(d.serial),
        member(filled(dut_slots(d)), "target"@) == target_json(d.target),
        member(filled(dut_slots(d)), "uboot"@) == uboot_json(d.uboot),
        member(filled(dut_slots(d)), "relay"@) == relay_json(d.relay),
        member(filled(dut_slots(d)), "monitor"@) == monitor_json(d.monitor),
        member(filled(dut_slots(d)), "flash"@) == flash_json(d.flash),
        member(filled(dut_slots(d)), "download"@) == None::<JsonView>,
        member(filled(dut_slots(d)), "control"@) == control_json(d.control),
        member(filled(dut_slots(d)), "loader"@) == text_json(d.loader),
{
    let sl = dut_slots(d);
    lemma_dut_keys();
    assert forall|i: int| 0 <= i < dut_keys().len() implies (#[trigger] sl[i]).0 == dut_keys()[i] by {}
    lemma_filled(sl, dut_keys());
    assert(sl[0] == ("dut_name"@, sl[0].1));
    assert(sl[1] == ("serial"@, sl[1].1));
    assert(sl[2] == ("target"@, sl[2].1));
    assert(sl[3] == ("uboot"@, sl[3].1));
    assert(sl[4] == ("relay"@, sl[4].1));
    assert(sl[5] == ("monitor"@, sl[5].1));
    assert(sl[6] == ("flash"@, sl[6].1));
    assert(sl[7] == ("download"@, sl[7].1));
    assert(sl[8] == ("control"@, sl[8].1));
    assert(sl[9] == ("loader"@, sl[9].1));
}

/// The members of a host as it is written.
pub proof fn lemma_host_members(h: HostView)
    ensures
        member(filled(host_slots(h)), "ip"@) == text_json(Some(or_empty(h.ip))),
        member(filled(host_slots(h)), "user"@) == text_json(Some(or_empty(h.user))),
        member(filled(host_slots(h)), "pass"@) == text_json(Some(or_empty(h.pass))),
        member(filled(host_slots(h)), "host_name"@) == text_json(shown_name(h)),
        member(filled(host_slots(h)), "duts"@) == Some(JsonView::Array(duts_json(h.duts))),
{
    let sl = host_slots(h);
    lemma_host_order();
    assert forall|i: int| 0 <= i < host_order().len() implies (#[trigger] sl[i]).0 == host_order()[i] by {}
    lemma_filled(sl, host_order());
    assert(sl[0] == ("ip"@, sl[0].1));
    assert(sl[1] == ("user"@, sl[1].1));
    assert(sl[2] == ("pass"@, sl[2].1));
    assert(sl[3] == ("host_name"@, sl[3].1));
    assert(sl[4] == ("duts"@, sl[4].1));
}

/// The members of a configuration as it is written.
pub proof fn lemma_config_members(c: ConfigView)
    ensures
        member(filled(config_slots(c)), "dev_hosts"@) == Some(JsonView::Array(hosts_json(c.dev_hosts))),
        member(filled(config_slots(c)), "serial"@) == serial_json(c.serial),
        member(filled(config_slots(c)), "target"@) == target_json(c.target),
        member(filled(config_slots(c)), "uboot"@) == uboot_json(c.uboot),
        member(filled(config_slots(c)), "relay"@) == relay_json(c.relay),
        member(filled(config_slots(c)), "monitor"@) == monitor_json(c.monitor),
        member(filled(config_slots(c)), "flash"@) == flash_json(c.flash),
        member(filled(config_slots(c)), "download"@) == None::<JsonView>,
        member(filled(config_slots(c)), "control"@) == control_json(c.control),
        member(filled(config_slots(c)), "loader"@) == text_json(c.loader),
        member(filled(config_slots(c)), "reference_log"@) == text_json(c.reference_log),
        member(filled(config_slots(c)), "dut_dir"@) == text_json(c.dut_dir),
        member(filled(config_slots(c)), "lock_dir"@) == text_json(c.lock_dir),
{
    let sl = config_slots(c);
    lemma_config_keys();
    assert forall|i: int| 0 <= i < config_keys().len() implies (#[trigger] sl[i]).0 == config_keys()[i] by {}
    lemma_filled(sl, config_keys());
    assert(sl[0] == ("dev_hosts"@, sl[0].1));
    assert(sl[1] == ("serial"@, sl[1].1));
    assert(sl[2] == ("target"@, sl[2].1));
    assert(sl[3] == ("uboot"@, sl[3].1));
    assert(sl[4] == ("relay"@, sl[4].1));
    assert(sl[5] == ("monitor"@, sl[5].1));
    assert(sl[6] == ("flash"@, sl[6].1));
    assert(sl[7] == ("download"@, sl[7].1));
    assert(sl[8] == ("control"@, sl[8].1));
    assert(sl[9] == ("loader"@, sl[9].1));
    assert(sl[10] == ("reference_log"@, sl[10].1));
    assert(sl[11] == ("dut_dir"@, sl[11].1));
    assert(sl[12] == ("lock_dir"@, sl[12].1));
}

/// The members of a serial section as it is written.
pub proof fn lemma_serial_members(x: SerialView)
    ensures
        member(filled(serial_slots(x)), "port"@) == number_json(x.port),
        member(filled(serial_slots(x)), "baudrate"@) == number_json(x.baudrate),
        member(filled(serial_slots(x)), "rfc2217"@) == truth_json(x.rfc2217),
{
    let sl = serial_slots(x);
    lemma_serial_keys();
    assert forall|i: int| 0 <= i < serial_keys().len() implies (#[trigger] sl[i]).0 == serial_keys()[i] by {}
    lemma_filled(sl, serial_keys());
    assert(sl[0] == ("port"@, sl[0].1));
    assert(sl[1] == ("baudrate"@, sl[1].1));
    assert(sl[2] == ("rfc2217"@, sl[2].1));
}

/// The members of a login section as it is written.
pub proof fn lemma_target_members(x: TargetView)
    ensures
        member(filled(target_slots(x)), "login_user"@) == text_json(Some(or_empty(x.login_user))),
        member(filled(target_slots(x)), "login_pass"@) == text_json(Some(or_empty(x.login_pass))),
        member(filled(target_slots(x)), "login_prompt"@) == text_json(x.login_prompt),
{
    let sl = target_slots(x);
    lemma_target_keys();
    assert forall|i: int| 0 <= i < target_keys().len() implies (#[trigger] sl[i]).0 == target_keys()[i] by {}
    lemma_filled(sl, target_keys());
    assert(sl[0] == ("login_user"@, sl[0].1));
    assert(sl[1] == ("login_pass"@, sl[1].1));
    assert(sl[2] == ("login_prompt"@, sl[2].1));
}

/// The members of a loader section as it is written.
pub proof fn lemma_uboot_members(x: UbootView)
    ensures
        member(filled(uboot_slots(x)), "interrupt_char"@) == text_json(x.interrupt_char),
        member(filled(uboot_slots(x)), "interrupt_strategy"@) == text_json(x.interrupt_strategy),
        member(filled(uboot_slots(x)), "pattern"@) == text_json(x.pattern),
{
    let sl = uboot_slots(x);
    lemma_uboot_keys();
    assert forall|i: int| 0 <= i < uboot_keys().len() implies (#[trigger] sl[i]).0 == uboot_keys()[i] by {}
    lemma_filled(sl, uboot_keys());
    assert(sl[0] == ("interrupt_char"@, sl[0].1));
    assert(sl[1] == ("interrupt_strategy"@, sl[1].1));
    assert(sl[2] == ("pattern"@, sl[2].1));
}

/// The members of a monitor section as it is written.
pub proof fn lemma_monitor_members(x: MonitorView)
    ensures
        member(filled(monitor_slots(x)), "hang_timeout"@) == whole_json(nat64(x.hang_timeout)),
        member(filled(monitor_slots(x)), "hang_hysteresis"@) == whole_json(nat64(x.hang_hysteresis)),
        member(filled(monitor_slots(x)), "max_archived_logs"@) == whole_json(nat64(x.max_archived_logs)),
        member(filled(monitor_slots(x)), "max_log_file_size"@) == whole_json(nat64(x.max_log_file_size)),
        member(filled(monitor_slots(x)), "reference_log"@) == text_json(x.reference_log),
        member(filled(monitor_slots(x)), "learner_stage_threshold"@) == real_json(x.learner_stage_threshold),
        member(filled(monitor_slots(x)), "learner_crash_threshold"@) == real_json(x.learner_crash_threshold),
        member(filled(monitor_slots(x)), "crash_keywords"@) == texts_json(x.crash_keywords),
{
    let sl = monitor_slots(x);
    lemma_monitor_keys();
    assert forall|i: int| 0 <= i < monitor_keys().len() implies (#[trigger] sl[i]).0 == monitor_keys()[i] by {}
    lemma_filled(sl, monitor_keys());
    assert(sl[0] == ("hang_timeout"@, sl[0].1));
    assert(sl[1] == ("hang_hysteresis"@, sl[1].1));
    assert(sl[2] == ("max_archived_logs"@, sl[2].1));
    assert(sl[3] == ("max_log_file_size"@, sl[3].1));
    assert(sl[4] == ("reference_log"@, sl[4].1));
    assert(sl[5] == ("learner_stage_threshold"@, sl[5].1));
    assert(sl[6] == ("learner_crash_threshold"@, sl[6].1));
    assert(sl[7] == ("crash_keywords"@, sl[7].1));
}

/// The members of a flash section as it is written.
pub proof fn lemma_flash_members(x: FlashView)
    ensures
        member(filled(flash_slots(x)), "full_image_cmd"@) == text_json(x.full_image_cmd),
        member(filled(flash_slots(x)), "kernel_image_cmd"@) == text_json(x.kernel_image_cmd),
        member(filled(flash_slots(x)), "loader_bin"@) == text_json(x.loader_bin),
{
    let sl = flash_slots(x);
    lemma_flash_keys();
    assert forall|i: int| 0 <= i < flash_keys().len() implies (#[trigger] sl[i]).0 == flash_keys()[i] by {}
    lemma_filled(sl, flash_keys());
    assert(sl[1] == ("full_image_cmd"@, sl[1].1));
    assert(sl[2] == ("kernel_image_cmd"@, sl[2].1));
    assert(sl[3] == ("loader_bin"@, sl[3].1));
}

/// The members of a control section as it is written.
pub proof fn lemma_control_members(x: ControlView)
    ensures
        member(filled(control_slots(x)), "dev_ctrl"@) == text_json(x.dev_ctrl),
{
    let sl = control_slots(x);
    lemma_control_keys();
    assert forall|i: int| 0 <= i < control_keys().len() implies (#[trigger] sl[i]).0 == control_keys()[i] by {}
    lemma_filled(sl, control_keys());
    assert(sl[0] == ("dev_ctrl"@, sl[0].1));
}

} // verus!

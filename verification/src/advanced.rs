//! The advanced keys: their table, their defaults, and the literal that an
//! answer is written as.
//!
//! A key is a flat path such as `monitor.hang_timeout`: a section and a field.
use crate::config::{NumberOrString, NumberView};
use crate::edit::{debug_quoted, debug_string, max_indent};
use crate::jsonc::{json_string, quoted};
use crate::loader::Loader;
use crate::locate::hex_value;
use crate::number::{
    ascii_lowered, decimal, decimal_text, parse_real, parse_unsigned, real_value, to_ascii_lower,
    unsigned, RealSign,
};
use crate::text::{
    blank, from_chars, lemma_texts_push, owned, same, spaces, texts, to_chars, trim, trimmed,
};
use crate::loader;
use vstd::prelude::*;

verus! {

/// What an empty answer to a question means.
#[derive(Clone, Copy, Debug, PartialEq, Eq, Structural)]
pub enum EmptyMeans {
    /// The default is taken.
    AcceptDefault,
    /// The key is left out, and the value inherited.
    SkipInherit,
}

/// An advanced key with its label.
#[derive(Clone, Copy, Debug, PartialEq)]
pub struct AdvFieldSpec {
    pub key: &'static str,
    pub label: &'static str,
    pub empty: EmptyMeans,
}

/// The meaning of an [`AdvFieldSpec`].
pub struct AdvFieldView {
    pub key: Seq<char>,
    pub label: Seq<char>,
    pub empty: EmptyMeans,
}

impl View for AdvFieldSpec {
    type V = AdvFieldView;

    open spec fn view(&self) -> AdvFieldView {
        AdvFieldView { key: self.key@, label: self.label@, empty: self.empty }
    }
}

/// The meanings of a table of advanced keys.
pub open spec fn adv_views(v: Seq<AdvFieldSpec>) -> Seq<AdvFieldView> {
    Seq::new(v.len(), |i: int| v[i]@)
}

pub open spec fn adv(key: Seq<char>, label: Seq<char>, empty: EmptyMeans) -> AdvFieldView {
    AdvFieldView { key, label, empty }
}

/// All advanced keys, in the order in which they are asked.
pub open spec fn advanced_table() -> Seq<AdvFieldView> {
    let take = EmptyMeans::AcceptDefault;
    let skip = EmptyMeans::SkipInherit;
    seq![
        adv("serial.baudrate"@, "Serial baudrate (number)"@, take),
        adv("target.login_pass"@, "Target login password"@, skip),
        adv("target.login_prompt"@, "Target login prompt regex"@, skip),
        adv("uboot.interrupt_char"@, "U-Boot interrupt char"@, take),
        adv("uboot.interrupt_strategy"@, "U-Boot interrupt strategy"@, take),
        adv("uboot.pattern"@, "U-Boot interrupt pattern regex"@, skip),
        adv("monitor.hang_timeout"@, "Hang timeout seconds"@, take),
        adv("monitor.max_archived_logs"@, "Max archived boot logs"@, take),
        adv("monitor.max_log_file_size"@, "Max log file size MB"@, take),
        adv("monitor.reference_log"@, "Reference boot log path"@, take),
        adv("monitor.learner_stage_threshold"@, "Learner stage threshold (0.0-1.0)"@, take),
        adv("monitor.learner_crash_threshold"@, "Learner crash threshold (0.0-1.0)"@, take),
        adv("monitor.crash_keywords"@, "Crash keywords (comma/newline separated)"@, take),
        adv("flash.full_image_cmd"@, "Flash full-image command"@, take),
        adv("flash.kernel_image_cmd"@, "Flash kernel-image command"@, take),
        adv("flash.loader_bin"@, "Flash loader binary path"@, take),
        adv("control.dev_ctrl"@, "Device control backend"@, skip),
        adv("loader"@, "Boot loader"@, take),
    ]
}

fn adv_spec(key: &'static str, label: &'static str, empty: EmptyMeans) -> (r: AdvFieldSpec)
    ensures
        r@ == adv(key@, label@, empty),
{
    AdvFieldSpec { key, label, empty }
}

/// All advanced keys, in the order in which they are asked.
pub fn advanced_fields() -> (r: Vec<AdvFieldSpec>)
    ensures
        adv_views(r@) == advanced_table(),
{
    let take = EmptyMeans::AcceptDefault;
    let skip = EmptyMeans::SkipInherit;
    let r = vec![
        adv_spec("serial.baudrate", "Serial baudrate (number)", take),
        adv_spec("target.login_pass", "Target login password", skip),
        adv_spec("target.login_prompt", "Target login prompt regex", skip),
        adv_spec("uboot.interrupt_char", "U-Boot interrupt char", take),
        adv_spec("uboot.interrupt_strategy", "U-Boot interrupt strategy", take),
        adv_spec("uboot.pattern", "U-Boot interrupt pattern regex", skip),
        adv_spec("monitor.hang_timeout", "Hang timeout seconds", take),
        adv_spec("monitor.max_archived_logs", "Max archived boot logs", take),
        adv_spec("monitor.max_log_file_size", "Max log file size MB", take),
        adv_spec("monitor.reference_log", "Reference boot log path", take),
        adv_spec("monitor.learner_stage_threshold", "Learner stage threshold (0.0-1.0)", take),
        adv_spec("monitor.learner_crash_threshold", "Learner crash threshold (0.0-1.0)", take),
        adv_spec("monitor.crash_keywords", "Crash keywords (comma/newline separated)", take),
        adv_spec("flash.full_image_cmd", "Flash full-image command", take),
        adv_spec("flash.kernel_image_cmd", "Flash kernel-image command", take),
        adv_spec("flash.loader_bin", "Flash loader binary path", take),
        adv_spec("control.dev_ctrl", "Device control backend", skip),
        adv_spec("loader", "Boot loader", take),
    ];
    assert(adv_views(r@) =~= advanced_table());
    r
}

/// The advanced keys that each board has its own value of.
pub open spec fn dut_keys() -> Seq<Seq<char>> {
    seq![
        "serial.baudrate"@,
        "target.login_pass"@,
        "target.login_prompt"@,
        "uboot.interrupt_char"@,
        "uboot.interrupt_strategy"@,
        "uboot.pattern"@,
        "monitor.max_archived_logs"@,
        "monitor.reference_log"@,
        "monitor.crash_keywords"@,
        "flash.full_image_cmd"@,
        "flash.kernel_image_cmd"@,
        "flash.loader_bin"@,
        "control.dev_ctrl"@,
        "loader"@,
    ]
}

/// The advanced keys that each board has its own value of.
pub fn dut_advanced_keys() -> (r: Vec<&'static str>)
    ensures
        crate::config::strs(r@) == dut_keys(),
{
    let r = vec![
        "serial.baudrate",
        "target.login_pass",
        "target.login_prompt",
        "uboot.interrupt_char",
        "uboot.interrupt_strategy",
        "uboot.pattern",
        "monitor.max_archived_logs",
        "monitor.reference_log",
        "monitor.crash_keywords",
        "flash.full_image_cmd",
        "flash.kernel_image_cmd",
        "flash.loader_bin",
        "control.dev_ctrl",
        "loader",
    ];
    assert(crate::config::strs(r@) =~= dut_keys());
    r
}

/// Whether each board has its own value of the key.
pub open spec fn dut_owned(key: Seq<char>) -> bool {
    dut_keys().contains(key)
}

/// Whether each board has its own value of the key.
pub fn dut_owned_advanced(k: &str) -> (r: bool)
    ensures
        r == dut_owned(k@),
{
    crate::config::has_name(&dut_advanced_keys(), k)
}

// ── Sections and fields ──────────────────────────────────────────────
/// The first point at or after `i`.
pub open spec fn point_from(s: Seq<char>, i: int) -> Option<int>
    decreases s.len() - i,
{
    if i < 0 || i >= s.len() {
        None
    } else if s[i] == '.' {
        Some(i)
    } else {
        point_from(s, i + 1)
    }
}

/// The section of a key: what stands before its first point.
pub open spec fn section_of(key: Seq<char>) -> Seq<char> {
    match point_from(key, 0) {
        Some(i) => key.take(i),
        None => Seq::empty(),
    }
}

/// The field of a key: what stands behind its first point, or all of it.
pub open spec fn field_of(key: Seq<char>) -> Seq<char> {
    match point_from(key, 0) {
        Some(i) => key.skip(i + 1),
        None => key,
    }
}

/// The section and the field of a key.
pub fn advanced_field(key: &str) -> (r: (String, String))
    ensures
        r.0@ == section_of(key@),
        r.1@ == field_of(key@),
{
    let chars = to_chars(key);
    let mut i: usize = 0;
    while i < chars.len()
        invariant
            i <= chars.len(),
            chars@ == key@,
            point_from(key@, i as int) == point_from(key@, 0),
        decreases chars.len() - i,
    {
        if chars[i] == '.' {
            let section = from_chars(&chars, 0, i);
            let field = from_chars(&chars, i + 1, chars.len());
            assert(section@ =~= key@.take(i as int));
            assert(field@ =~= key@.skip(i + 1));
            return (section, field);
        }
        i += 1;
    }
    (String::new(), owned(key))
}

// ── Comments ─────────────────────────────────────────────────────────
pub const C_DUT_NAME: &'static str = "REQUIRED — unique across ALL DUTs";

pub const C_HOST_IP: &'static str = "REQUIRED — ssh / ser2net host";

pub const C_HOST_USER: &'static str = "ssh user (shown as user@ip in dutabo list)";

pub const C_HOST_PASS: &'static str = "ssh password (optional, plaintext as before)";

pub const C_HOST_NAME: &'static str =
    "optional display name — falls back to the host ip when absent";

pub const C_PORT: &'static str = "ser2net port OR device path \"/dev/ttyUSB0\"; number or string";

pub const C_BAUDRATE: &'static str = "number or string (default 460800)";

pub const C_RFC2217: &'static str = "true for telnet(rfc2217) ser2net ports (dynamic baud)";

pub const C_LOGIN_USER: &'static str = "empty = boot-to-shell detection disabled (warn)";

pub const C_LOGIN_PROMPT: &'static str = "regex; empty = built-in \"login:\" matcher";

pub const C_UBOOT_CHAR: &'static str = "ctrl_c | \"0x03\" | any 1 char | decimal";

pub const C_RELAY_TYPE: &'static str =
    "ch340 | ch340-relay | none | disabled (usb-relay and external dev-ctl removed)";

pub const C_RELAY_CH_ALIASES: &'static str =
    "aliases reset_channel/download_channel/power_channel also accepted";

pub const C_POWER_CH: &'static str = "0 = inherit global (zero-guarded insertion)";

pub const C_RESET_TIME: &'static str = "0 = inherit";

pub const C_POWER_OFF: &'static str = "clamped to >= 3000; 0 = inherit global";

pub const C_CRASH_KEYWORDS: &'static str = "substrings, not regex";

pub const C_DUT_DIR: &'static str = "default: \".dut-serial/<dut_name>\"";

pub const C_REFERENCE_LOG_DUT: &'static str =
    "back-compat per-DUT key, overrides monitor.reference_log";

pub const C_LOCK_DIR: &'static str = "top-level ONLY — never valid inside a dut";

/// The comment behind the line of a key.
pub open spec fn comment_of(key: Seq<char>) -> Option<Seq<char>> {
    let f = field_of(key);
    if f == "port"@ {
        Some(C_PORT@)
    } else if f == "baudrate"@ {
        Some(C_BAUDRATE@)
    } else if f == "rfc2217"@ {
        Some(C_RFC2217@)
    } else if f == "login_user"@ {
        Some(C_LOGIN_USER@)
    } else if f == "login_prompt"@ {
        Some(C_LOGIN_PROMPT@)
    } else if f == "interrupt_char"@ {
        Some(C_UBOOT_CHAR@)
    } else if f == "type"@ {
        Some(C_RELAY_TYPE@)
    } else if f == "reset_ch"@ {
        Some(C_RELAY_CH_ALIASES@)
    } else if f == "power_ch"@ {
        Some(C_POWER_CH@)
    } else if f == "reset_time_ms"@ {
        Some(C_RESET_TIME@)
    } else if f == "power_off_time_ms"@ {
        Some(C_POWER_OFF@)
    } else if f == "crash_keywords"@ {
        Some(C_CRASH_KEYWORDS@)
    } else if f == "dut_dir"@ {
        Some(C_DUT_DIR@)
    } else if f == "reference_log"@ {
        Some(C_REFERENCE_LOG_DUT@)
    } else if f == "lock_dir"@ {
        Some(C_LOCK_DIR@)
    } else {
        None
    }
}

/// The meaning of an optional comment.
pub open spec fn comment_view(o: Option<&'static str>) -> Option<Seq<char>> {
    match o {
        Some(s) => Some(s@),
        None => None,
    }
}

/// The comment behind the line of a key.
pub fn comment_for(key: &str) -> (r: Option<&'static str>)
    ensures
        comment_view(r) == comment_of(key@),
{
    let (_, field) = advanced_field(key);
    let f = field.as_str();
    if same(f, "port") {
        Some(C_PORT)
    } else if same(f, "baudrate") {
        Some(C_BAUDRATE)
    } else if same(f, "rfc2217") {
        Some(C_RFC2217)
    } else if same(f, "login_user") {
        Some(C_LOGIN_USER)
    } else if same(f, "login_prompt") {
        Some(C_LOGIN_PROMPT)
    } else if same(f, "interrupt_char") {
        Some(C_UBOOT_CHAR)
    } else if same(f, "type") {
        Some(C_RELAY_TYPE)
    } else if same(f, "reset_ch") {
        Some(C_RELAY_CH_ALIASES)
    } else if same(f, "power_ch") {
        Some(C_POWER_CH)
    } else if same(f, "reset_time_ms") {
        Some(C_RESET_TIME)
    } else if same(f, "power_off_time_ms") {
        Some(C_POWER_OFF)
    } else if same(f, "crash_keywords") {
        Some(C_CRASH_KEYWORDS)
    } else if same(f, "dut_dir") {
        Some(C_DUT_DIR)
    } else if same(f, "reference_log") {
        Some(C_REFERENCE_LOG_DUT)
    } else if same(f, "lock_dir") {
        Some(C_LOCK_DIR)
    } else {
        None
    }
}

// ── Defaults ─────────────────────────────────────────────────────────
/// The reference log of a board.
pub open spec fn reference_log_of(name: Seq<char>) -> Seq<char> {
    ".dut-serial/"@ + name + "/reference-boot.log"@
}

/// The reference log of a board.
pub fn reference_log_default(name: &str) -> (r: String)
    ensures
        r@ == reference_log_of(name@),
{
    let mut r = owned(".dut-serial/");
    r.append(name);
    r.append("/reference-boot.log");
    r
}

/// The default of an advanced key where nothing is configured.
pub open spec fn natural_default(key: Seq<char>) -> Seq<char> {
    if key == "serial.baudrate"@ {
        "460800"@
    } else if key == "flash.loader_bin"@ {
        "rockdev/loader.bin"@
    } else if key == "uboot.interrupt_char"@ {
        "ctrl_c"@
    } else if key == "uboot.interrupt_strategy"@ {
        "flood"@
    } else if key == "monitor.hang_timeout"@ {
        "60"@
    } else if key == "monitor.max_archived_logs"@ {
        "10"@
    } else if key == "monitor.max_log_file_size"@ {
        "100"@
    } else if key == "monitor.learner_stage_threshold"@ {
        "0.45"@
    } else if key == "monitor.learner_crash_threshold"@ {
        "0.50"@
    } else if key == "monitor.crash_keywords"@ {
        "Kernel panic, BUG:, Oops:, Unable to handle kernel, panic - not syncing"@
    } else if key == "flash.full_image_cmd"@ {
        "uf {image}"@
    } else if key == "flash.kernel_image_cmd"@ {
        "di -k {image}"@
    } else if key == "loader"@ {
        "uboot"@
    } else {
        Seq::empty()
    }
}

/// The default of an advanced key where nothing is configured.
pub fn advanced_default(key: &str) -> (r: String)
    ensures
        r@ == natural_default(key@),
{
    let l = loader::default();
    if same(key, "serial.baudrate") {
        owned("460800")
    } else if same(key, "flash.loader_bin") {
        owned("rockdev/loader.bin")
    } else if same(key, "uboot.interrupt_char") {
        owned(l.default_interrupt_char())
    } else if same(key, "uboot.interrupt_strategy") {
        owned(l.default_interrupt_strategy())
    } else if same(key, "monitor.hang_timeout") {
        owned("60")
    } else if same(key, "monitor.max_archived_logs") {
        owned("10")
    } else if same(key, "monitor.max_log_file_size") {
        owned("100")
    } else if same(key, "monitor.learner_stage_threshold") {
        owned("0.45")
    } else if same(key, "monitor.learner_crash_threshold") {
        owned("0.50")
    } else if same(key, "monitor.crash_keywords") {
        owned("Kernel panic, BUG:, Oops:, Unable to handle kernel, panic - not syncing")
    } else if same(key, "flash.full_image_cmd") {
        owned("uf {image}")
    } else if same(key, "flash.kernel_image_cmd") {
        owned("di -k {image}")
    } else if same(key, "loader") {
        owned(l.name())
    } else {
        String::new()
    }
}

// ── Scalars ──────────────────────────────────────────────────────────
/// The scalar that an answer spells: a whole number, a real number, or the
/// text itself.
pub open spec fn scalar_of(s: Seq<char>) -> NumberView {
    let t = trimmed(s);
    match unsigned(t, u64::MAX as nat) {
        Some(n) => NumberView::Int(n),
        None => match real_value(t) {
            Some(x) => NumberView::Float(x.text),
            None => NumberView::Text(t),
        },
    }
}

/// The scalar that an answer spells.
pub fn parse_number_or_string(s: &str) -> (r: Result<NumberOrString, String>)
    ensures
        r is Ok,
        r->Ok_0@ == scalar_of(s@),
{
    let t = trim(s);
    match parse_unsigned(t, u64::MAX) {
        Some(n) => Ok(NumberOrString::Int(n)),
        None => match parse_real(t) {
            Some(x) => Ok(NumberOrString::Float(x.text)),
            None => Ok(NumberOrString::String(owned(t))),
        },
    }
}

/// The JSON literal of a scalar.
pub open spec fn scalar_literal(v: NumberView) -> Seq<char> {
    match v {
        NumberView::Int(n) => decimal(n),
        NumberView::Float(t) => t,
        NumberView::Text(t) => quoted(t),
    }
}

/// The JSON literal of a scalar.
pub fn json_literal(v: &NumberOrString) -> (r: String)
    ensures
        r@ == scalar_literal(v@),
{
    match v {
        NumberOrString::Int(n) => decimal_text(*n),
        NumberOrString::Float(t) => owned(t.as_str()),
        NumberOrString::String(t) => json_string(t.as_str()),
    }
}

/// The first `n` elements of an array, each on its own line.
pub open spec fn array_lines(items: Seq<Seq<char>>, n: int, indent: nat) -> Seq<char>
    decreases n,
{
    if n <= 0 {
        Seq::empty()
    } else {
        array_lines(items, n - 1, indent) + seq!['\n'] + spaces(indent + 2) + quoted(items[n - 1])
            + if n < items.len() {
            seq![',']
        } else {
            Seq::empty()
        }
    }
}

/// The JSON literal of an array of texts, one element to a line, with its
/// closing bracket at `indent`.
pub open spec fn array_literal(items: Seq<Seq<char>>, indent: nat) -> Seq<char> {
    seq!['['] + array_lines(items, items.len() as int, indent) + seq!['\n'] + spaces(indent)
        + seq![']']
}

/// The JSON literal of an array of texts.
pub fn pretty_array_literal(items: &Vec<String>, indent: usize) -> (r: String)
    requires
        indent <= max_indent(),
    ensures
        r@ == array_literal(texts(items@), indent as nat),
{
    let mut out = String::new();
    out.push('[');
    let inner = blank(indent + 2);
    let ghost tv = texts(items@);
    let mut i: usize = 0;
    assert(out@ =~= seq!['['] + array_lines(tv, 0, indent as nat));
    while i < items.len()
        invariant
            i <= items.len(),
            tv == texts(items@),
            inner@ == spaces((indent + 2) as nat),
            out@ == seq!['['] + array_lines(tv, i as int, indent as nat),
        decreases items.len() - i,
    {
        out.push('\n');
        out.append(inner.as_str());
        out.append(json_string(items[i].as_str()).as_str());
        if i + 1 < items.len() {
            out.push(',');
        }
        assert(out@ =~= seq!['['] + array_lines(tv, i + 1, indent as nat));
        i += 1;
    }
    out.push('\n');
    out.append(blank(indent).as_str());
    out.push(']');
    assert(out@ =~= array_literal(tv, indent as nat));
    out
}

/// The pieces of a text between commas and line breaks.
pub open spec fn pieces(s: Seq<char>) -> Seq<Seq<char>>
    decreases s.len(),
{
    if s.len() == 0 {
        seq![Seq::empty()]
    } else if s.last() == ',' || s.last() == '\n' {
        pieces(s.drop_last()).push(Seq::empty())
    } else {
        let p = pieces(s.drop_last());
        p.drop_last().push(p.last().push(s.last()))
    }
}

/// The pieces without white space around them, and without empty ones.
pub open spec fn kept_pieces(p: Seq<Seq<char>>) -> Seq<Seq<char>>
    decreases p.len(),
{
    if p.len() == 0 {
        Seq::empty()
    } else if trimmed(p.last()).len() == 0 {
        kept_pieces(p.drop_last())
    } else {
        kept_pieces(p.drop_last()).push(trimmed(p.last()))
    }
}

/// The keywords that an answer lists.
pub open spec fn keywords(s: Seq<char>) -> Seq<Seq<char>> {
    kept_pieces(pieces(s))
}

proof fn lemma_pieces_nonempty(s: Seq<char>)
    ensures
        pieces(s).len() > 0,
    decreases s.len(),
{
    if s.len() > 0 {
        lemma_pieces_nonempty(s.drop_last());
    }
}

fn keep_piece(out: &mut Vec<String>, piece: &str)
    ensures
        texts(final(out)@) == (if trimmed(piece@).len() == 0 {
            texts(old(out)@)
        } else {
            texts(old(out)@).push(trimmed(piece@))
        }),
{
    broadcast use lemma_texts_push;

    let t = trim(piece);
    if !t.is_empty() {
        out.push(owned(t));
    }
}

/// The keywords that an answer lists, separated by commas or line breaks.
pub fn split_keywords(s: &str) -> (r: Vec<String>)
    ensures
        texts(r@) == keywords(s@),
{
    let chars = to_chars(s);
    let mut out: Vec<String> = Vec::new();
    let mut piece = String::new();
    let mut i: usize = 0;
    let ghost mut done: Seq<Seq<char>> = Seq::empty();
    assert(s@.take(0) =~= Seq::empty());
    assert(pieces(s@.take(0)) =~= done.push(piece@));
    assert(texts(out@) =~= kept_pieces(done));
    while i < chars.len()
        invariant
            i <= chars.len(),
            chars@ == s@,
            pieces(s@.take(i as int)) == done.push(piece@),
            texts(out@) == kept_pieces(done),
        decreases chars.len() - i,
    {
        let c = chars[i];
        let ghost now = s@.take(i + 1);
        let ghost before = done.push(piece@);
        assert(now.drop_last() =~= s@.take(i as int));
        assert(before.drop_last() =~= done);
        if c == ',' || c == '\n' {
            keep_piece(&mut out, piece.as_str());
            proof {
                done = before;
            }
            piece = String::new();
            assert(pieces(now) =~= done.push(piece@));
        } else {
            piece.push(c);
            assert(pieces(now) =~= done.push(piece@));
        }
        i += 1;
    }
    assert(s@.take(s@.len() as int) =~= s@);
    assert(done.push(piece@).drop_last() =~= done);
    keep_piece(&mut out, piece.as_str());
    out
}

// ── The interrupt character ──────────────────────────────────────────
/// Whether the character is an ASCII letter.
pub open spec fn is_letter(c: char) -> bool {
    'a' <= c <= 'z' || 'A' <= c <= 'Z'
}

/// Whether a text names a function key, `f1` to `f12` in any case.
pub open spec fn is_function_key(s: Seq<char>) -> bool {
    s.len() >= 2 && (s[0] == 'f' || s[0] == 'F') && s[1] != '+' && s[1] != '0' && match unsigned(
        s.skip(1),
        12,
    ) {
        Some(n) => n >= 1,
        None => false,
    }
}

/// Whether a text names the character that stops a boot loader: a single
/// ASCII character, a control key (`ctrl_c`, `^C`), a named key, a function
/// key, or a byte in decimal or hexadecimal.
pub open spec fn names_interrupt(s: Seq<char>) -> bool {
    let low = ascii_lowered(s);
    ||| s.len() == 1 && (s[0] as u32) < 0x80
    ||| s.len() == 6 && low.take(5) == "ctrl_"@ && is_letter(s[5])
    ||| s.len() == 2 && s[0] == '^' && is_letter(s[1])
    ||| low == "esc"@ || low == "escape"@ || low == "space"@ || low == "enter"@ || low == "tab"@
    ||| is_function_key(s)
    ||| unsigned(s, 255) is Some
    ||| (s.len() == 3 || s.len() == 4) && s[0] == '0' && (s[1] == 'x' || s[1] == 'X') && hex_value(
        s[2],
    ) is Some && (s.len() == 4 ==> hex_value(s[3]) is Some)
}

fn is_hex(c: char) -> (r: bool)
    ensures
        r == (hex_value(c) is Some),
{
    ('0' <= c && c <= '9') || ('a' <= c && c <= 'f') || ('A' <= c && c <= 'F')
}

fn letter(c: char) -> (r: bool)
    ensures
        r == is_letter(c),
{
    ('a' <= c && c <= 'z') || ('A' <= c && c <= 'Z')
}

/// Whether the text names an interrupt character.
pub fn valid_interrupt_char(s: &str) -> (r: bool)
    ensures
        r == names_interrupt(s@),
{
    let chars = to_chars(s);
    let n: usize = chars.len();
    if n == 1 && (chars[0] as u32) < 0x80 {
        return true;
    }
    let low = to_ascii_lower(s);
    if n == 6 && letter(chars[5]) {
        let lows = to_chars(low.as_str());
        let front = from_chars(&lows, 0, 5);
        assert(front@ =~= ascii_lowered(s@).take(5));
        if same(front.as_str(), "ctrl_") {
            return true;
        }
    }
    if n == 2 && chars[0] == '^' && letter(chars[1]) {
        return true;
    }
    let l = low.as_str();
    if same(l, "esc") || same(l, "escape") || same(l, "space") || same(l, "enter") || same(
        l,
        "tab",
    ) {
        return true;
    }
    if n >= 2 && (chars[0] == 'f' || chars[0] == 'F') && chars[1] != '+' && chars[1] != '0' {
        let digits = from_chars(&chars, 1, n);
        assert(digits@ =~= s@.skip(1));
        match parse_unsigned(digits.as_str(), 12) {
            Some(k) => {
                if k >= 1 {
                    return true;
                }
            },
            None => {},
        }
    }
    if parse_unsigned(s, 255).is_some() {
        return true;
    }
    (n == 3 || n == 4) && chars[0] == '0' && (chars[1] == 'x' || chars[1] == 'X') && is_hex(
        chars[2],
    ) && (n == 3 || is_hex(chars[3]))
}

// ── Literals of answers ──────────────────────────────────────────────
/// What `regex::Regex::new` says of a pattern that it does not accept, by the
/// text of its error; nothing where it accepts the pattern.
pub uninterp spec fn regex_complaint(pattern: Seq<char>) -> Option<Seq<char>>;

/// `regex::Regex::new` with its error as text. What it says depends on the
/// pattern alone.
#[verifier::external_body]
fn check_regex(pattern: &str) -> (r: Option<String>)
    ensures
        crate::text::opt_text(r) == regex_complaint(pattern@),
{
    match regex::Regex::new(pattern) {
        Ok(_) => None,
        Err(e) => Some(e.to_string()),
    }
}

/// The message about an answer of the wrong kind.
pub open spec fn invalid_answer(key: Seq<char>, kind: Seq<char>, v: Seq<char>) -> Seq<char> {
    key + ": invalid "@ + kind + ": "@ + v
}

/// The message about an answer of the wrong kind.
pub fn invalid_text(key: &str, kind: &str, v: &str) -> (r: String)
    ensures
        r@ == invalid_answer(key@, kind@, v@),
{
    let mut e = owned(key);
    e.append(": invalid ");
    e.append(kind);
    e.append(": ");
    e.append(v);
    e
}

/// The message about a key that is not known.
pub open spec fn unknown_key(key: Seq<char>) -> Seq<char> {
    "unknown advanced key: "@ + key
}

/// The message about a key that is not known.
pub fn unknown_key_text(key: &str) -> (r: String)
    ensures
        r@ == unknown_key(key@),
{
    let mut e = owned("unknown advanced key: ");
    e.append(key);
    e
}

/// What an answer is written as: a literal, or nothing where it means that the
/// value is inherited; or why it cannot be taken.
pub type Literal = Result<Option<Seq<char>>, Seq<char>>;

/// A whole number of which zero means that it is inherited.
pub open spec fn guarded_literal(key: Seq<char>, kind: Seq<char>, v: Seq<char>) -> Literal {
    match unsigned(v, u64::MAX as nat) {
        Some(n) => if n == 0 {
            Ok(None)
        } else {
            Ok(Some(decimal(n)))
        },
        None => Err(invalid_answer(key, kind, v)),
    }
}

/// The time for which the power key is held: at least 3000 milliseconds.
pub open spec fn power_off_literal(key: Seq<char>, v: Seq<char>) -> Literal {
    match unsigned(v, u64::MAX as nat) {
        Some(n) => if n == 0 {
            Ok(None)
        } else {
            Ok(
                Some(
                    decimal(
                        if n < 3000 {
                            3000
                        } else {
                            n
                        },
                    ),
                ),
            )
        },
        None => Err(invalid_answer(key, "ms"@, v)),
    }
}

/// A threshold. Zero and less mean that it is inherited.
pub open spec fn threshold_literal(key: Seq<char>, v: Seq<char>) -> Literal {
    match real_value(v) {
        Some(x) => if x.sign == RealSign::NotPositive {
            Ok(None)
        } else {
            Ok(Some(x.text))
        },
        None => Err(invalid_answer(key, "threshold"@, v)),
    }
}

/// The truth value that a word spells.
pub open spec fn truth_of(v: Seq<char>) -> Option<bool> {
    let t = ascii_lowered(v);
    if t == "true"@ || t == "1"@ || t == "yes"@ || t == "on"@ {
        Some(true)
    } else if t == "false"@ || t == "0"@ || t == "no"@ || t == "off"@ {
        Some(false)
    } else {
        None
    }
}

/// A truth value.
pub open spec fn truth_literal(key: Seq<char>, v: Seq<char>) -> Literal {
    match truth_of(v) {
        Some(true) => Ok(Some("true"@)),
        Some(false) => Ok(Some("false"@)),
        None => Err(invalid_answer(key, "bool"@, v)),
    }
}

/// A pattern, given what was said of it.
pub open spec fn pattern_literal_of(key: Seq<char>, v: Seq<char>, complaint: Option<Seq<char>>) -> Literal {
    match complaint {
        Some(e) => Err(key + ": invalid regex: "@ + e),
        None => Ok(Some(quoted(v))),
    }
}

/// A list of keywords. An empty list means that it is inherited.
pub open spec fn keywords_literal(v: Seq<char>) -> Literal {
    if keywords(v).len() == 0 {
        Ok(None)
    } else {
        Ok(Some(array_literal(keywords(v), 0)))
    }
}

/// The keys whose answers are written as texts, whatever they hold.
pub open spec fn is_text_key(key: Seq<char>) -> bool {
    key == "target.login_pass"@ || key == "target.login_prompt"@ || key == "monitor.reference_log"@
        || key == "flash.full_image_cmd"@ || key == "flash.kernel_image_cmd"@ || key
        == "flash.loader_bin"@ || key == "control.dev_ctrl"@ || key == "loader"@ || key
        == "lock_dir"@
}

/// What a trimmed answer that is not empty is written as.
pub open spec fn typed_literal(key: Seq<char>, v: Seq<char>) -> Literal {
    if key == "serial.baudrate"@ {
        Ok(Some(scalar_literal(scalar_of(v))))
    } else if key == "serial.rfc2217"@ {
        truth_literal(key, v)
    } else if is_text_key(key) {
        Ok(Some(quoted(v)))
    } else if key == "uboot.interrupt_strategy"@ {
        if v == "flood"@ || v == "pattern"@ {
            Ok(Some(quoted(v)))
        } else {
            Err(
                key + ": unsupported value "@ + debug_quoted(v) + "; valid values: flood, pattern"@,
            )
        }
    } else if key == "uboot.pattern"@ {
        pattern_literal_of(key, v, regex_complaint(v))
    } else if key == "uboot.interrupt_char"@ {
        if names_interrupt(v) {
            Ok(Some(quoted(v)))
        } else {
            Err(key + ": invalid interrupt character: "@ + v)
        }
    } else if key == "relay.port"@ {
        guarded_literal(key, "port"@, v)
    } else if key == "relay.reset_ch"@ || key == "relay.download_ch"@ || key == "relay.power_ch"@ {
        guarded_literal(key, "channel"@, v)
    } else if key == "relay.reset_time_ms"@ {
        guarded_literal(key, "ms"@, v)
    } else if key == "relay.power_off_time_ms"@ {
        power_off_literal(key, v)
    } else if key == "monitor.hang_timeout"@ {
        guarded_literal(key, "seconds"@, v)
    } else if key == "monitor.hang_hysteresis"@ || key == "monitor.max_archived_logs"@ || key
        == "monitor.max_log_file_size"@ {
        guarded_literal(key, "count"@, v)
    } else if key == "monitor.learner_stage_threshold"@ || key
        == "monitor.learner_crash_threshold"@ {
        threshold_literal(key, v)
    } else if key == "monitor.crash_keywords"@ {
        keywords_literal(v)
    } else {
        Err(unknown_key(key))
    }
}

/// What an answer to an advanced key is written as.
pub open spec fn literal_of(key: Seq<char>, value: Seq<char>) -> Literal {
    if trimmed(value).len() == 0 {
        Ok(None)
    } else {
        typed_literal(key, trimmed(value))
    }
}

/// The meaning of the literal of an answer.
pub open spec fn literal_view(r: Result<Option<String>, String>) -> Literal {
    match r {
        Ok(Some(t)) => Ok(Some(t@)),
        Ok(None) => Ok(None),
        Err(e) => Err(e@),
    }
}

fn guarded(key: &str, kind: &str, v: &str) -> (r: Result<Option<String>, String>)
    ensures
        literal_view(r) == guarded_literal(key@, kind@, v@),
{
    match parse_unsigned(v, u64::MAX) {
        Some(n) => {
            if n == 0 {
                Ok(None)
            } else {
                Ok(Some(decimal_text(n)))
            }
        },
        None => Err(invalid_text(key, kind, v)),
    }
}

fn power_off(key: &str, v: &str) -> (r: Result<Option<String>, String>)
    ensures
        literal_view(r) == power_off_literal(key@, v@),
{
    match parse_unsigned(v, u64::MAX) {
        Some(n) => {
            if n == 0 {
                Ok(None)
            } else if n < 3000 {
                Ok(Some(decimal_text(3000)))
            } else {
                Ok(Some(decimal_text(n)))
            }
        },
        None => Err(invalid_text(key, "ms", v)),
    }
}

fn threshold(key: &str, v: &str) -> (r: Result<Option<String>, String>)
    ensures
        literal_view(r) == threshold_literal(key@, v@),
{
    match parse_real(v) {
        Some(x) => {
            if x.sign == RealSign::NotPositive {
                Ok(None)
            } else {
                Ok(Some(x.text))
            }
        },
        None => Err(invalid_text(key, "threshold", v)),
    }
}

/// The truth value that a word spells.
pub fn parse_truth(v: &str) -> (r: Option<bool>)
    ensures
        r == truth_of(v@),
{
    let low = to_ascii_lower(v);
    let t = low.as_str();
    if same(t, "true") || same(t, "1") || same(t, "yes") || same(t, "on") {
        Some(true)
    } else if same(t, "false") || same(t, "0") || same(t, "no") || same(t, "off") {
        Some(false)
    } else {
        None
    }
}

fn truth(key: &str, v: &str) -> (r: Result<Option<String>, String>)
    ensures
        literal_view(r) == truth_literal(key@, v@),
{
    match parse_truth(v) {
        Some(true) => Ok(Some(owned("true"))),
        Some(false) => Ok(Some(owned("false"))),
        None => Err(invalid_text(key, "bool", v)),
    }
}

/// What a pattern is written as, given what was said of it.
pub fn pattern_literal(key: &str, v: &str, complaint: Option<String>) -> (r: Result<
    Option<String>,
    String,
>)
    ensures
        literal_view(r) == pattern_literal_of(key@, v@, crate::text::opt_text(complaint)),
{
    match complaint {
        Some(e) => {
            let mut m = owned(key);
            m.append(": invalid regex: ");
            m.append(e.as_str());
            Err(m)
        },
        None => Ok(Some(json_string(v))),
    }
}

fn text_key(key: &str) -> (r: bool)
    ensures
        r == is_text_key(key@),
{
    same(key, "target.login_pass") || same(key, "target.login_prompt") || same(
        key,
        "monitor.reference_log",
    ) || same(key, "flash.full_image_cmd") || same(key, "flash.kernel_image_cmd") || same(
        key,
        "flash.loader_bin",
    ) || same(key, "control.dev_ctrl") || same(key, "loader") || same(key, "lock_dir")
}

fn typed(key: &str, v: &str) -> (r: Result<Option<String>, String>)
    ensures
        literal_view(r) == typed_literal(key@, v@),
{
    if same(key, "serial.baudrate") {
        match parse_number_or_string(v) {
            Ok(n) => Ok(Some(json_literal(&n))),
            Err(e) => Err(e),
        }
    } else if same(key, "serial.rfc2217") {
        truth(key, v)
    } else if text_key(key) {
        Ok(Some(json_string(v)))
    } else if same(key, "uboot.interrupt_strategy") {
        if same(v, "flood") || same(v, "pattern") {
            Ok(Some(json_string(v)))
        } else {
            let mut e = owned(key);
            e.append(": unsupported value ");
            e.append(debug_string(v).as_str());
            e.append("; valid values: flood, pattern");
            Err(e)
        }
    } else if same(key, "uboot.pattern") {
        pattern_literal(key, v, check_regex(v))
    } else if same(key, "uboot.interrupt_char") {
        if valid_interrupt_char(v) {
            Ok(Some(json_string(v)))
        } else {
            let mut e = owned(key);
            e.append(": invalid interrupt character: ");
            e.append(v);
            Err(e)
        }
    } else if same(key, "relay.port") {
        guarded(key, "port", v)
    } else if same(key, "relay.reset_ch") || same(key, "relay.download_ch") || same(
        key,
        "relay.power_ch",
    ) {
        guarded(key, "channel", v)
    } else if same(key, "relay.reset_time_ms") {
        guarded(key, "ms", v)
    } else if same(key, "relay.power_off_time_ms") {
        power_off(key, v)
    } else if same(key, "monitor.hang_timeout") {
        guarded(key, "seconds", v)
    } else if same(key, "monitor.hang_hysteresis") || same(key, "monitor.max_archived_logs")
        || same(key, "monitor.max_log_file_size") {
        guarded(key, "count", v)
    } else if same(key, "monitor.learner_stage_threshold") || same(
        key,
        "monitor.learner_crash_threshold",
    ) {
        threshold(key, v)
    } else if same(key, "monitor.crash_keywords") {
        let words = split_keywords(v);
        assert(texts(words@).len() == words@.len());
        if words.len() == 0 {
            Ok(None)
        } else {
            Ok(Some(pretty_array_literal(&words, 0)))
        }
    } else {
        Err(unknown_key_text(key))
    }
}

/// What an answer to an advanced key is written as: a JSON literal, or nothing
/// where the answer means that the value is inherited.
pub fn advanced_literal(key: &str, value: &str) -> (r: Result<Option<String>, String>)
    ensures
        literal_view(r) == literal_of(key@, value@),
{
    let v = trim(value);
    if v.is_empty() {
        return Ok(None);
    }
    typed(key, v)
}

/// An answer that is refused is refused with its key in the message, unless
/// the key itself is not known: then the message names it too.
pub proof fn lemma_refusal_names_key(key: Seq<char>, value: Seq<char>)
    requires
        literal_of(key, value) is Err,
    ensures
        ({
            let e = literal_of(key, value)->Err_0;
            e == unknown_key(key) || (e.len() >= key.len() && e.take(key.len() as int) == key)
        }),
{
    let v = trimmed(value);
    let e = literal_of(key, value)->Err_0;
    if e != unknown_key(key) {
        assert(e.take(key.len() as int) =~= key);
    }
}

/// The time for which the power key is held is never written below 3000.
pub proof fn lemma_power_off_at_least_3000(value: Seq<char>)
    ensures
        literal_of("relay.power_off_time_ms"@, value) matches Ok(Some(t)) ==> exists|n: nat|
            n >= 3000 && t == #[trigger] decimal(n),
{
    let key = "relay.power_off_time_ms"@;
    reveal_strlit("relay.power_off_time_ms");
    reveal_strlit("serial.baudrate");
    reveal_strlit("serial.rfc2217");
    reveal_strlit("target.login_pass");
    reveal_strlit("target.login_prompt");
    reveal_strlit("monitor.reference_log");
    reveal_strlit("flash.full_image_cmd");
    reveal_strlit("flash.kernel_image_cmd");
    reveal_strlit("flash.loader_bin");
    reveal_strlit("control.dev_ctrl");
    reveal_strlit("loader");
    reveal_strlit("lock_dir");
    reveal_strlit("uboot.interrupt_strategy");
    reveal_strlit("uboot.pattern");
    reveal_strlit("uboot.interrupt_char");
    reveal_strlit("relay.port");
    reveal_strlit("relay.reset_ch");
    reveal_strlit("relay.download_ch");
    reveal_strlit("relay.power_ch");
    reveal_strlit("relay.reset_time_ms");
    assert(key.len() == 23);
    let v = trimmed(value);
    if v.len() > 0 {
        assert(typed_literal(key, v) == power_off_literal(key, v));
    }
}

} // verus!

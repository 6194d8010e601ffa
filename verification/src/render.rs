//! Rendering a configuration as commented JSONC text.
//!
//! Every member line ends with a comma, so that blocks can be put next to each
//! other; comments behind the members of a block line up.
use crate::advanced::{
    array_literal, comment_view, json_literal, pretty_array_literal, scalar_literal, C_BAUDRATE,
    C_CRASH_KEYWORDS, C_DUT_DIR, C_DUT_NAME, C_HOST_IP, C_HOST_NAME, C_HOST_PASS, C_HOST_USER,
    C_LOCK_DIR, C_LOGIN_PROMPT, C_LOGIN_USER, C_PORT, C_POWER_CH, C_POWER_OFF, C_REFERENCE_LOG_DUT,
    C_RELAY_CH_ALIASES, C_RELAY_TYPE, C_RESET_TIME, C_RFC2217, C_UBOOT_CHAR,
};
use crate::config::{
    ConfigView, ControlView, DutView, FlashView, HostView, JsoncControl, JsoncDevHost, JsoncDut,
    JsoncFlash, JsoncMonitor, JsoncRelay, JsoncSerial, JsoncTarget, JsoncUboot, MonitorView,
    RelayView, SerialView, TargetJsoncConfig, TargetView, UbootView,
};
use crate::edit::max_indent;
use crate::jsonc::{json_string, quoted};
use crate::number::{decimal, decimal_text, RealSign};
use crate::text::{
    blank, byte_len, join, joined, lemma_texts_push, opt_text, or_empty, owned, spaces,
    text_or_empty, texts,
};
use vstd::prelude::*;

verus! {

/// The comment at the head of every rendered document, line by line.
pub const HEADER: [&'static str; 14] = [
    "// .target.jsonc — Embedded Debug Target Configuration (JSONC)",
    "// Copy to project root. // comments and trailing commas are valid.",
    "// Create/update via `dutabo init` — it preserves your comments.",
    "//",
    "// Structure: dev_hosts[] each NESTS its duts[]. A DUT inherits its parent",
    "// host's ip/user/pass — names are display-only; the host ip is the linking key.",
    "// Top-level sections (serial/target/uboot/relay/monitor/flash/control) are",
    "// GLOBAL fallbacks: a DUT value overrides; otherwise the global value wins.",
    "//   commented out = not set (built-in default)",
    r#"//   port 0 / "0"  = unset sentinel (validation error, as before)"#,
    r#"//   ""            = explicitly empty -> falls back to parent dev host ip"#,
    "//                    (relay.ip only — serial has no ip key at all)",
    "// Unknown keys are rejected at parse time (typos fail loudly).",
    "// The agent must NOT modify this file — read only. Edit via `dutabo init`.",
];

/// The comment that shows the top-level sections, line by line.
pub const GLOBAL_HINTS: [&'static str; 12] = [
    "  // Global fallbacks (optional) — apply to every DUT that does not override:",
    r#"  // "serial":  { "port": "<required>", "baudrate": "<required>", "rfc2217": false },"#,
    r#"  // "target":  { "login_user": "root", "login_prompt": "" },"#,
    r#"  // "uboot":   { "interrupt_char": "ctrl_c", "interrupt_strategy": "flood", "pattern": "Hit any key" },"#,
    r#"  // "relay":   { "type": "ch340", "reset_ch": 1, "power_off_time_ms": 3000 },"#,
    r#"  // "monitor": { "hang_timeout": 60, "max_archived_logs": 10, "crash_keywords": ["Kernel panic"] },"#,
    r#"  // "flash":   { "tool": "<vendor flash tool>", "upload_dir": "/tmp" },"#,
    r#"  // "control": { "dev_ctrl": "" },"#,
    r#"  // "loader":  "uboot",                    // "uboot" | "uefi" (uefi: not implemented yet)"#,
    r#"  // "reference_log": "",       // back-compat top-level key (overrides monitor.reference_log)"#,
    r#"  // "dut_dir": ".dut-serial",  // back-compat top-level key"#,
    r#"  // "lock_dir": "/tmp/sermcp/locks"   // top-level ONLY — never valid inside a dut"#,
];

/// The lines, each with its line break.
pub open spec fn line_block(lines: Seq<&'static str>, n: int) -> Seq<char>
    decreases n,
{
    if n <= 0 {
        Seq::empty()
    } else {
        line_block(lines, n - 1) + lines[n - 1]@ + seq!['\n']
    }
}

fn add_lines(out: &mut String, lines: &[&'static str])
    ensures
        final(out)@ == old(out)@ + line_block(lines@, lines@.len() as int),
{
    let ghost before = out@;
    let mut i: usize = 0;
    assert(out@ =~= before + line_block(lines@, 0));
    while i < lines.len()
        invariant
            i <= lines.len(),
            out@ == before + line_block(lines@, i as int),
        decreases lines.len() - i,
    {
        out.append(lines[i]);
        out.push('\n');
        assert(out@ =~= before + line_block(lines@, i + 1));
        i += 1;
    }
}

// ── Lines ────────────────────────────────────────────────────────────
/// One line of a section: a member, or a hint at a member in a comment.
#[derive(Debug, PartialEq)]
pub enum Line {
    Key(String, String, Option<&'static str>),
    Hint(String, Option<&'static str>),
}

/// The meaning of a [`Line`].
pub enum LineView {
    Key(Seq<char>, Seq<char>, Option<Seq<char>>),
    Hint(Seq<char>, Option<Seq<char>>),
}

impl View for Line {
    type V = LineView;

    open spec fn view(&self) -> LineView {
        match self {
            Line::Key(k, l, c) => LineView::Key(k@, l@, comment_view(*c)),
            Line::Hint(t, c) => LineView::Hint(t@, comment_view(*c)),
        }
    }
}

/// The meanings of some lines.
pub open spec fn lines_view(v: Seq<Line>) -> Seq<LineView> {
    Seq::new(v.len(), |i: int| v[i]@)
}

/// A text with spaces behind it, `width` characters wide at least.
pub open spec fn padded(s: Seq<char>, width: nat) -> Seq<char> {
    if s.len() < width {
        s + spaces((width - s.len()) as nat)
    } else {
        s
    }
}

/// The columns that are left of `n` behind an indent.
pub open spec fn columns_left(n: nat, indent: Seq<char>) -> nat {
    if byte_len(indent) >= n {
        0
    } else {
        (n - byte_len(indent)) as nat
    }
}

/// The line of a member.
pub open spec fn member_line(
    indent: Seq<char>,
    key: Seq<char>,
    literal: Seq<char>,
    comment: Option<Seq<char>>,
) -> Seq<char> {
    let base = indent + "\""@ + key + "\": "@ + literal + ","@;
    match comment {
        Some(c) => {
            let width = columns_left(44, indent);
            (if byte_len(base) >= width {
                base
            } else {
                padded(base, width)
            }) + " // "@ + c
        },
        None => base,
    }
}

/// The line of a hint.
pub open spec fn comment_line(indent: Seq<char>, text: Seq<char>, comment: Option<Seq<char>>) -> Seq<
    char,
> {
    match comment {
        Some(c) => {
            let width = columns_left(39, indent);
            indent + "// "@ + (if byte_len(text) >= width {
                text
            } else {
                padded(text, width)
            }) + " // "@ + c
        },
        None => indent + "// "@ + text,
    }
}

/// The meaning of an optional comment.
pub open spec fn ref_comment(o: Option<&str>) -> Option<Seq<char>> {
    match o {
        Some(s) => Some(s@),
        None => None,
    }
}

fn pad(s: &mut String, width: usize)
    ensures
        final(s)@ == padded(old(s)@, width as nat),
{
    let n: usize = s.as_str().unicode_len();
    if n < width {
        s.append(blank(width - n).as_str());
    }
}

fn left_of(n: usize, indent: &str) -> (r: usize)
    ensures
        r == columns_left(n as nat, indent@),
{
    let used: usize = indent.len();
    if used >= n {
        0
    } else {
        n - used
    }
}

/// The line of a member.
pub fn key_line(indent: &str, key: &str, literal: &str, comment: Option<&str>) -> (r: String)
    ensures
        r@ == member_line(indent@, key@, literal@, ref_comment(comment)),
{
    let mut base = owned(indent);
    base.append("\"");
    base.append(key);
    base.append("\": ");
    base.append(literal);
    base.append(",");
    match comment {
        Some(c) => {
            let width: usize = left_of(44, indent);
            if base.as_str().len() < width {
                pad(&mut base, width);
            }
            base.append(" // ");
            base.append(c);
            base
        },
        None => base,
    }
}

/// The line of a hint.
pub fn hint_line(indent: &str, text: &str, comment: Option<&str>) -> (r: String)
    ensures
        r@ == comment_line(indent@, text@, ref_comment(comment)),
{
    let mut out = owned(indent);
    out.append("// ");
    match comment {
        Some(c) => {
            let width: usize = left_of(39, indent);
            let mut t = owned(text);
            if text.len() < width {
                pad(&mut t, width);
            }
            out.append(t.as_str());
            out.append(" // ");
            out.append(c);
            out
        },
        None => {
            out.append(text);
            out
        },
    }
}

/// One line of a section at an indent.
pub open spec fn section_line(l: LineView, indent: nat) -> Seq<char> {
    match l {
        LineView::Key(k, v, c) => member_line(spaces(indent), k, v, c),
        LineView::Hint(t, c) => comment_line(spaces(indent), t, c),
    }
}

/// The first `n` lines of a section, each with its line break.
pub open spec fn section_body(lines: Seq<LineView>, n: int, indent: nat) -> Seq<char>
    decreases n,
{
    if n <= 0 {
        Seq::empty()
    } else {
        section_body(lines, n - 1, indent) + section_line(lines[n - 1], indent) + seq!['\n']
    }
}

/// A section: its name, its lines between braces, and a comma.
pub open spec fn section_block(name: Seq<char>, lines: Seq<LineView>, indent: nat) -> Seq<char> {
    spaces(indent) + "\""@ + name + "\": {\n"@ + section_body(lines, lines.len() as int, indent + 2)
        + spaces(indent) + "},"@
}

/// A section: its name, its lines between braces, and a comma.
pub fn render_section_block(name: &str, lines: &Vec<Line>, indent: usize) -> (r: String)
    requires
        indent <= max_indent() + 6,
    ensures
        r@ == section_block(name@, lines_view(lines@), indent as nat),
{
    let i = blank(indent);
    let i2 = blank(indent + 2);
    let mut out = blank(indent);
    out.append("\"");
    out.append(name);
    out.append("\": {\n");
    let ghost head = out@;
    let ghost lv = lines_view(lines@);
    let mut k: usize = 0;
    assert(out@ =~= head + section_body(lv, 0, (indent + 2) as nat));
    while k < lines.len()
        invariant
            k <= lines.len(),
            lv == lines_view(lines@),
            i2@ == spaces((indent + 2) as nat),
            out@ == head + section_body(lv, k as int, (indent + 2) as nat),
        decreases lines.len() - k,
    {
        assert(lv[k as int] == lines@[k as int]@);
        match &lines[k] {
            Line::Key(key, lit, c) => {
                out.append(key_line(i2.as_str(), key.as_str(), lit.as_str(), *c).as_str());
            },
            Line::Hint(t, c) => {
                out.append(hint_line(i2.as_str(), t.as_str(), *c).as_str());
            },
        }
        out.push('\n');
        assert(out@ =~= head + section_body(lv, k + 1, (indent + 2) as nat));
        k += 1;
    }
    out.append(i.as_str());
    out.append("},");
    assert(out@ =~= section_block(name@, lv, indent as nat));
    out
}

// ── Optional pieces ──────────────────────────────────────────────────
/// The piece, or nothing.
pub open spec fn opt_seq<A>(o: Option<A>) -> Seq<A> {
    match o {
        Some(x) => seq![x],
        None => Seq::empty(),
    }
}

/// The meaning of an optional line.
pub open spec fn opt_line(o: Option<Line>) -> Option<LineView> {
    match o {
        Some(l) => Some(l@),
        None => None,
    }
}

fn add_line(lines: &mut Vec<Line>, l: Option<Line>)
    ensures
        lines_view(final(lines)@) == lines_view(old(lines)@) + opt_seq(opt_line(l)),
{
    match l {
        Some(x) => {
            lines.push(x);
            assert(lines_view(lines@) =~= lines_view(old(lines)@) + seq![x@]);
        },
        None => {
            assert(lines_view(lines@) =~= lines_view(old(lines)@) + Seq::empty());
        },
    }
}

fn add_text(lines: &mut Vec<String>, l: Option<String>)
    ensures
        texts(final(lines)@) == texts(old(lines)@) + opt_seq(opt_text(l)),
{
    match l {
        Some(x) => {
            lines.push(x);
            assert(texts(lines@) =~= texts(old(lines)@) + seq![x@]);
        },
        None => {
            assert(texts(lines@) =~= texts(old(lines)@) + Seq::empty());
        },
    }
}

fn key(k: &str, literal: String, comment: Option<&'static str>) -> (r: Option<Line>)
    ensures
        opt_line(r) == Some(LineView::Key(k@, literal@, comment_view(comment))),
{
    Some(Line::Key(owned(k), literal, comment))
}

fn hint(t: &str, comment: Option<&'static str>) -> (r: Option<Line>)
    ensures
        opt_line(r) == Some(LineView::Hint(t@, comment_view(comment))),
{
    Some(Line::Hint(owned(t), comment))
}

/// The line of a text member that is set.
pub open spec fn text_line(k: Seq<char>, o: Option<Seq<char>>, comment: Option<Seq<char>>) -> Option<
    LineView,
> {
    match o {
        Some(t) => Some(LineView::Key(k, quoted(t), comment)),
        None => None,
    }
}

fn text_member(k: &str, o: &Option<String>, comment: Option<&'static str>) -> (r: Option<Line>)
    ensures
        opt_line(r) == text_line(k@, opt_text(*o), comment_view(comment)),
{
    match o {
        Some(t) => key(k, json_string(t.as_str()), comment),
        None => None,
    }
}

/// The line of a number that is set.
pub open spec fn number_line(k: Seq<char>, o: Option<nat>, comment: Option<Seq<char>>) -> Option<
    LineView,
> {
    match o {
        Some(n) => Some(LineView::Key(k, decimal(n), comment)),
        None => None,
    }
}

/// The number, unless it is zero.
pub open spec fn not_zero(o: Option<nat>) -> Option<nat> {
    if o == Some(0nat) {
        None
    } else {
        o
    }
}

/// A number of 8 bits as a number.
pub open spec fn nat8(o: Option<u8>) -> Option<nat> {
    match o {
        Some(n) => Some(n as nat),
        None => None,
    }
}

/// A number of 16 bits as a number.
pub open spec fn nat16(o: Option<u16>) -> Option<nat> {
    match o {
        Some(n) => Some(n as nat),
        None => None,
    }
}

/// A number of 64 bits as a number.
pub open spec fn nat64(o: Option<u64>) -> Option<nat> {
    match o {
        Some(n) => Some(n as nat),
        None => None,
    }
}

fn number_member(k: &str, o: Option<u64>, comment: Option<&'static str>) -> (r: Option<Line>)
    ensures
        opt_line(r) == number_line(k@, nat64(o), comment_view(comment)),
{
    match o {
        Some(n) => key(k, decimal_text(n), comment),
        None => None,
    }
}

fn channel_member(k: &str, o: Option<u8>, comment: Option<&'static str>) -> (r: Option<Line>)
    ensures
        opt_line(r) == number_line(k@, not_zero(nat8(o)), comment_view(comment)),
{
    match o {
        Some(n) => {
            if n > 0 {
                key(k, decimal_text(n as u64), comment)
            } else {
                None
            }
        },
        None => None,
    }
}

fn time_member(k: &str, o: Option<u64>, comment: Option<&'static str>) -> (r: Option<Line>)
    ensures
        opt_line(r) == number_line(k@, not_zero(nat64(o)), comment_view(comment)),
{
    match o {
        Some(n) => {
            if n > 0 {
                key(k, decimal_text(n), comment)
            } else {
                None
            }
        },
        None => None,
    }
}

// ── Sections ─────────────────────────────────────────────────────────
/// The lines of a serial section. Baud rate and protocol are hinted at where
/// they are not set.
pub open spec fn serial_lines_of(s: SerialView) -> Seq<LineView> {
    opt_seq(
        match s.port {
            Some(p) => Some(LineView::Key("port"@, scalar_literal(p), Some(C_PORT@))),
            None => None,
        },
    ) + opt_seq(
        match s.baudrate {
            Some(b) => Some(LineView::Key("baudrate"@, scalar_literal(b), Some(C_BAUDRATE@))),
            None => Some(LineView::Hint("\"baudrate\": 1500000"@, Some(C_BAUDRATE@))),
        },
    ) + opt_seq(
        match s.rfc2217 {
            Some(true) => Some(LineView::Key("rfc2217"@, "true"@, Some(C_RFC2217@))),
            Some(false) => Some(LineView::Key("rfc2217"@, "false"@, Some(C_RFC2217@))),
            None => Some(LineView::Hint("\"rfc2217\": false"@, Some(C_RFC2217@))),
        },
    )
}

/// The lines of a serial section.
pub fn serial_lines(serial: &JsoncSerial) -> (r: Vec<Line>)
    ensures
        lines_view(r@) == serial_lines_of(serial@),
{
    let mut lines: Vec<Line> = Vec::new();
    assert(lines_view(lines@) =~= Seq::empty());
    add_line(
        &mut lines,
        match &serial.port {
            Some(p) => key("port", json_literal(p), Some(C_PORT)),
            None => None,
        },
    );
    add_line(
        &mut lines,
        match &serial.baudrate {
            Some(b) => key("baudrate", json_literal(b), Some(C_BAUDRATE)),
            None => hint("\"baudrate\": 1500000", Some(C_BAUDRATE)),
        },
    );
    add_line(
        &mut lines,
        match serial.rfc2217 {
            Some(true) => key("rfc2217", owned("true"), Some(C_RFC2217)),
            Some(false) => key("rfc2217", owned("false"), Some(C_RFC2217)),
            None => hint("\"rfc2217\": false", Some(C_RFC2217)),
        },
    );
    assert(lines_view(lines@) =~= serial_lines_of(serial@));
    lines
}

/// The lines of a target section. User and password are always there; the
/// prompt is hinted at where it is not set.
pub open spec fn target_lines_of(t: TargetView) -> Seq<LineView> {
    opt_seq(
        Some(LineView::Key("login_user"@, quoted(or_empty(t.login_user)), Some(C_LOGIN_USER@))),
    ) + opt_seq(Some(LineView::Key("login_pass"@, quoted(or_empty(t.login_pass)), None))) + opt_seq(
        match t.login_prompt {
            Some(p) => Some(LineView::Key("login_prompt"@, quoted(p), Some(C_LOGIN_PROMPT@))),
            None => Some(LineView::Hint("\"login_prompt\": \"\""@, Some(C_LOGIN_PROMPT@))),
        },
    )
}

/// The lines of a target section.
pub fn target_lines(target: &JsoncTarget) -> (r: Vec<Line>)
    ensures
        lines_view(r@) == target_lines_of(target@),
{
    let mut lines: Vec<Line> = Vec::new();
    assert(lines_view(lines@) =~= Seq::empty());
    add_line(
        &mut lines,
        key(
            "login_user",
            json_string(text_or_empty(&target.login_user).as_str()),
            Some(C_LOGIN_USER),
        ),
    );
    add_line(
        &mut lines,
        key("login_pass", json_string(text_or_empty(&target.login_pass).as_str()), None),
    );
    add_line(
        &mut lines,
        match &target.login_prompt {
            Some(p) => key("login_prompt", json_string(p.as_str()), Some(C_LOGIN_PROMPT)),
            None => hint("\"login_prompt\": \"\"", Some(C_LOGIN_PROMPT)),
        },
    );
    assert(lines_view(lines@) =~= target_lines_of(target@));
    lines
}

/// The lines of a loader section: what is set.
pub open spec fn uboot_lines_of(u: UbootView) -> Seq<LineView> {
    opt_seq(text_line("interrupt_char"@, u.interrupt_char, Some(C_UBOOT_CHAR@))) + opt_seq(
        text_line("interrupt_strategy"@, u.interrupt_strategy, None),
    ) + opt_seq(text_line("pattern"@, u.pattern, None))
}

/// The lines of a loader section.
pub fn uboot_lines(uboot: &JsoncUboot) -> (r: Vec<Line>)
    ensures
        lines_view(r@) == uboot_lines_of(uboot@),
{
    let mut lines: Vec<Line> = Vec::new();
    assert(lines_view(lines@) =~= Seq::empty());
    add_line(&mut lines, text_member("interrupt_char", &uboot.interrupt_char, Some(C_UBOOT_CHAR)));
    add_line(&mut lines, text_member("interrupt_strategy", &uboot.interrupt_strategy, None));
    add_line(&mut lines, text_member("pattern", &uboot.pattern, None));
    assert(lines_view(lines@) =~= uboot_lines_of(uboot@));
    lines
}

/// The lines of a relay section: what is set and not zero.
pub open spec fn relay_lines_of(r: RelayView) -> Seq<LineView> {
    opt_seq(text_line("type"@, r.relay_type, Some(C_RELAY_TYPE@))) + opt_seq(
        number_line("port"@, nat16(r.port), None),
    ) + opt_seq(text_line("ip"@, r.ip, None)) + opt_seq(
        number_line("reset_ch"@, not_zero(nat8(r.reset_ch)), Some(C_RELAY_CH_ALIASES@)),
    ) + opt_seq(number_line("download_ch"@, not_zero(nat8(r.download_ch)), None)) + opt_seq(
        number_line("power_ch"@, not_zero(nat8(r.power_ch)), Some(C_POWER_CH@)),
    ) + opt_seq(
        number_line("reset_time_ms"@, not_zero(nat64(r.reset_time_ms)), Some(C_RESET_TIME@)),
    ) + opt_seq(
        number_line("power_off_time_ms"@, not_zero(nat64(r.power_off_time_ms)), Some(C_POWER_OFF@)),
    )
}

/// The lines of a relay section.
pub fn relay_lines(relay: &JsoncRelay) -> (r: Vec<Line>)
    ensures
        lines_view(r@) == relay_lines_of(relay@),
{
    let mut lines: Vec<Line> = Vec::new();
    assert(lines_view(lines@) =~= Seq::empty());
    add_line(&mut lines, text_member("type", &relay.relay_type, Some(C_RELAY_TYPE)));
    let port = match relay.port {
        Some(p) => Some(p as u64),
        None => None,
    };
    add_line(&mut lines, number_member("port", port, None));
    add_line(&mut lines, text_member("ip", &relay.ip, None));
    add_line(&mut lines, channel_member("reset_ch", relay.reset_ch, Some(C_RELAY_CH_ALIASES)));
    add_line(&mut lines, channel_member("download_ch", relay.download_ch, None));
    add_line(&mut lines, channel_member("power_ch", relay.power_ch, Some(C_POWER_CH)));
    add_line(&mut lines, time_member("reset_time_ms", relay.reset_time_ms, Some(C_RESET_TIME)));
    add_line(
        &mut lines,
        time_member("power_off_time_ms", relay.power_off_time_ms, Some(C_POWER_OFF)),
    );
    assert(lines_view(lines@) =~= relay_lines_of(relay@));
    lines
}

/// The line of a threshold that is set and positive.
pub open spec fn threshold_line(k: Seq<char>, o: Option<crate::number::RealView>) -> Option<LineView> {
    match o {
        Some(x) => if x.sign == RealSign::Positive {
            Some(LineView::Key(k, x.text, None))
        } else {
            None
        },
        None => None,
    }
}

fn threshold_member(k: &str, o: &Option<crate::number::Real>) -> (r: Option<Line>)
    ensures
        opt_line(r) == threshold_line(k@, crate::config::opt_real(*o)),
{
    match o {
        Some(x) => {
            if x.sign == RealSign::Positive {
                key(k, owned(x.text.as_str()), None)
            } else {
                None
            }
        },
        None => None,
    }
}

/// The lines of a monitor section: what is set.
pub open spec fn monitor_lines_of(m: MonitorView) -> Seq<LineView> {
    opt_seq(number_line("hang_timeout"@, nat64(m.hang_timeout), None)) + opt_seq(
        number_line("hang_hysteresis"@, nat64(m.hang_hysteresis), None),
    ) + opt_seq(number_line("max_archived_logs"@, nat64(m.max_archived_logs), None)) + opt_seq(
        number_line("max_log_file_size"@, nat64(m.max_log_file_size), None),
    ) + opt_seq(text_line("reference_log"@, m.reference_log, None)) + opt_seq(
        threshold_line("learner_stage_threshold"@, m.learner_stage_threshold),
    ) + opt_seq(threshold_line("learner_crash_threshold"@, m.learner_crash_threshold)) + opt_seq(
        match m.crash_keywords {
            Some(k) => Some(
                LineView::Key("crash_keywords"@, array_literal(k, 0), Some(C_CRASH_KEYWORDS@)),
            ),
            None => None,
        },
    )
}

/// The lines of a monitor section.
pub fn monitor_lines(monitor: &JsoncMonitor) -> (r: Vec<Line>)
    ensures
        lines_view(r@) == monitor_lines_of(monitor@),
{
    let mut lines: Vec<Line> = Vec::new();
    assert(lines_view(lines@) =~= Seq::empty());
    add_line(&mut lines, number_member("hang_timeout", monitor.hang_timeout, None));
    add_line(&mut lines, number_member("hang_hysteresis", monitor.hang_hysteresis, None));
    add_line(&mut lines, number_member("max_archived_logs", monitor.max_archived_logs, None));
    add_line(&mut lines, number_member("max_log_file_size", monitor.max_log_file_size, None));
    add_line(&mut lines, text_member("reference_log", &monitor.reference_log, None));
    add_line(
        &mut lines,
        threshold_member("learner_stage_threshold", &monitor.learner_stage_threshold),
    );
    add_line(
        &mut lines,
        threshold_member("learner_crash_threshold", &monitor.learner_crash_threshold),
    );
    add_line(
        &mut lines,
        match &monitor.crash_keywords {
            Some(k) => key("crash_keywords", pretty_array_literal(k, 0), Some(C_CRASH_KEYWORDS)),
            None => None,
        },
    );
    assert(lines_view(lines@) =~= monitor_lines_of(monitor@));
    lines
}

/// The lines of a flash section: the commands that are set.
pub open spec fn flash_lines_of(f: FlashView) -> Seq<LineView> {
    opt_seq(text_line("full_image_cmd"@, f.full_image_cmd, None)) + opt_seq(
        text_line("kernel_image_cmd"@, f.kernel_image_cmd, None),
    ) + opt_seq(text_line("loader_bin"@, f.loader_bin, None))
}

/// The lines of a flash section.
pub fn flash_lines(flash: &JsoncFlash) -> (r: Vec<Line>)
    ensures
        lines_view(r@) == flash_lines_of(flash@),
{
    let mut lines: Vec<Line> = Vec::new();
    assert(lines_view(lines@) =~= Seq::empty());
    add_line(&mut lines, text_member("full_image_cmd", &flash.full_image_cmd, None));
    add_line(&mut lines, text_member("kernel_image_cmd", &flash.kernel_image_cmd, None));
    add_line(&mut lines, text_member("loader_bin", &flash.loader_bin, None));
    assert(lines_view(lines@) =~= flash_lines_of(flash@));
    lines
}

/// The lines of a control section.
pub open spec fn control_lines_of(c: ControlView) -> Seq<LineView> {
    opt_seq(text_line("dev_ctrl"@, c.dev_ctrl, None))
}

/// The lines of a control section.
pub fn control_lines(control: &JsoncControl) -> (r: Vec<Line>)
    ensures
        lines_view(r@) == control_lines_of(control@),
{
    let mut lines: Vec<Line> = Vec::new();
    assert(lines_view(lines@) =~= Seq::empty());
    add_line(&mut lines, text_member("dev_ctrl", &control.dev_ctrl, None));
    assert(lines_view(lines@) =~= control_lines_of(control@));
    lines
}

/// The block of a serial section that is set.
pub open spec fn serial_block(o: Option<SerialView>, indent: nat) -> Option<Seq<char>> {
    match o {
        Some(x) => Some(section_block("serial"@, serial_lines_of(x), indent)),
        None => None,
    }
}

fn serial_text(o: &Option<JsoncSerial>, indent: usize) -> (r: Option<String>)
    requires
        indent <= max_indent() + 6,
    ensures
        opt_text(r) == serial_block(
            match *o {
                Some(x) => Some(x@),
                None => None,
            },
            indent as nat,
        ),
{
    match o {
        Some(x) => Some(render_section_block("serial", &serial_lines(x), indent)),
        None => None,
    }
}

/// The block of a target section that is set.
pub open spec fn target_block(o: Option<TargetView>, indent: nat) -> Option<Seq<char>> {
    match o {
        Some(x) => Some(section_block("target"@, target_lines_of(x), indent)),
        None => None,
    }
}

fn target_text(o: &Option<JsoncTarget>, indent: usize) -> (r: Option<String>)
    requires
        indent <= max_indent() + 6,
    ensures
        opt_text(r) == target_block(
            match *o {
                Some(x) => Some(x@),
                None => None,
            },
            indent as nat,
        ),
{
    match o {
        Some(x) => Some(render_section_block("target", &target_lines(x), indent)),
        None => None,
    }
}

/// The block of a uboot section that is set.
pub open spec fn uboot_block(o: Option<UbootView>, indent: nat) -> Option<Seq<char>> {
    match o {
        Some(x) => Some(section_block("uboot"@, uboot_lines_of(x), indent)),
        None => None,
    }
}

fn uboot_text(o: &Option<JsoncUboot>, indent: usize) -> (r: Option<String>)
    requires
        indent <= max_indent() + 6,
    ensures
        opt_text(r) == uboot_block(
            match *o {
                Some(x) => Some(x@),
                None => None,
            },
            indent as nat,
        ),
{
    match o {
        Some(x) => Some(render_section_block("uboot", &uboot_lines(x), indent)),
        None => None,
    }
}

/// The block of a relay section that is set.
pub open spec fn relay_block(o: Option<RelayView>, indent: nat) -> Option<Seq<char>> {
    match o {
        Some(x) => Some(section_block("relay"@, relay_lines_of(x), indent)),
        None => None,
    }
}

fn relay_text(o: &Option<JsoncRelay>, indent: usize) -> (r: Option<String>)
    requires
        indent <= max_indent() + 6,
    ensures
        opt_text(r) == relay_block(
            match *o {
                Some(x) => Some(x@),
                None => None,
            },
            indent as nat,
        ),
{
    match o {
        Some(x) => Some(render_section_block("relay", &relay_lines(x), indent)),
        None => None,
    }
}

/// The block of a monitor section that is set.
pub open spec fn monitor_block(o: Option<MonitorView>, indent: nat) -> Option<Seq<char>> {
    match o {
        Some(x) => Some(section_block("monitor"@, monitor_lines_of(x), indent)),
        None => None,
    }
}

fn monitor_text(o: &Option<JsoncMonitor>, indent: usize) -> (r: Option<String>)
    requires
        indent <= max_indent() + 6,
    ensures
        opt_text(r) == monitor_block(
            match *o {
                Some(x) => Some(x@),
                None => None,
            },
            indent as nat,
        ),
{
    match o {
        Some(x) => Some(render_section_block("monitor", &monitor_lines(x), indent)),
        None => None,
    }
}

/// The block of a flash section that is set.
pub open spec fn flash_block(o: Option<FlashView>, indent: nat) -> Option<Seq<char>> {
    match o {
        Some(x) => Some(section_block("flash"@, flash_lines_of(x), indent)),
        None => None,
    }
}

fn flash_text(o: &Option<JsoncFlash>, indent: usize) -> (r: Option<String>)
    requires
        indent <= max_indent() + 6,
    ensures
        opt_text(r) == flash_block(
            match *o {
                Some(x) => Some(x@),
                None => None,
            },
            indent as nat,
        ),
{
    match o {
        Some(x) => Some(render_section_block("flash", &flash_lines(x), indent)),
        None => None,
    }
}

/// The block of a control section that is set.
pub open spec fn control_block(o: Option<ControlView>, indent: nat) -> Option<Seq<char>> {
    match o {
        Some(x) => Some(section_block("control"@, control_lines_of(x), indent)),
        None => None,
    }
}

fn control_text(o: &Option<JsoncControl>, indent: usize) -> (r: Option<String>)
    requires
        indent <= max_indent() + 6,
    ensures
        opt_text(r) == control_block(
            match *o {
                Some(x) => Some(x@),
                None => None,
            },
            indent as nat,
        ),
{
    match o {
        Some(x) => Some(render_section_block("control", &control_lines(x), indent)),
        None => None,
    }
}

/// The line of a text member that is set, at an indent.
pub open spec fn text_at(
    indent: nat,
    k: Seq<char>,
    o: Option<Seq<char>>,
    comment: Option<Seq<char>>,
) -> Option<Seq<char>> {
    match o {
        Some(t) => Some(member_line(spaces(indent), k, quoted(t), comment)),
        None => None,
    }
}

fn text_line_at(indent: &str, k: &str, o: &Option<String>, comment: Option<&str>) -> (r: Option<
    String,
>)
    ensures
        forall|n: nat|
            indent@ == #[trigger] spaces(n) ==> opt_text(r) == text_at(
                n,
                k@,
                opt_text(*o),
                ref_comment(comment),
            ),
{
    match o {
        Some(t) => Some(key_line(indent, k, json_string(t.as_str()).as_str(), comment)),
        None => None,
    }
}

// ── Boards and hosts ─────────────────────────────────────────────────
/// The lines of a board at an indent.
pub open spec fn dut_lines(d: DutView, indent: nat) -> Seq<Seq<char>> {
    let i2 = indent + 2;
    opt_seq(Some(spaces(indent) + "{"@)) + opt_seq(
        text_at(i2, "dut_name"@, Some(d.dut_name), Some(C_DUT_NAME@)),
    ) + opt_seq(serial_block(d.serial, i2)) + opt_seq(target_block(d.target, i2)) + opt_seq(
        uboot_block(d.uboot, i2),
    ) + opt_seq(relay_block(d.relay, i2)) + opt_seq(monitor_block(d.monitor, i2)) + opt_seq(
        flash_block(d.flash, i2),
    ) + opt_seq(control_block(d.control, i2)) + opt_seq(text_at(i2, "loader"@, d.loader, None))
        + opt_seq(
        text_at(i2, "reference_log"@, d.reference_log, Some(C_REFERENCE_LOG_DUT@)),
    ) + opt_seq(text_at(i2, "dut_dir"@, d.dut_dir, Some(C_DUT_DIR@))) + opt_seq(
        Some(spaces(indent) + "},"@),
    )
}

/// The block of a board at an indent.
pub open spec fn dut_block(d: DutView, indent: nat) -> Seq<char> {
    joined(dut_lines(d, indent), "\n"@)
}

/// Renders a board at an indent.
pub fn render_dut_block(dut: &JsoncDut, indent: usize) -> (r: String)
    requires
        indent <= max_indent() + 4,
    ensures
        r@ == dut_block(dut@, indent as nat),
{
    let i2 = blank(indent + 2);
    let i = i2.as_str();
    let mut lines: Vec<String> = Vec::new();
    assert(texts(lines@) =~= Seq::empty());
    let mut open = blank(indent);
    open.append("{");
    add_text(&mut lines, Some(open));
    let name = Some(owned(dut.dut_name.as_str()));
    add_text(&mut lines, text_line_at(i, "dut_name", &name, Some(C_DUT_NAME)));
    add_text(&mut lines, serial_text(&dut.serial, indent + 2));
    add_text(&mut lines, target_text(&dut.target, indent + 2));
    add_text(&mut lines, uboot_text(&dut.uboot, indent + 2));
    add_text(&mut lines, relay_text(&dut.relay, indent + 2));
    add_text(&mut lines, monitor_text(&dut.monitor, indent + 2));
    add_text(&mut lines, flash_text(&dut.flash, indent + 2));
    add_text(&mut lines, control_text(&dut.control, indent + 2));
    add_text(&mut lines, text_line_at(i, "loader", &dut.loader, None));
    add_text(
        &mut lines,
        text_line_at(i, "reference_log", &dut.reference_log, Some(C_REFERENCE_LOG_DUT)),
    );
    add_text(&mut lines, text_line_at(i, "dut_dir", &dut.dut_dir, Some(C_DUT_DIR)));
    let mut close = blank(indent);
    close.append("},");
    add_text(&mut lines, Some(close));
    assert(texts(lines@) =~= dut_lines(dut@, indent as nat));
    join(&lines, "\n")
}

/// The blocks of the boards before number `n`.
pub open spec fn dut_blocks(duts: Seq<DutView>, n: int, indent: nat) -> Seq<Seq<char>>
    decreases n,
{
    if n <= 0 {
        Seq::empty()
    } else {
        dut_blocks(duts, n - 1, indent).push(dut_block(duts[n - 1], indent))
    }
}

/// The lines of a host before its boards. The display name is hinted at where
/// there is none.
pub open spec fn host_head(h: HostView, indent: nat) -> Seq<Seq<char>> {
    let i2 = indent + 2;
    opt_seq(Some(spaces(indent) + "{"@)) + opt_seq(
        text_at(i2, "ip"@, Some(or_empty(h.ip)), Some(C_HOST_IP@)),
    ) + opt_seq(text_at(i2, "user"@, Some(or_empty(h.user)), Some(C_HOST_USER@))) + opt_seq(
        text_at(i2, "pass"@, Some(or_empty(h.pass)), Some(C_HOST_PASS@)),
    ) + opt_seq(
        if or_empty(h.host_name).len() > 0 {
            text_at(i2, "host_name"@, h.host_name, Some(C_HOST_NAME@))
        } else {
            Some(comment_line(spaces(i2), "\"host_name\": \"\""@, Some(C_HOST_NAME@)))
        },
    ) + opt_seq(Some(spaces(i2) + "\"duts\": ["@))
}

/// The lines of a host at an indent.
pub open spec fn host_lines(h: HostView, indent: nat) -> Seq<Seq<char>> {
    host_head(h, indent) + dut_blocks(h.duts, h.duts.len() as int, indent + 4) + opt_seq(
        Some(spaces(indent + 2) + "]"@),
    ) + opt_seq(Some(spaces(indent) + "},"@))
}

/// The block of a host at an indent.
pub open spec fn host_block(h: HostView, indent: nat) -> Seq<char> {
    joined(host_lines(h, indent), "\n"@)
}

/// Renders a host at an indent.
pub fn render_host_block(host: &JsoncDevHost, indent: usize) -> (r: String)
    requires
        indent <= max_indent(),
    ensures
        r@ == host_block(host@, indent as nat),
{
    let i2 = blank(indent + 2);
    let i = i2.as_str();
    let mut lines: Vec<String> = Vec::new();
    assert(texts(lines@) =~= Seq::empty());
    let mut open = blank(indent);
    open.append("{");
    add_text(&mut lines, Some(open));
    let ip = Some(text_or_empty(&host.ip));
    add_text(&mut lines, text_line_at(i, "ip", &ip, Some(C_HOST_IP)));
    let user = Some(text_or_empty(&host.user));
    add_text(&mut lines, text_line_at(i, "user", &user, Some(C_HOST_USER)));
    let pass = Some(text_or_empty(&host.pass));
    add_text(&mut lines, text_line_at(i, "pass", &pass, Some(C_HOST_PASS)));
    let named = match &host.host_name {
        Some(n) => !n.as_str().is_empty(),
        None => false,
    };
    if named {
        add_text(&mut lines, text_line_at(i, "host_name", &host.host_name, Some(C_HOST_NAME)));
    } else {
        add_text(&mut lines, Some(hint_line(i, "\"host_name\": \"\"", Some(C_HOST_NAME))));
    }
    let mut duts = blank(indent + 2);
    duts.append("\"duts\": [");
    add_text(&mut lines, Some(duts));
    let ghost head = host_head(host@, indent as nat);
    assert(texts(lines@) =~= head);
    let ghost dv = host@.duts;
    let mut k: usize = 0;
    assert(texts(lines@) =~= head + dut_blocks(dv, 0, (indent + 4) as nat));
    while k < host.duts.len()
        invariant
            k <= host.duts.len(),
            indent <= max_indent(),
            dv == host@.duts,
            texts(lines@) == head + dut_blocks(dv, k as int, (indent + 4) as nat),
        decreases host.duts.len() - k,
    {
        broadcast use lemma_texts_push;

        assert(dv[k as int] == host.duts@[k as int]@);
        lines.push(render_dut_block(&host.duts[k], indent + 4));
        assert(texts(lines@) =~= head + dut_blocks(dv, k + 1, (indent + 4) as nat));
        k += 1;
    }
    let mut end = blank(indent + 2);
    end.append("]");
    add_text(&mut lines, Some(end));
    let mut close = blank(indent);
    close.append("},");
    add_text(&mut lines, Some(close));
    assert(texts(lines@) =~= host_lines(host@, indent as nat));
    join(&lines, "\n")
}

// ── The whole document ───────────────────────────────────────────────
/// The top-level sections and keys that are set, without the lock directory.
pub open spec fn global_blocks(c: ConfigView) -> Seq<Seq<char>> {
    opt_seq(serial_block(c.serial, 2)) + opt_seq(target_block(c.target, 2)) + opt_seq(
        uboot_block(c.uboot, 2),
    ) + opt_seq(relay_block(c.relay, 2)) + opt_seq(monitor_block(c.monitor, 2)) + opt_seq(
        flash_block(c.flash, 2),
    ) + opt_seq(control_block(c.control, 2)) + opt_seq(text_at(2, "loader"@, c.loader, None))
        + opt_seq(
        with_break(text_at(2, "reference_log"@, c.reference_log, Some(C_REFERENCE_LOG_DUT@))),
    ) + opt_seq(with_break(text_at(2, "dut_dir"@, c.dut_dir, Some(C_DUT_DIR@))))
}

/// The line with its line break.
pub open spec fn with_break(o: Option<Seq<char>>) -> Option<Seq<char>> {
    match o {
        Some(t) => Some(t + seq!['\n']),
        None => None,
    }
}

fn end_line(o: Option<String>) -> (r: Option<String>)
    ensures
        opt_text(r) == with_break(opt_text(o)),
{
    match o {
        Some(mut t) => {
            t.push('\n');
            Some(t)
        },
        None => None,
    }
}

/// The top-level sections and keys that are set.
pub fn render_global_section_blocks(config: &TargetJsoncConfig) -> (r: Vec<String>)
    ensures
        texts(r@) == global_blocks(config@),
{
    let i2 = blank(2);
    let i = i2.as_str();
    let mut blocks: Vec<String> = Vec::new();
    assert(texts(blocks@) =~= Seq::empty());
    add_text(&mut blocks, serial_text(&config.serial, 2));
    add_text(&mut blocks, target_text(&config.target, 2));
    add_text(&mut blocks, uboot_text(&config.uboot, 2));
    add_text(&mut blocks, relay_text(&config.relay, 2));
    add_text(&mut blocks, monitor_text(&config.monitor, 2));
    add_text(&mut blocks, flash_text(&config.flash, 2));
    add_text(&mut blocks, control_text(&config.control, 2));
    add_text(&mut blocks, text_line_at(i, "loader", &config.loader, None));
    let log = text_line_at(i, "reference_log", &config.reference_log, Some(C_REFERENCE_LOG_DUT));
    add_text(&mut blocks, end_line(log));
    let dir = text_line_at(i, "dut_dir", &config.dut_dir, Some(C_DUT_DIR));
    add_text(&mut blocks, end_line(dir));
    assert(texts(blocks@) =~= global_blocks(config@));
    blocks
}

/// The blocks of the hosts before number `n`, each with its line break.
pub open spec fn host_text(hosts: Seq<HostView>, n: int) -> Seq<char>
    decreases n,
{
    if n <= 0 {
        Seq::empty()
    } else {
        host_text(hosts, n - 1) + host_block(hosts[n - 1], 4) + seq!['\n']
    }
}

/// The first `n` pieces, one behind the other.
pub open spec fn concat(parts: Seq<Seq<char>>, n: int) -> Seq<char>
    decreases n,
{
    if n <= 0 {
        Seq::empty()
    } else {
        concat(parts, n - 1) + parts[n - 1]
    }
}

/// The text of a configuration. The hints at the top-level sections come in
/// where they are asked for and none is set.
pub open spec fn config_document(c: ConfigView, with_global_hints: bool) -> Seq<char> {
    let blocks = global_blocks(c);
    let lock = match c.lock_dir {
        Some(l) => member_line(spaces(2), "lock_dir"@, quoted(l), Some(C_LOCK_DIR@)) + seq!['\n'],
        None => Seq::empty(),
    };
    let hints = if with_global_hints && blocks.len() == 0 && c.lock_dir is None {
        line_block(GLOBAL_HINTS@, 12)
    } else {
        Seq::empty()
    };
    line_block(HEADER@, 14) + "{\n"@ + "  \"dev_hosts\": [\n"@ + host_text(c.dev_hosts, c.dev_hosts.len() as int)
        + "  ],\n"@ + concat(blocks, blocks.len() as int) + lock + hints + "}\n"@
}

/// Renders a configuration.
pub fn render_jsonc(config: &TargetJsoncConfig, with_global_hints: bool) -> (r: String)
    ensures
        r@ == config_document(config@, with_global_hints),
{
    let header: [&'static str; 14] = HEADER;
    let mut out = String::new();
    add_lines(&mut out, header.as_slice());
    assert(out@ =~= line_block(HEADER@, 14));
    out.append("{\n");
    out.append("  \"dev_hosts\": [\n");
    let ghost head = out@;
    let ghost hv = config@.dev_hosts;
    let mut k: usize = 0;
    assert(out@ =~= head + host_text(hv, 0));
    while k < config.dev_hosts.len()
        invariant
            k <= config.dev_hosts.len(),
            hv == config@.dev_hosts,
            out@ == head + host_text(hv, k as int),
        decreases config.dev_hosts.len() - k,
    {
        assert(hv[k as int] == config.dev_hosts@[k as int]@);
        out.append(render_host_block(&config.dev_hosts[k], 4).as_str());
        out.push('\n');
        assert(out@ =~= head + host_text(hv, k + 1));
        k += 1;
    }
    out.append("  ],\n");
    let blocks = render_global_section_blocks(config);
    let ghost bv = texts(blocks@);
    let ghost upto = out@;
    let mut b: usize = 0;
    assert(out@ =~= upto + concat(bv, 0));
    while b < blocks.len()
        invariant
            b <= blocks.len(),
            bv == texts(blocks@),
            out@ == upto + concat(bv, b as int),
        decreases blocks.len() - b,
    {
        out.append(blocks[b].as_str());
        assert(out@ =~= upto + concat(bv, b + 1));
        b += 1;
    }
    let ghost before_lock = out@;
    let i2 = blank(2);
    match &config.lock_dir {
        Some(l) => {
            out.append(
                key_line(
                    i2.as_str(),
                    "lock_dir",
                    json_string(l.as_str()).as_str(),
                    Some(C_LOCK_DIR),
                ).as_str(),
            );
            out.push('\n');
        },
        None => {},
    }
    if with_global_hints && blocks.len() == 0 && config.lock_dir.is_none() {
        let hints: [&'static str; 12] = GLOBAL_HINTS;
        add_lines(&mut out, hints.as_slice());
    }
    out.append("}\n");
    assert(out@ =~= config_document(config@, with_global_hints));
    out
}

} // verus!

//! Every configuration that is written can be read again.
//!
//! The text of a configuration is taken apart into the pieces that it was put
//! together from: lines, sections, boards, hosts. Each piece is read as the
//! members or elements that it was written for, wherever it stands.
use crate::advanced::{
    array_lines, array_literal, scalar_literal, C_BAUDRATE, C_CRASH_KEYWORDS, C_DUT_DIR,
    C_DUT_NAME, C_HOST_IP, C_HOST_NAME, C_HOST_PASS, C_HOST_USER, C_LOCK_DIR, C_LOGIN_PROMPT,
    C_LOGIN_USER, C_PORT, C_POWER_CH, C_POWER_OFF, C_REFERENCE_LOG_DUT, C_RELAY_CH_ALIASES,
    C_RELAY_TYPE, C_RESET_TIME, C_RFC2217, C_UBOOT_CHAR,
};
use crate::config::{
    config_text, ConfigView, ControlView, DutView, FlashView, HostView, MonitorView, NumberView,
    RelayView, SerialView, TargetView, UbootView,
};
use crate::fixed_texts::{
    is_remark, lemma_baudrate_hint, lemma_c_baudrate, lemma_c_crash_keywords, lemma_c_dut_dir,
    lemma_c_dut_name, lemma_c_host_ip, lemma_c_host_name, lemma_c_host_pass, lemma_c_host_user,
    lemma_c_lock_dir, lemma_c_login_prompt, lemma_c_login_user, lemma_c_port, lemma_c_power_ch,
    lemma_c_power_off, lemma_c_reference_log_dut, lemma_c_relay_ch_aliases, lemma_c_relay_type,
    lemma_c_reset_time, lemma_c_rfc2217, lemma_c_uboot_char, lemma_config_names,
    lemma_control_names, lemma_dut_names, lemma_flash_names, lemma_global_hints, lemma_header,
    lemma_host_name_hint, lemma_host_names, lemma_login_prompt_hint, lemma_monitor_names,
    lemma_relay_names, lemma_rfc2217_hint, lemma_serial_names, lemma_target_names,
    lemma_uboot_names,
};
use crate::jsonc::{document, quoted, JsonView};
use crate::kept::{
    config_slots, config_spellable, control_json, control_slots, dut_slots, dut_spellable,
    duts_json, flash_json, flash_slots, host_slots, host_spellable, hosts_json, items_json,
    kept_config, lemma_config_object, monitor_json, monitor_slots, monitor_spellable, number_json,
    real_json, real_spellable, relay_json, relay_slots, scalar_json, serial_json, serial_slots,
    serial_spellable, shown_name, shown_real, spellable, target_json, target_slots, text_json,
    texts_json, truth_json, uboot_json, uboot_slots, whole_json,
};
use crate::number::{decimal, RealView};
use crate::pieces::{
    lemma_document, lemma_lists_concat, lemma_lists_element, lemma_lists_void, lemma_plain_body,
    lemma_reads_array, lemma_reads_array_open, lemma_reads_decimal, lemma_reads_number,
    lemma_reads_object, lemma_reads_object_open, lemma_reads_quoted, lemma_reads_truth,
    lemma_spells_concat, lemma_spells_member, lemma_spells_void, lemma_void_break,
    lemma_void_comment, lemma_void_concat, lemma_void_spaces, lists, member_text, plain, reads,
    spells, unbroken, void, Members,
};
use crate::render::{
    columns_left, comment_line, concat, config_document, control_block, control_lines_of,
    dut_block, dut_blocks, dut_lines, flash_block, flash_lines_of, global_blocks, host_block,
    host_head, host_lines, host_text, line_block, member_line, monitor_block, monitor_lines_of,
    nat16, nat64, nat8, not_zero, number_line, opt_seq, padded, relay_block, relay_lines_of,
    section_block, section_body, section_line, serial_block, serial_lines_of, target_block,
    target_lines_of, text_at, text_line, threshold_line, uboot_block, uboot_lines_of, with_break,
    LineView, GLOBAL_HINTS, HEADER,
};
use crate::slots::{filled, lemma_filled_push, slot_member, Slot};
use crate::text::{byte_len, joined, or_empty, spaces};
use vstd::prelude::*;

verus! {

// ── Lines ────────────────────────────────────────────────────────────
/// A comment that keeps to its line.
pub open spec fn quiet(c: Option<Seq<char>>) -> bool {
    c matches Some(t) ==> unbroken(t)
}

/// Spaces, then a comment to the end of the line.
proof fn lemma_void_remark(n: nat, x: Seq<char>)
    requires
        unbroken(x),
    ensures
        void(spaces(n) + seq!['/', '/'] + x + seq!['\n']),
{
    lemma_void_spaces(n);
    lemma_void_comment(x);
    lemma_void_concat(spaces(n), seq!['/', '/'] + x + seq!['\n']);
    assert(spaces(n) + seq!['/', '/'] + x + seq!['\n'] =~= spaces(n) + (seq!['/', '/'] + x + seq![
        '\n',
    ]));
}

/// The line of a member, without comment and line break.
proof fn lemma_bare_member(n: nat, key: Seq<char>, literal: Seq<char>, v: JsonView)
    requires
        plain(key),
        reads(literal, v),
    ensures
        spells(member_line(spaces(n), key, literal, None), seq![(key, v)]),
{
    reveal_strlit("\"");
    reveal_strlit("\": ");
    reveal_strlit(",");
    lemma_plain_body(key);
    lemma_spells_member(n, key, literal, v);
    assert(member_line(spaces(n), key, literal, None) =~= spaces(n) + member_text(key, literal)
        + seq![',']);
}

/// The line of a member is read as the member.
pub proof fn lemma_member_line(
    n: nat,
    key: Seq<char>,
    literal: Seq<char>,
    v: JsonView,
    comment: Option<Seq<char>>,
)
    requires
        plain(key),
        reads(literal, v),
        quiet(comment),
    ensures
        spells(member_line(spaces(n), key, literal, comment) + seq!['\n'], seq![(key, v)]),
{
    let base = member_line(spaces(n), key, literal, None);
    let line = member_line(spaces(n), key, literal, comment) + seq!['\n'];
    let one = seq![(key, v)];
    lemma_bare_member(n, key, literal, v);
    let tail = match comment {
        Some(c) => {
            reveal_strlit(" // ");
            let width = columns_left(44, spaces(n));
            let k: nat = if byte_len(base) >= width || base.len() >= width {
                0
            } else {
                (width - base.len()) as nat
            };
            let x = seq![' '] + c;
            lemma_void_remark(k + 1, x);
            let t = spaces(k + 1) + seq!['/', '/'] + x + seq!['\n'];
            assert(spaces(k + 1) =~= spaces(k) + seq![' ']);
            assert(line =~= base + t);
            t
        },
        None => {
            lemma_void_break();
            seq!['\n']
        },
    };
    lemma_spells_void(tail);
    lemma_spells_concat(base, one, tail, Seq::empty());
    assert(one + Seq::<(Seq<char>, JsonView)>::empty() =~= one);
}

proof fn lemma_comment_line(n: nat, text: Seq<char>, comment: Option<Seq<char>>)
    requires
        unbroken(text),
        quiet(comment),
    ensures
        void(comment_line(spaces(n), text, comment) + seq!['\n']),
{
    reveal_strlit("// ");
    reveal_strlit(" // ");
    let line = comment_line(spaces(n), text, comment) + seq!['\n'];
    let x = match comment {
        Some(c) => {
            let width = columns_left(39, spaces(n));
            let t = if byte_len(text) >= width {
                text
            } else {
                padded(text, width)
            };
            assert(unbroken(t));
            seq![' '] + t + seq![' ', '/', '/', ' '] + c
        },
        None => seq![' '] + text,
    };
    assert(unbroken(x));
    lemma_void_remark(n, x);
    assert(line =~= spaces(n) + seq!['/', '/'] + x + seq!['\n']);
}

// ── Sections ─────────────────────────────────────────────────────────
/// Whether a line writes what the slot holds.
spec fn fits(o: Option<LineView>, s: Slot) -> bool {
    match o {
        Some(LineView::Key(k, l, c)) => k == s.0 && plain(k) && quiet(c) && (s.1 matches Some(j)
            && reads(l, j)),
        Some(LineView::Hint(t, c)) => s.1 is None && unbroken(t) && quiet(c),
        None => s.1 is None,
    }
}

/// Whether the lines write what the slots hold.
spec fn writes(lines: Seq<LineView>, slots: Seq<Slot>, indent: nat) -> bool {
    spells(section_body(lines, lines.len() as int, indent), filled(slots))
}

proof fn lemma_body_prefix(lines: Seq<LineView>, l: LineView, n: int, indent: nat)
    requires
        0 <= n <= lines.len(),
    ensures
        section_body(lines.push(l), n, indent) == section_body(lines, n, indent),
    decreases n,
{
    if n > 0 {
        lemma_body_prefix(lines, l, n - 1, indent);
        assert(lines.push(l)[n - 1] == lines[n - 1]);
    }
}

proof fn lemma_no_line(indent: nat)
    ensures
        writes(Seq::empty(), Seq::empty(), indent),
{
    let x = Seq::<char>::empty();
    assert forall|s: Seq<char>, i: int| #[trigger]
        crate::pieces::at(s, i, x) implies crate::jsonc::skip(s, i) == crate::jsonc::skip(
        s,
        i + x.len(),
    ) by {}
    assert(void(x));
    lemma_spells_void(x);
}

proof fn lemma_next_line(
    lines: Seq<LineView>,
    slots: Seq<Slot>,
    o: Option<LineView>,
    s: Slot,
    indent: nat,
)
    requires
        writes(lines, slots, indent),
        fits(o, s),
    ensures
        writes(lines + opt_seq(o), slots.push(s), indent),
{
    lemma_filled_push(slots, s);
    let body = section_body(lines, lines.len() as int, indent);
    match o {
        Some(l) => {
            let all = lines.push(l);
            assert(lines + opt_seq(o) =~= all);
            lemma_body_prefix(lines, l, lines.len() as int, indent);
            let line = section_line(l, indent) + seq!['\n'];
            assert(section_body(all, all.len() as int, indent) =~= body + line);
            match l {
                LineView::Key(k, lit, c) => {
                    lemma_member_line(indent, k, lit, s.1->0, c);
                    assert(slot_member(s) =~= seq![(k, s.1->0)]);
                },
                LineView::Hint(t, c) => {
                    lemma_comment_line(indent, t, c);
                    lemma_spells_void(line);
                },
            }
            lemma_spells_concat(body, filled(slots), line, slot_member(s));
        },
        None => {
            assert(lines + opt_seq(o) =~= lines);
            assert(filled(slots) + slot_member(s) =~= filled(slots));
        },
    }
}

proof fn lemma_first_line(o: Option<LineView>, s: Slot, indent: nat)
    requires
        fits(o, s),
    ensures
        writes(opt_seq(o), seq![s], indent),
{
    lemma_no_line(indent);
    lemma_next_line(Seq::empty(), Seq::empty(), o, s, indent);
    assert(Seq::<LineView>::empty() + opt_seq(o) =~= opt_seq(o));
}

proof fn lemma_no_slot(lines: Seq<LineView>, slots: Seq<Slot>, name: Seq<char>, indent: nat)
    requires
        writes(lines, slots, indent),
    ensures
        writes(lines, slots.push((name, None)), indent),
{
    lemma_filled_push(slots, (name, None));
    assert(filled(slots) + slot_member((name, None)) =~= filled(slots));
}

proof fn lemma_section(name: Seq<char>, lines: Seq<LineView>, slots: Seq<Slot>, indent: nat)
    requires
        plain(name),
        writes(lines, slots, indent + 2),
    ensures
        spells(
            section_block(name, lines, indent),
            seq![(name, JsonView::Object(filled(slots)))],
        ),
{
    reveal_strlit("\"");
    reveal_strlit("\": {\n");
    reveal_strlit("},");
    let body = section_body(lines, lines.len() as int, indent + 2);
    lemma_void_break();
    lemma_spells_void(seq!['\n']);
    lemma_spells_concat(seq!['\n'], Seq::empty(), body, filled(slots));
    assert(Seq::<(Seq<char>, JsonView)>::empty() + filled(slots) =~= filled(slots));
    let x = seq!['\n'] + body;
    lemma_reads_object(x, filled(slots), indent);
    let literal = seq!['{'] + x + spaces(indent) + seq!['}'];
    lemma_plain_body(name);
    lemma_spells_member(indent, name, literal, JsonView::Object(filled(slots)));
    assert(section_block(name, lines, indent) =~= spaces(indent) + member_text(name, literal)
        + seq![',']);
}

/// Whether a line writes a member.
pub open spec fn writes_member(l: LineView, x: (Seq<char>, JsonView)) -> bool {
    l matches LineView::Key(k, literal, c) && k == x.0 && plain(k) && reads(literal, x.1) && quiet(
        c,
    )
}

proof fn lemma_lines_of_many(lines: Seq<LineView>, m: Members, n: int, indent: nat) -> (slots: Seq<
    Slot,
>)
    requires
        lines.len() == m.len(),
        0 <= n <= m.len(),
        forall|i: int| 0 <= i < m.len() ==> writes_member(#[trigger] lines[i], m[i]),
    ensures
        writes(lines.take(n), slots, indent),
        filled(slots) == m.take(n),
    decreases n,
{
    if n == 0 {
        lemma_no_line(indent);
        assert(lines.take(0) =~= Seq::empty());
        assert(m.take(0) =~= filled(Seq::empty()));
        Seq::empty()
    } else {
        let slots = lemma_lines_of_many(lines, m, n - 1, indent);
        let o = Some(lines[n - 1]);
        let s: Slot = (m[n - 1].0, Some(m[n - 1].1));
        assert(writes_member(lines[n - 1], m[n - 1]));
        lemma_next_line(lines.take(n - 1), slots, o, s, indent);
        lemma_filled_push(slots, s);
        assert(lines.take(n - 1) + opt_seq(o) =~= lines.take(n));
        assert(m.take(n - 1) + slot_member(s) =~= m.take(n));
        slots.push(s)
    }
}

/// A section is read as the members that its lines write.
pub proof fn lemma_section_of_many(name: Seq<char>, lines: Seq<LineView>, m: Members, indent: nat)
    requires
        plain(name),
        lines.len() == m.len(),
        forall|i: int| 0 <= i < m.len() ==> writes_member(#[trigger] lines[i], m[i]),
    ensures
        spells(section_block(name, lines, indent), seq![(name, JsonView::Object(m))]),
{
    let slots = lemma_lines_of_many(lines, m, m.len() as int, indent + 2);
    assert(lines.take(m.len() as int) =~= lines);
    assert(m.take(m.len() as int) =~= m);
    lemma_section(name, lines, slots, indent);
}

pub proof fn lemma_reads_scalar(v: NumberView)
    requires
        spellable(v),
    ensures
        reads(scalar_literal(v), scalar_json(v)),
{
    match v {
        NumberView::Int(n) => {
            lemma_reads_decimal(n);
        },
        NumberView::Float(t) => {
            lemma_reads_number(t);
        },
        NumberView::Text(t) => {
            lemma_reads_quoted(t);
        },
    }
}

proof fn lemma_array_lines(items: Seq<Seq<char>>, n: int, indent: nat)
    requires
        0 <= n < items.len(),
    ensures
        lists(array_lines(items, n, indent), items_json(items).take(n)),
    decreases n,
{
    let v = items_json(items);
    if n > 0 {
        lemma_array_lines(items, n - 1, indent);
        let t = items[n - 1];
        let before = array_lines(items, n - 1, indent);
        let one = spaces(indent + 2) + quoted(t) + seq![','];
        lemma_void_break();
        lemma_lists_void(seq!['\n']);
        lemma_reads_quoted(t);
        lemma_lists_element(indent + 2, quoted(t), JsonView::Text(t));
        lemma_lists_concat(before, v.take(n - 1), seq!['\n'], Seq::empty());
        lemma_lists_concat(
            before + seq!['\n'],
            v.take(n - 1) + Seq::empty(),
            one,
            seq![JsonView::Text(t)],
        );
        assert(array_lines(items, n, indent) =~= before + seq!['\n'] + one);
        assert(v.take(n) =~= v.take(n - 1) + Seq::empty() + seq![JsonView::Text(t)]);
    } else {
        lemma_void_spaces(0);
        lemma_lists_void(spaces(0));
        assert(array_lines(items, n, indent) =~= spaces(0));
        assert(v.take(n) =~= Seq::empty());
    }
}

pub proof fn lemma_reads_texts(items: Seq<Seq<char>>, indent: nat)
    ensures
        reads(array_literal(items, indent), JsonView::Array(items_json(items))),
{
    let v = items_json(items);
    lemma_void_break();
    lemma_lists_void(seq!['\n']);
    if items.len() == 0 {
        lemma_reads_array(seq!['\n'], Seq::empty(), indent);
        assert(v =~= Seq::empty());
        assert(array_literal(items, indent) =~= seq!['['] + seq!['\n'] + spaces(indent) + seq![
            ']',
        ]);
    } else {
        let n = items.len() - 1;
        let t = items[n];
        lemma_array_lines(items, n, indent);
        let before = array_lines(items, n, indent);
        lemma_lists_concat(before, v.take(n), seq!['\n'], Seq::empty());
        lemma_reads_quoted(t);
        lemma_reads_array_open(
            before + seq!['\n'],
            v.take(n) + Seq::empty(),
            indent + 2,
            quoted(t),
            JsonView::Text(t),
            indent,
        );
        assert(v =~= (v.take(n) + Seq::empty()).push(JsonView::Text(t)));
        assert(array_literal(items, indent) =~= seq!['['] + (before + seq!['\n']) + spaces(
            indent + 2,
        ) + quoted(t) + seq!['\n'] + spaces(indent) + seq![']']);
    }
}

pub proof fn lemma_truths()
    ensures
        reads("true"@, JsonView::Bool(true)),
        reads("false"@, JsonView::Bool(false)),
{
    reveal_strlit("true");
    reveal_strlit("false");
    lemma_reads_truth(true);
    lemma_reads_truth(false);
    assert("true"@ =~= seq!['t', 'r', 'u', 'e']);
    assert("false"@ =~= seq!['f', 'a', 'l', 's', 'e']);
}

proof fn lemma_reads_text(o: Option<Seq<char>>)
    ensures
        o matches Some(t) ==> reads(quoted(t), JsonView::Text(t)),
{
    if let Some(t) = o {
        lemma_reads_quoted(t);
    }
}

proof fn lemma_reads_whole(o: Option<nat>)
    ensures
        o matches Some(n) ==> reads(decimal(n), JsonView::Number(decimal(n))),
{
    if let Some(n) = o {
        lemma_reads_decimal(n);
    }
}

proof fn lemma_reads_real(o: Option<RealView>)
    requires
        real_spellable(o),
    ensures
        shown_real(o) matches Some(x) ==> reads(x.text, JsonView::Number(x.text)),
{
    if let Some(x) = shown_real(o) {
        lemma_reads_number(x.text);
    }
}

proof fn lemma_serial_text(x: SerialView, indent: nat)
    requires
        serial_spellable(Some(x)),
    ensures
        spells(
            section_block("serial"@, serial_lines_of(x), indent),
            seq![("serial"@, JsonView::Object(filled(serial_slots(x))))],
        ),
{
    lemma_serial_names();
    let n = indent + 2;
    let o0 = match x.port {
        Some(p) => Some(LineView::Key("port"@, scalar_literal(p), Some(C_PORT@))),
        None => None,
    };
    let s0: Slot = ("port"@, number_json(x.port));
    assert(fits(o0, s0)) by {
        lemma_c_port();
        if let Some(p) = x.port {
            lemma_reads_scalar(p);
        }
    }
    lemma_first_line(o0, s0, n);
    let l0 = opt_seq(o0);
    let t0 = seq![s0];
    let o1 = match x.baudrate {
        Some(b) => Some(LineView::Key("baudrate"@, scalar_literal(b), Some(C_BAUDRATE@))),
        None => Some(LineView::Hint("\"baudrate\": 1500000"@, Some(C_BAUDRATE@))),
    };
    let s1: Slot = ("baudrate"@, number_json(x.baudrate));
    assert(fits(o1, s1)) by {
        lemma_c_baudrate();
        lemma_baudrate_hint();
        if let Some(b) = x.baudrate {
            lemma_reads_scalar(b);
        }
    }
    lemma_next_line(l0, t0, o1, s1, n);
    let l1 = l0 + opt_seq(o1);
    let t1 = t0.push(s1);
    let o2 = match x.rfc2217 {
        Some(true) => Some(LineView::Key("rfc2217"@, "true"@, Some(C_RFC2217@))),
        Some(false) => Some(LineView::Key("rfc2217"@, "false"@, Some(C_RFC2217@))),
        None => Some(LineView::Hint("\"rfc2217\": false"@, Some(C_RFC2217@))),
    };
    let s2: Slot = ("rfc2217"@, truth_json(x.rfc2217));
    assert(fits(o2, s2)) by {
        lemma_c_rfc2217();
        lemma_rfc2217_hint();
        lemma_truths();
    }
    lemma_next_line(l1, t1, o2, s2, n);
    let l2 = l1 + opt_seq(o2);
    let t2 = t1.push(s2);
    lemma_no_slot(l2, t2, "tx_repeat"@, n);
    let l3 = l2;
    let t3 = t2.push(("tx_repeat"@, None));
    lemma_no_slot(l3, t3, "tx_gap_ms"@, n);
    let l4 = l3;
    let t4 = t3.push(("tx_gap_ms"@, None));
    lemma_no_slot(l4, t4, "backspace"@, n);
    let l5 = l4;
    let t5 = t4.push(("backspace"@, None));
    lemma_no_slot(l5, t5, "enter"@, n);
    let l6 = l5;
    let t6 = t5.push(("enter"@, None));
    lemma_no_slot(l6, t6, "rx_newline"@, n);
    let l7 = l6;
    let t7 = t6.push(("rx_newline"@, None));
    lemma_no_slot(l7, t7, "highlight"@, n);
    let l8 = l7;
    let t8 = t7.push(("highlight"@, None));
    lemma_no_slot(l8, t8, "mouse"@, n);
    let l9 = l8;
    let t9 = t8.push(("mouse"@, None));
    assert(l9 =~= serial_lines_of(x));
    assert(t9 =~= serial_slots(x));
    lemma_section("serial"@, serial_lines_of(x), serial_slots(x), indent);
}

proof fn lemma_target_text(x: TargetView, indent: nat)
    ensures
        spells(
            section_block("target"@, target_lines_of(x), indent),
            seq![("target"@, JsonView::Object(filled(target_slots(x))))],
        ),
{
    lemma_target_names();
    let n = indent + 2;
    let o0 = Some(LineView::Key("login_user"@, quoted(or_empty(x.login_user)), Some(C_LOGIN_USER@)));
    let s0: Slot = ("login_user"@, text_json(Some(or_empty(x.login_user))));
    assert(fits(o0, s0)) by {
        lemma_c_login_user();
        lemma_reads_quoted(or_empty(x.login_user));
    }
    lemma_first_line(o0, s0, n);
    let l0 = opt_seq(o0);
    let t0 = seq![s0];
    let o1 = Some(LineView::Key("login_pass"@, quoted(or_empty(x.login_pass)), None));
    let s1: Slot = ("login_pass"@, text_json(Some(or_empty(x.login_pass))));
    assert(fits(o1, s1)) by {
        lemma_reads_quoted(or_empty(x.login_pass));
    }
    lemma_next_line(l0, t0, o1, s1, n);
    let l1 = l0 + opt_seq(o1);
    let t1 = t0.push(s1);
    let o2 = match x.login_prompt {
        Some(p) => Some(LineView::Key("login_prompt"@, quoted(p), Some(C_LOGIN_PROMPT@))),
        None => Some(LineView::Hint("\"login_prompt\": \"\""@, Some(C_LOGIN_PROMPT@))),
    };
    let s2: Slot = ("login_prompt"@, text_json(x.login_prompt));
    assert(fits(o2, s2)) by {
        lemma_c_login_prompt();
        lemma_login_prompt_hint();
        if let Some(p) = x.login_prompt {
            lemma_reads_quoted(p);
        }
    }
    lemma_next_line(l1, t1, o2, s2, n);
    let l2 = l1 + opt_seq(o2);
    let t2 = t1.push(s2);
    assert(l2 =~= target_lines_of(x));
    assert(t2 =~= target_slots(x));
    lemma_section("target"@, target_lines_of(x), target_slots(x), indent);
}

proof fn lemma_uboot_text(x: UbootView, indent: nat)
    ensures
        spells(
            section_block("uboot"@, uboot_lines_of(x), indent),
            seq![("uboot"@, JsonView::Object(filled(uboot_slots(x))))],
        ),
{
    lemma_uboot_names();
    let n = indent + 2;
    let o0 = text_line("interrupt_char"@, x.interrupt_char, Some(C_UBOOT_CHAR@));
    let s0: Slot = ("interrupt_char"@, text_json(x.interrupt_char));
    assert(fits(o0, s0)) by {
        lemma_c_uboot_char();
        lemma_reads_text(x.interrupt_char);
    }
    lemma_first_line(o0, s0, n);
    let l0 = opt_seq(o0);
    let t0 = seq![s0];
    let o1 = text_line("interrupt_strategy"@, x.interrupt_strategy, None);
    let s1: Slot = ("interrupt_strategy"@, text_json(x.interrupt_strategy));
    assert(fits(o1, s1)) by {
        lemma_reads_text(x.interrupt_strategy);
    }
    lemma_next_line(l0, t0, o1, s1, n);
    let l1 = l0 + opt_seq(o1);
    let t1 = t0.push(s1);
    let o2 = text_line("pattern"@, x.pattern, None);
    let s2: Slot = ("pattern"@, text_json(x.pattern));
    assert(fits(o2, s2)) by {
        lemma_reads_text(x.pattern);
    }
    lemma_next_line(l1, t1, o2, s2, n);
    let l2 = l1 + opt_seq(o2);
    let t2 = t1.push(s2);
    assert(l2 =~= uboot_lines_of(x));
    assert(t2 =~= uboot_slots(x));
    lemma_section("uboot"@, uboot_lines_of(x), uboot_slots(x), indent);
}

proof fn lemma_relay_text(x: RelayView, indent: nat)
    ensures
        spells(
            section_block("relay"@, relay_lines_of(x), indent),
            seq![("relay"@, JsonView::Object(filled(relay_slots(x))))],
        ),
{
    lemma_relay_names();
    let n = indent + 2;
    let o0 = text_line("type"@, x.relay_type, Some(C_RELAY_TYPE@));
    let s0: Slot = ("type"@, text_json(x.relay_type));
    assert(fits(o0, s0)) by {
        lemma_c_relay_type();
        lemma_reads_text(x.relay_type);
    }
    lemma_first_line(o0, s0, n);
    let l0 = opt_seq(o0);
    let t0 = seq![s0];
    let o1 = number_line("port"@, nat16(x.port), None);
    let s1: Slot = ("port"@, whole_json(nat16(x.port)));
    assert(fits(o1, s1)) by {
        lemma_reads_whole(nat16(x.port));
    }
    lemma_next_line(l0, t0, o1, s1, n);
    let l1 = l0 + opt_seq(o1);
    let t1 = t0.push(s1);
    let o2 = text_line("ip"@, x.ip, None);
    let s2: Slot = ("ip"@, text_json(x.ip));
    assert(fits(o2, s2)) by {
        lemma_reads_text(x.ip);
    }
    lemma_next_line(l1, t1, o2, s2, n);
    let l2 = l1 + opt_seq(o2);
    let t2 = t1.push(s2);
    let o3 = number_line("reset_ch"@, not_zero(nat8(x.reset_ch)), Some(C_RELAY_CH_ALIASES@));
    let s3: Slot = ("reset_ch"@, whole_json(not_zero(nat8(x.reset_ch))));
    assert(fits(o3, s3)) by {
        lemma_c_relay_ch_aliases();
        lemma_reads_whole(not_zero(nat8(x.reset_ch)));
    }
    lemma_next_line(l2, t2, o3, s3, n);
    let l3 = l2 + opt_seq(o3);
    let t3 = t2.push(s3);
    lemma_no_slot(l3, t3, "reset_channel"@, n);
    let l4 = l3;
    let t4 = t3.push(("reset_channel"@, None));
    let o5 = number_line("download_ch"@, not_zero(nat8(x.download_ch)), None);
    let s5: Slot = ("download_ch"@, whole_json(not_zero(nat8(x.download_ch))));
    assert(fits(o5, s5)) by {
        lemma_reads_whole(not_zero(nat8(x.download_ch)));
    }
    lemma_next_line(l4, t4, o5, s5, n);
    let l5 = l4 + opt_seq(o5);
    let t5 = t4.push(s5);
    lemma_no_slot(l5, t5, "download_channel"@, n);
    let l6 = l5;
    let t6 = t5.push(("download_channel"@, None));
    let o7 = number_line("power_ch"@, not_zero(nat8(x.power_ch)), Some(C_POWER_CH@));
    let s7: Slot = ("power_ch"@, whole_json(not_zero(nat8(x.power_ch))));
    assert(fits(o7, s7)) by {
        lemma_c_power_ch();
        lemma_reads_whole(not_zero(nat8(x.power_ch)));
    }
    lemma_next_line(l6, t6, o7, s7, n);
    let l7 = l6 + opt_seq(o7);
    let t7 = t6.push(s7);
    lemma_no_slot(l7, t7, "power_channel"@, n);
    let l8 = l7;
    let t8 = t7.push(("power_channel"@, None));
    let o9 = number_line("reset_time_ms"@, not_zero(nat64(x.reset_time_ms)), Some(C_RESET_TIME@));
    let s9: Slot = ("reset_time_ms"@, whole_json(not_zero(nat64(x.reset_time_ms))));
    assert(fits(o9, s9)) by {
        lemma_c_reset_time();
        lemma_reads_whole(not_zero(nat64(x.reset_time_ms)));
    }
    lemma_next_line(l8, t8, o9, s9, n);
    let l9 = l8 + opt_seq(o9);
    let t9 = t8.push(s9);
    let o10 = number_line("power_off_time_ms"@, not_zero(nat64(x.power_off_time_ms)), Some(C_POWER_OFF@));
    let s10: Slot = ("power_off_time_ms"@, whole_json(not_zero(nat64(x.power_off_time_ms))));
    assert(fits(o10, s10)) by {
        lemma_c_power_off();
        lemma_reads_whole(not_zero(nat64(x.power_off_time_ms)));
    }
    lemma_next_line(l9, t9, o10, s10, n);
    let l10 = l9 + opt_seq(o10);
    let t10 = t9.push(s10);
    assert(l10 =~= relay_lines_of(x));
    assert(t10 =~= relay_slots(x));
    lemma_section("relay"@, relay_lines_of(x), relay_slots(x), indent);
}

proof fn lemma_monitor_text(x: MonitorView, indent: nat)
    requires
        monitor_spellable(Some(x)),
    ensures
        spells(
            section_block("monitor"@, monitor_lines_of(x), indent),
            seq![("monitor"@, JsonView::Object(filled(monitor_slots(x))))],
        ),
{
    lemma_monitor_names();
    let n = indent + 2;
    let o0 = number_line("hang_timeout"@, nat64(x.hang_timeout), None);
    let s0: Slot = ("hang_timeout"@, whole_json(nat64(x.hang_timeout)));
    assert(fits(o0, s0)) by {
        lemma_reads_whole(nat64(x.hang_timeout));
    }
    lemma_first_line(o0, s0, n);
    let l0 = opt_seq(o0);
    let t0 = seq![s0];
    let o1 = number_line("hang_hysteresis"@, nat64(x.hang_hysteresis), None);
    let s1: Slot = ("hang_hysteresis"@, whole_json(nat64(x.hang_hysteresis)));
    assert(fits(o1, s1)) by {
        lemma_reads_whole(nat64(x.hang_hysteresis));
    }
    lemma_next_line(l0, t0, o1, s1, n);
    let l1 = l0 + opt_seq(o1);
    let t1 = t0.push(s1);
    let o2 = number_line("max_archived_logs"@, nat64(x.max_archived_logs), None);
    let s2: Slot = ("max_archived_logs"@, whole_json(nat64(x.max_archived_logs)));
    assert(fits(o2, s2)) by {
        lemma_reads_whole(nat64(x.max_archived_logs));
    }
    lemma_next_line(l1, t1, o2, s2, n);
    let l2 = l1 + opt_seq(o2);
    let t2 = t1.push(s2);
    let o3 = number_line("max_log_file_size"@, nat64(x.max_log_file_size), None);
    let s3: Slot = ("max_log_file_size"@, whole_json(nat64(x.max_log_file_size)));
    assert(fits(o3, s3)) by {
        lemma_reads_whole(nat64(x.max_log_file_size));
    }
    lemma_next_line(l2, t2, o3, s3, n);
    let l3 = l2 + opt_seq(o3);
    let t3 = t2.push(s3);
    let o4 = text_line("reference_log"@, x.reference_log, None);
    let s4: Slot = ("reference_log"@, text_json(x.reference_log));
    assert(fits(o4, s4)) by {
        lemma_reads_text(x.reference_log);
    }
    lemma_next_line(l3, t3, o4, s4, n);
    let l4 = l3 + opt_seq(o4);
    let t4 = t3.push(s4);
    let o5 = threshold_line("learner_stage_threshold"@, x.learner_stage_threshold);
    let s5: Slot = ("learner_stage_threshold"@, real_json(x.learner_stage_threshold));
    assert(fits(o5, s5)) by {
        lemma_reads_real(x.learner_stage_threshold);
    }
    lemma_next_line(l4, t4, o5, s5, n);
    let l5 = l4 + opt_seq(o5);
    let t5 = t4.push(s5);
    let o6 = threshold_line("learner_crash_threshold"@, x.learner_crash_threshold);
    let s6: Slot = ("learner_crash_threshold"@, real_json(x.learner_crash_threshold));
    assert(fits(o6, s6)) by {
        lemma_reads_real(x.learner_crash_threshold);
    }
    lemma_next_line(l5, t5, o6, s6, n);
    let l6 = l5 + opt_seq(o6);
    let t6 = t5.push(s6);
    let o7 = match x.crash_keywords {
        Some(k) => Some(
            LineView::Key("crash_keywords"@, array_literal(k, 0), Some(C_CRASH_KEYWORDS@)),
        ),
        None => None,
    };
    let s7: Slot = ("crash_keywords"@, texts_json(x.crash_keywords));
    assert(fits(o7, s7)) by {
        lemma_c_crash_keywords();
        if let Some(k) = x.crash_keywords {
            lemma_reads_texts(k, 0);
        }
    }
    lemma_next_line(l6, t6, o7, s7, n);
    let l7 = l6 + opt_seq(o7);
    let t7 = t6.push(s7);
    assert(l7 =~= monitor_lines_of(x));
    assert(t7 =~= monitor_slots(x));
    lemma_section("monitor"@, monitor_lines_of(x), monitor_slots(x), indent);
}

proof fn lemma_flash_text(x: FlashView, indent: nat)
    ensures
        spells(
            section_block("flash"@, flash_lines_of(x), indent),
            seq![("flash"@, JsonView::Object(filled(flash_slots(x))))],
        ),
{
    lemma_flash_names();
    let n = indent + 2;
    lemma_no_line(n);
    let l0 = Seq::<LineView>::empty();
    lemma_no_slot(l0, Seq::empty(), "tool"@, n);
    let t0 = Seq::<Slot>::empty().push(("tool"@, None));
    let o1 = text_line("full_image_cmd"@, x.full_image_cmd, None);
    let s1: Slot = ("full_image_cmd"@, text_json(x.full_image_cmd));
    assert(fits(o1, s1)) by {
        lemma_reads_text(x.full_image_cmd);
    }
    lemma_next_line(l0, t0, o1, s1, n);
    let l1 = l0 + opt_seq(o1);
    let t1 = t0.push(s1);
    let o2 = text_line("kernel_image_cmd"@, x.kernel_image_cmd, None);
    let s2: Slot = ("kernel_image_cmd"@, text_json(x.kernel_image_cmd));
    assert(fits(o2, s2)) by {
        lemma_reads_text(x.kernel_image_cmd);
    }
    lemma_next_line(l1, t1, o2, s2, n);
    let l2 = l1 + opt_seq(o2);
    let t2 = t1.push(s2);
    let o3 = text_line("loader_bin"@, x.loader_bin, None);
    let s3: Slot = ("loader_bin"@, text_json(x.loader_bin));
    assert(fits(o3, s3)) by {
        lemma_reads_text(x.loader_bin);
    }
    lemma_next_line(l2, t2, o3, s3, n);
    let l3 = l2 + opt_seq(o3);
    let t3 = t2.push(s3);
    lemma_no_slot(l3, t3, "loader_cmd"@, n);
    let l4 = l3;
    let t4 = t3.push(("loader_cmd"@, None));
    lemma_no_slot(l4, t4, "list_devices_cmd"@, n);
    let l5 = l4;
    let t5 = t4.push(("list_devices_cmd"@, None));
    lemma_no_slot(l5, t5, "upload_dir"@, n);
    let l6 = l5;
    let t6 = t5.push(("upload_dir"@, None));
    assert(l6 =~= flash_lines_of(x));
    assert(t6 =~= flash_slots(x));
    lemma_section("flash"@, flash_lines_of(x), flash_slots(x), indent);
}

proof fn lemma_control_text(x: ControlView, indent: nat)
    ensures
        spells(
            section_block("control"@, control_lines_of(x), indent),
            seq![("control"@, JsonView::Object(filled(control_slots(x))))],
        ),
{
    lemma_control_names();
    let n = indent + 2;
    let o0 = text_line("dev_ctrl"@, x.dev_ctrl, None);
    let s0: Slot = ("dev_ctrl"@, text_json(x.dev_ctrl));
    assert(fits(o0, s0)) by {
        lemma_reads_text(x.dev_ctrl);
    }
    lemma_first_line(o0, s0, n);
    let l0 = opt_seq(o0);
    let t0 = seq![s0];
    assert(l0 =~= control_lines_of(x));
    assert(t0 =~= control_slots(x));
    lemma_section("control"@, control_lines_of(x), control_slots(x), indent);
}

// ── Boards ───────────────────────────────────────────────────────────
/// The lines, each with its line break.
spec fn ended(lines: Seq<Seq<char>>) -> Seq<char>
    decreases lines.len(),
{
    if lines.len() == 0 {
        Seq::empty()
    } else {
        ended(lines.drop_last()) + lines.last() + seq!['\n']
    }
}

proof fn lemma_ended_push(lines: Seq<Seq<char>>, l: Seq<char>)
    ensures
        ended(lines.push(l)) == ended(lines) + l + seq!['\n'],
{
    assert(lines.push(l).drop_last() =~= lines);
}

proof fn lemma_ended_concat(a: Seq<Seq<char>>, b: Seq<Seq<char>>)
    ensures
        ended(a + b) == ended(a) + ended(b),
    decreases b.len(),
{
    if b.len() == 0 {
        assert(a + b =~= a);
        assert(ended(a) + ended(b) =~= ended(a));
    } else {
        lemma_ended_concat(a, b.drop_last());
        assert((a + b).drop_last() =~= a + b.drop_last());
        assert(ended(a + b) =~= ended(a) + ended(b));
    }
}

proof fn lemma_joined(lines: Seq<Seq<char>>)
    requires
        lines.len() > 0,
    ensures
        joined(lines, "\n"@) + seq!['\n'] == ended(lines),
    decreases lines.len(),
{
    reveal_strlit("\n");
    assert("\n"@ =~= seq!['\n']);
    if lines.len() == 1 {
        assert(ended(lines.drop_last()) =~= Seq::empty());
        assert(ended(lines) =~= lines[0] + seq!['\n']);
    } else {
        lemma_joined(lines.drop_last());
        assert(joined(lines, "\n"@) + seq!['\n'] =~= ended(lines));
    }
}

/// Whether a block writes what the slot holds.
spec fn block_fits(o: Option<Seq<char>>, s: Slot) -> bool {
    match o {
        Some(t) => spells(t, slot_member(s)),
        None => s.1 is None,
    }
}

/// Whether a line writes what the slot holds.
spec fn line_fits(o: Option<Seq<char>>, s: Slot) -> bool {
    match o {
        Some(t) => spells(t + seq!['\n'], slot_member(s)),
        None => s.1 is None,
    }
}

proof fn lemma_block_line(o: Option<Seq<char>>, s: Slot)
    requires
        block_fits(o, s),
    ensures
        line_fits(o, s),
{
    if let Some(t) = o {
        lemma_void_break();
        lemma_spells_void(seq!['\n']);
        lemma_spells_concat(t, slot_member(s), seq!['\n'], Seq::empty());
        assert(slot_member(s) + Seq::<(Seq<char>, JsonView)>::empty() =~= slot_member(s));
    }
}

proof fn lemma_text_at(n: nat, k: Seq<char>, o: Option<Seq<char>>, comment: Option<Seq<char>>)
    requires
        plain(k),
        quiet(comment),
    ensures
        line_fits(text_at(n, k, o, comment), (k, text_json(o))),
        comment is None ==> block_fits(text_at(n, k, o, comment), (k, text_json(o))),
{
    if let Some(t) = o {
        lemma_reads_quoted(t);
        lemma_member_line(n, k, quoted(t), JsonView::Text(t), comment);
        lemma_bare_member(n, k, quoted(t), JsonView::Text(t));
    }
}

/// Whether the lines open an object at an indent and write what the slots hold.
spec fn opened(lines: Seq<Seq<char>>, slots: Seq<Slot>, n: nat) -> bool {
    let e = ended(lines);
    &&& e.len() > n
    &&& e.take(n as int + 1) == spaces(n) + seq!['{']
    &&& spells(e.skip(n as int + 1), filled(slots))
}

proof fn lemma_open_line(n: nat)
    ensures
        opened(opt_seq(Some(spaces(n) + "{"@)), Seq::empty(), n),
{
    reveal_strlit("{");
    let l = spaces(n) + "{"@;
    let none = Seq::<Seq<char>>::empty();
    lemma_ended_push(none, l);
    assert(opt_seq(Some(l)) =~= none.push(l));
    let e = ended(none.push(l));
    assert(e =~= spaces(n) + seq!['{'] + seq!['\n']);
    assert(e.take(n as int + 1) =~= spaces(n) + seq!['{']);
    assert(e.skip(n as int + 1) =~= seq!['\n']);
    lemma_void_break();
    lemma_spells_void(seq!['\n']);
}

proof fn lemma_next_opened(
    lines: Seq<Seq<char>>,
    slots: Seq<Slot>,
    o: Option<Seq<char>>,
    s: Slot,
    n: nat,
)
    requires
        opened(lines, slots, n),
        line_fits(o, s),
    ensures
        opened(lines + opt_seq(o), slots.push(s), n),
{
    lemma_filled_push(slots, s);
    match o {
        Some(t) => {
            assert(lines + opt_seq(o) =~= lines.push(t));
            lemma_ended_push(lines, t);
            let e = ended(lines);
            let f = ended(lines.push(t));
            let k = n as int + 1;
            let line = t + seq!['\n'];
            assert(f =~= e + line);
            assert(f.take(k) =~= e.take(k));
            assert(f.skip(k) =~= e.skip(k) + line);
            lemma_spells_concat(e.skip(k), filled(slots), line, slot_member(s));
        },
        None => {
            assert(lines + opt_seq(o) =~= lines);
            assert(filled(slots) + slot_member(s) =~= filled(slots));
        },
    }
}

proof fn lemma_opened_without(lines: Seq<Seq<char>>, slots: Seq<Slot>, name: Seq<char>, n: nat)
    requires
        opened(lines, slots, n),
    ensures
        opened(lines, slots.push((name, None)), n),
{
    lemma_filled_push(slots, (name, None));
    assert(filled(slots) + slot_member((name, None)) =~= filled(slots));
}

/// Whether a text is an object at an indent, with its comma.
pub open spec fn is_element(x: Seq<char>, n: nat, literal: Seq<char>, v: JsonView) -> bool {
    &&& x == spaces(n) + literal + seq![',']
    &&& literal.len() > 0
    &&& literal[0] == '{'
    &&& reads(literal, v)
}

/// An object that is opened and closed, as an element with its comma.
proof fn lemma_closed(lines: Seq<Seq<char>>, slots: Seq<Slot>, n: nat) -> (literal: Seq<char>)
    requires
        opened(lines, slots, n),
    ensures
        is_element(
            joined(lines + opt_seq(Some(spaces(n) + "},"@)), "\n"@),
            n,
            literal,
            JsonView::Object(filled(slots)),
        ),
{
    reveal_strlit("},");
    let close = spaces(n) + "},"@;
    let all = lines.push(close);
    assert(lines + opt_seq(Some(close)) =~= all);
    lemma_ended_push(lines, close);
    let e = ended(lines);
    let x = e.skip(n as int + 1);
    lemma_reads_object(x, filled(slots), n);
    let literal = seq!['{'] + x + spaces(n) + seq!['}'];
    assert(e =~= e.take(n as int + 1) + x);
    assert(ended(all) =~= spaces(n) + literal + seq![','] + seq!['\n']);
    lemma_joined(all);
    lemma_same_before_break(joined(all, "\n"@), spaces(n) + literal + seq![',']);
    literal
}

proof fn lemma_same_before_break(x: Seq<char>, y: Seq<char>)
    requires
        x + seq!['\n'] == y + seq!['\n'],
    ensures
        x == y,
{
    assert(x =~= (x + seq!['\n']).drop_last());
    assert(y =~= (y + seq!['\n']).drop_last());
}

/// An element at an indent, with its comma and a line break.
pub proof fn lemma_element_line(n: nat, literal: Seq<char>, v: JsonView)
    requires
        reads(literal, v),
        literal.len() > 0,
    ensures
        lists(spaces(n) + literal + seq![','] + seq!['\n'], seq![v]),
{
    lemma_lists_element(n, literal, v);
    lemma_void_break();
    lemma_lists_void(seq!['\n']);
    lemma_lists_concat(spaces(n) + literal + seq![','], seq![v], seq!['\n'], Seq::empty());
    assert(seq![v] + Seq::<JsonView>::empty() =~= seq![v]);
}

proof fn lemma_serial_block(o: Option<SerialView>, indent: nat)
    requires
        serial_spellable(o),
    ensures
        block_fits(serial_block(o, indent), ("serial"@, serial_json(o))),
{
    if let Some(x) = o {
        lemma_serial_text(x, indent);
    }
}

proof fn lemma_target_block(o: Option<TargetView>, indent: nat)
    ensures
        block_fits(target_block(o, indent), ("target"@, target_json(o))),
{
    if let Some(x) = o {
        lemma_target_text(x, indent);
    }
}

proof fn lemma_uboot_block(o: Option<UbootView>, indent: nat)
    ensures
        block_fits(uboot_block(o, indent), ("uboot"@, uboot_json(o))),
{
    if let Some(x) = o {
        lemma_uboot_text(x, indent);
    }
}

proof fn lemma_relay_block(o: Option<RelayView>, indent: nat)
    ensures
        block_fits(relay_block(o, indent), ("relay"@, relay_json(o))),
{
    if let Some(x) = o {
        lemma_relay_text(x, indent);
    }
}

proof fn lemma_monitor_block(o: Option<MonitorView>, indent: nat)
    requires
        monitor_spellable(o),
    ensures
        block_fits(monitor_block(o, indent), ("monitor"@, monitor_json(o))),
{
    if let Some(x) = o {
        lemma_monitor_text(x, indent);
    }
}

proof fn lemma_flash_block(o: Option<FlashView>, indent: nat)
    ensures
        block_fits(flash_block(o, indent), ("flash"@, flash_json(o))),
{
    if let Some(x) = o {
        lemma_flash_text(x, indent);
    }
}

proof fn lemma_control_block(o: Option<ControlView>, indent: nat)
    ensures
        block_fits(control_block(o, indent), ("control"@, control_json(o))),
{
    if let Some(x) = o {
        lemma_control_text(x, indent);
    }
}

/// A board is read as the object that it was written for.
pub proof fn lemma_dut_text(d: DutView, indent: nat) -> (literal: Seq<char>)
    requires
        dut_spellable(d),
    ensures
        is_element(
            dut_block(d, indent),
            indent,
            literal,
            JsonView::Object(filled(dut_slots(d))),
        ),
{
    lemma_dut_names();
    let i2 = indent + 2;
    lemma_open_line(indent);
    let l0 = opt_seq(Some(spaces(indent) + "{"@));
    let t0 = Seq::<Slot>::empty();
    let o1 = text_at(i2, "dut_name"@, Some(d.dut_name), Some(C_DUT_NAME@));
    let s1: Slot = ("dut_name"@, text_json(Some(d.dut_name)));
    assert(line_fits(o1, s1)) by {
        lemma_c_dut_name();
        lemma_text_at(i2, "dut_name"@, Some(d.dut_name), Some(C_DUT_NAME@));
    }
    lemma_next_opened(l0, t0, o1, s1, indent);
    let l1 = l0 + opt_seq(o1);
    let t1 = t0.push(s1);
    let o2 = serial_block(d.serial, i2);
    let s2: Slot = ("serial"@, serial_json(d.serial));
    assert(line_fits(o2, s2)) by {
        lemma_serial_block(d.serial, i2);
        lemma_block_line(serial_block(d.serial, i2), ("serial"@, serial_json(d.serial)));
    }
    lemma_next_opened(l1, t1, o2, s2, indent);
    let l2 = l1 + opt_seq(o2);
    let t2 = t1.push(s2);
    let o3 = target_block(d.target, i2);
    let s3: Slot = ("target"@, target_json(d.target));
    assert(line_fits(o3, s3)) by {
        lemma_target_block(d.target, i2);
        lemma_block_line(target_block(d.target, i2), ("target"@, target_json(d.target)));
    }
    lemma_next_opened(l2, t2, o3, s3, indent);
    let l3 = l2 + opt_seq(o3);
    let t3 = t2.push(s3);
    let o4 = uboot_block(d.uboot, i2);
    let s4: Slot = ("uboot"@, uboot_json(d.uboot));
    assert(line_fits(o4, s4)) by {
        lemma_uboot_block(d.uboot, i2);
        lemma_block_line(uboot_block(d.uboot, i2), ("uboot"@, uboot_json(d.uboot)));
    }
    lemma_next_opened(l3, t3, o4, s4, indent);
    let l4 = l3 + opt_seq(o4);
    let t4 = t3.push(s4);
    let o5 = relay_block(d.relay, i2);
    let s5: Slot = ("relay"@, relay_json(d.relay));
    assert(line_fits(o5, s5)) by {
        lemma_relay_block(d.relay, i2);
        lemma_block_line(relay_block(d.relay, i2), ("relay"@, relay_json(d.relay)));
    }
    lemma_next_opened(l4, t4, o5, s5, indent);
    let l5 = l4 + opt_seq(o5);
    let t5 = t4.push(s5);
    let o6 = monitor_block(d.monitor, i2);
    let s6: Slot = ("monitor"@, monitor_json(d.monitor));
    assert(line_fits(o6, s6)) by {
        lemma_monitor_block(d.monitor, i2);
        lemma_block_line(monitor_block(d.monitor, i2), ("monitor"@, monitor_json(d.monitor)));
    }
    lemma_next_opened(l5, t5, o6, s6, indent);
    let l6 = l5 + opt_seq(o6);
    let t6 = t5.push(s6);
    let o7 = flash_block(d.flash, i2);
    let s7: Slot = ("flash"@, flash_json(d.flash));
    assert(line_fits(o7, s7)) by {
        lemma_flash_block(d.flash, i2);
        lemma_block_line(flash_block(d.flash, i2), ("flash"@, flash_json(d.flash)));
    }
    lemma_next_opened(l6, t6, o7, s7, indent);
    let l7 = l6 + opt_seq(o7);
    let t7 = t6.push(s7);
    lemma_opened_without(l7, t7, "download"@, indent);
    let l8 = l7;
    let t8 = t7.push(("download"@, None));
    let o9 = control_block(d.control, i2);
    let s9: Slot = ("control"@, control_json(d.control));
    assert(line_fits(o9, s9)) by {
        lemma_control_block(d.control, i2);
        lemma_block_line(control_block(d.control, i2), ("control"@, control_json(d.control)));
    }
    lemma_next_opened(l8, t8, o9, s9, indent);
    let l9 = l8 + opt_seq(o9);
    let t9 = t8.push(s9);
    let o10 = text_at(i2, "loader"@, d.loader, None);
    let s10: Slot = ("loader"@, text_json(d.loader));
    assert(line_fits(o10, s10)) by {
        lemma_text_at(i2, "loader"@, d.loader, None);
    }
    lemma_next_opened(l9, t9, o10, s10, indent);
    let l10 = l9 + opt_seq(o10);
    let t10 = t9.push(s10);
    let o11 = text_at(i2, "reference_log"@, d.reference_log, Some(C_REFERENCE_LOG_DUT@));
    let s11: Slot = ("reference_log"@, text_json(d.reference_log));
    assert(line_fits(o11, s11)) by {
        lemma_c_reference_log_dut();
        lemma_text_at(i2, "reference_log"@, d.reference_log, Some(C_REFERENCE_LOG_DUT@));
    }
    lemma_next_opened(l10, t10, o11, s11, indent);
    let l11 = l10 + opt_seq(o11);
    let t11 = t10.push(s11);
    let o12 = text_at(i2, "dut_dir"@, d.dut_dir, Some(C_DUT_DIR@));
    let s12: Slot = ("dut_dir"@, text_json(d.dut_dir));
    assert(line_fits(o12, s12)) by {
        lemma_c_dut_dir();
        lemma_text_at(i2, "dut_dir"@, d.dut_dir, Some(C_DUT_DIR@));
    }
    lemma_next_opened(l11, t11, o12, s12, indent);
    let l12 = l11 + opt_seq(o12);
    let t12 = t11.push(s12);
    assert(t12 =~= dut_slots(d));
    let literal = lemma_closed(l12, t12, indent);
    assert(dut_lines(d, indent) =~= l12 + opt_seq(Some(spaces(indent) + "},"@)));
    literal
}

// ── Hosts ────────────────────────────────────────────────────────────
proof fn lemma_dut_blocks(duts: Seq<DutView>, n: int, indent: nat)
    requires
        0 <= n <= duts.len(),
        forall|i: int| 0 <= i < duts.len() ==> dut_spellable(#[trigger] duts[i]),
    ensures
        lists(ended(dut_blocks(duts, n, indent)), duts_json(duts).take(n)),
    decreases n,
{
    let v = duts_json(duts);
    if n > 0 {
        lemma_dut_blocks(duts, n - 1, indent);
        let literal = lemma_dut_text(duts[n - 1], indent);
        lemma_element_line(indent, literal, v[n - 1]);
        let before = dut_blocks(duts, n - 1, indent);
        let b = dut_block(duts[n - 1], indent);
        lemma_ended_push(before, b);
        lemma_lists_concat(ended(before), v.take(n - 1), b + seq!['\n'], seq![v[n - 1]]);
        assert(ended(before.push(b)) =~= ended(before) + (b + seq!['\n']));
        assert(v.take(n) =~= v.take(n - 1) + seq![v[n - 1]]);
    } else {
        lemma_void_spaces(0);
        lemma_lists_void(spaces(0));
        assert(ended(dut_blocks(duts, n, indent)) =~= spaces(0));
        assert(v.take(n) =~= Seq::empty());
    }
}

/// An array that is written over several lines.
proof fn lemma_reads_listing(x: Seq<char>, v: Seq<JsonView>, n: nat)
    requires
        lists(x, v),
    ensures
        reads(seq!['['] + (seq!['\n'] + x) + spaces(n) + seq![']'], JsonView::Array(v)),
{
    lemma_void_break();
    lemma_lists_void(seq!['\n']);
    lemma_lists_concat(seq!['\n'], Seq::empty(), x, v);
    assert(Seq::<JsonView>::empty() + v =~= v);
    lemma_reads_array(seq!['\n'] + x, v, n);
}

/// The lines of a host before its list of boards.
spec fn host_members(h: HostView, indent: nat) -> Seq<Seq<char>> {
    let i2 = indent + 2;
    opt_seq(Some(spaces(indent) + "{"@)) + opt_seq(
        text_at(i2, "ip"@, Some(or_empty(h.ip)), Some(C_HOST_IP@)),
    ) + opt_seq(text_at(i2, "user"@, Some(or_empty(h.user)), Some(C_HOST_USER@))) + opt_seq(
        text_at(i2, "pass"@, Some(or_empty(h.pass)), Some(C_HOST_PASS@)),
    ) + opt_seq(host_name_line(h, i2))
}

spec fn host_name_line(h: HostView, i2: nat) -> Option<Seq<char>> {
    if or_empty(h.host_name).len() > 0 {
        text_at(i2, "host_name"@, h.host_name, Some(C_HOST_NAME@))
    } else {
        Some(comment_line(spaces(i2), "\"host_name\": \"\""@, Some(C_HOST_NAME@)))
    }
}

/// The slots of a host before its list of boards.
spec fn host_scalars(h: HostView) -> Seq<Slot> {
    seq![
        ("ip"@, text_json(Some(or_empty(h.ip)))),
        ("user"@, text_json(Some(or_empty(h.user)))),
        ("pass"@, text_json(Some(or_empty(h.pass)))),
        ("host_name"@, text_json(shown_name(h))),
    ]
}

proof fn lemma_host_members(h: HostView, indent: nat)
    ensures
        opened(host_members(h, indent), host_scalars(h), indent),
{
    lemma_host_names();
    let i2 = indent + 2;
    lemma_open_line(indent);
    let l0 = opt_seq(Some(spaces(indent) + "{"@));
    let t0 = Seq::<Slot>::empty();
    let o1 = text_at(i2, "ip"@, Some(or_empty(h.ip)), Some(C_HOST_IP@));
    let s1: Slot = ("ip"@, text_json(Some(or_empty(h.ip))));
    assert(line_fits(o1, s1)) by {
        lemma_c_host_ip();
        lemma_text_at(i2, "ip"@, Some(or_empty(h.ip)), Some(C_HOST_IP@));
    }
    lemma_next_opened(l0, t0, o1, s1, indent);
    let l1 = l0 + opt_seq(o1);
    let t1 = t0.push(s1);
    let o2 = text_at(i2, "user"@, Some(or_empty(h.user)), Some(C_HOST_USER@));
    let s2: Slot = ("user"@, text_json(Some(or_empty(h.user))));
    assert(line_fits(o2, s2)) by {
        lemma_c_host_user();
        lemma_text_at(i2, "user"@, Some(or_empty(h.user)), Some(C_HOST_USER@));
    }
    lemma_next_opened(l1, t1, o2, s2, indent);
    let l2 = l1 + opt_seq(o2);
    let t2 = t1.push(s2);
    let o3 = text_at(i2, "pass"@, Some(or_empty(h.pass)), Some(C_HOST_PASS@));
    let s3: Slot = ("pass"@, text_json(Some(or_empty(h.pass))));
    assert(line_fits(o3, s3)) by {
        lemma_c_host_pass();
        lemma_text_at(i2, "pass"@, Some(or_empty(h.pass)), Some(C_HOST_PASS@));
    }
    lemma_next_opened(l2, t2, o3, s3, indent);
    let l3 = l2 + opt_seq(o3);
    let t3 = t2.push(s3);
    let o4 = host_name_line(h, i2);
    let s4: Slot = ("host_name"@, text_json(shown_name(h)));
    assert(line_fits(o4, s4)) by {
        lemma_c_host_name();
        lemma_text_at(i2, "host_name"@, h.host_name, Some(C_HOST_NAME@));
        if or_empty(h.host_name).len() == 0 {
            lemma_host_name_hint();
            lemma_comment_line(i2, "\"host_name\": \"\""@, Some(C_HOST_NAME@));
            lemma_spells_void(host_name_line(h, i2)->0 + seq!['\n']);
        }
    }
    lemma_next_opened(l3, t3, o4, s4, indent);
    let l4 = l3 + opt_seq(o4);
    let t4 = t3.push(s4);
    assert(l4 =~= host_members(h, indent));
    assert(t4 =~= host_scalars(h));
}

/// The text of a host with members `x` and boards `b`, line by line and as an
/// object.
#[verifier::rlimit(60)]
proof fn lemma_host_shape(n: nat, x: Seq<char>, b: Seq<char>)
    requires
        plain("duts"@),
    ensures
        spaces(n) + seq!['{'] + x + (spaces(n + 2) + "\"duts\": ["@) + seq!['\n'] + b + (spaces(n + 2)
            + "]"@) + seq!['\n'] + (spaces(n) + "},"@) + seq!['\n'] == spaces(n) + (seq!['{'] + x
            + spaces(n + 2) + member_text(
            "duts"@,
            seq!['['] + (seq!['\n'] + b) + spaces(n + 2) + seq![']'],
        ) + seq!['\n'] + spaces(n) + seq!['}']) + seq![','] + seq!['\n'],
{
    reveal_strlit("\"duts\": [");
    reveal_strlit("]");
    reveal_strlit("},");
    reveal_strlit("duts");
    lemma_plain_body("duts"@);
    let sp = spaces(n);
    let sq = spaces(n + 2);
    let q = member_text("duts"@, seq!['[']);
    assert("\"duts\": ["@ =~= q);
    let front = sp + seq!['{'] + x + sq + q + seq!['\n'] + b + sq;
    let literal = seq!['['] + (seq!['\n'] + b) + sq + seq![']'];
    assert(sp + seq!['{'] + x + (sq + q) + seq!['\n'] + b + (sq + "]"@) + seq!['\n'] =~= front + seq![
        ']',
        '\n',
    ]);
    assert(member_text("duts"@, literal) =~= q + seq!['\n'] + b + sq + seq![']']);
    assert(sp + (seq!['{'] + x + sq + member_text("duts"@, literal)) =~= front + seq![']']);
    assert(front + seq![']', '\n'] + (sp + "},"@) + seq!['\n'] =~= front + seq![']'] + seq!['\n'] + sp
        + seq!['}'] + seq![','] + seq!['\n']);
    assert(sp + (seq!['{'] + x + sq + member_text("duts"@, literal) + seq!['\n'] + sp + seq!['}'])
        =~= sp + (seq!['{'] + x + sq + member_text("duts"@, literal)) + seq!['\n'] + sp + seq!['}']);
}

proof fn lemma_host_lines(h: HostView, indent: nat)
    ensures
        ended(host_lines(h, indent)) == ended(host_members(h, indent)) + (spaces(indent + 2)
            + "\"duts\": ["@) + seq!['\n'] + ended(
            dut_blocks(h.duts, h.duts.len() as int, indent + 4),
        ) + (spaces(indent + 2) + "]"@) + seq!['\n'] + (spaces(indent) + "},"@) + seq!['\n'],
        host_lines(h, indent).len() > 0,
{
    let head = host_members(h, indent);
    let boards = dut_blocks(h.duts, h.duts.len() as int, indent + 4);
    let a = spaces(indent + 2) + "\"duts\": ["@;
    let b = spaces(indent + 2) + "]"@;
    let c = spaces(indent) + "},"@;
    assert(host_head(h, indent) =~= head.push(a));
    assert(host_lines(h, indent) =~= (head.push(a) + boards).push(b).push(c));
    lemma_ended_push((head.push(a) + boards).push(b), c);
    lemma_ended_push(head.push(a) + boards, b);
    lemma_ended_concat(head.push(a), boards);
    lemma_ended_push(head, a);
}

/// The list of the boards of a host.
spec fn boards_literal(h: HostView, indent: nat) -> Seq<char> {
    seq!['['] + (seq!['\n'] + ended(dut_blocks(h.duts, h.duts.len() as int, indent + 4))) + spaces(
        indent + 2,
    ) + seq![']']
}

/// The object of a host, from brace to brace.
spec fn host_literal(h: HostView, indent: nat) -> Seq<char> {
    seq!['{'] + ended(host_members(h, indent)).skip(indent as int + 1) + spaces(indent + 2)
        + member_text("duts"@, boards_literal(h, indent)) + seq!['\n'] + spaces(indent) + seq!['}']
}

proof fn lemma_host_literal(h: HostView, indent: nat)
    requires
        host_spellable(h),
    ensures
        reads(host_literal(h, indent), JsonView::Object(filled(host_slots(h)))),
{
    let n = h.duts.len() as int;
    let boards = dut_blocks(h.duts, n, indent + 4);
    let v = duts_json(h.duts);
    lemma_host_members(h, indent);
    lemma_dut_blocks(h.duts, n, indent + 4);
    assert(v.take(n) =~= v);
    lemma_reads_listing(ended(boards), v, indent + 2);
    let x = ended(host_members(h, indent)).skip(indent as int + 1);
    let m = filled(host_scalars(h));
    let last: Slot = ("duts"@, Some(JsonView::Array(v)));
    lemma_reads_object_open(
        x,
        m,
        indent + 2,
        "duts"@,
        boards_literal(h, indent),
        JsonView::Array(v),
        indent,
    );
    lemma_filled_push(host_scalars(h), last);
    assert(host_scalars(h).push(last) =~= host_slots(h));
    assert(filled(host_slots(h)) =~= m.push(("duts"@, JsonView::Array(v))));
}

proof fn lemma_host_block(h: HostView, indent: nat)
    ensures
        host_block(h, indent) == spaces(indent) + host_literal(h, indent) + seq![','],
{
    lemma_host_names();
    lemma_host_members(h, indent);
    let e = ended(host_members(h, indent));
    let x = e.skip(indent as int + 1);
    let boards = ended(dut_blocks(h.duts, h.duts.len() as int, indent + 4));
    lemma_host_lines(h, indent);
    assert(e =~= e.take(indent as int + 1) + x);
    lemma_host_shape(indent, x, boards);
    lemma_joined(host_lines(h, indent));
    lemma_same_before_break(
        host_block(h, indent),
        spaces(indent) + host_literal(h, indent) + seq![','],
    );
}

/// A host is read as the object that it was written for.
pub proof fn lemma_host_text(h: HostView, indent: nat) -> (literal: Seq<char>)
    requires
        host_spellable(h),
    ensures
        is_element(
            host_block(h, indent),
            indent,
            literal,
            JsonView::Object(filled(host_slots(h))),
        ),
{
    lemma_host_literal(h, indent);
    lemma_host_block(h, indent);
    host_literal(h, indent)
}

proof fn lemma_hosts_text(hosts: Seq<HostView>, n: int)
    requires
        0 <= n <= hosts.len(),
        forall|i: int| 0 <= i < hosts.len() ==> host_spellable(#[trigger] hosts[i]),
    ensures
        lists(host_text(hosts, n), hosts_json(hosts).take(n)),
    decreases n,
{
    let v = hosts_json(hosts);
    if n > 0 {
        lemma_hosts_text(hosts, n - 1);
        let object = lemma_host_text(hosts[n - 1], 4);
        lemma_element_line(4, object, v[n - 1]);
        let before = host_text(hosts, n - 1);
        let b = host_block(hosts[n - 1], 4);
        lemma_lists_concat(before, v.take(n - 1), b + seq!['\n'], seq![v[n - 1]]);
        assert(host_text(hosts, n) =~= before + (b + seq!['\n']));
        assert(v.take(n) =~= v.take(n - 1) + seq![v[n - 1]]);
    } else {
        lemma_void_spaces(0);
        lemma_lists_void(spaces(0));
        assert(host_text(hosts, n) =~= spaces(0));
        assert(v.take(n) =~= Seq::empty());
    }
}

// ── The whole document ───────────────────────────────────────────────
proof fn lemma_line_block(lines: Seq<&'static str>, n: int, k: nat)
    requires
        0 <= n <= lines.len(),
        forall|i: int| 0 <= i < lines.len() ==> is_remark((#[trigger] lines[i])@, k),
    ensures
        void(line_block(lines, n)),
    decreases n,
{
    if n > 0 {
        lemma_line_block(lines, n - 1, k);
        let x = lines[n - 1]@;
        assert(is_remark(lines[n - 1]@, k));
        let t = x.skip(k as int + 2);
        lemma_void_remark(k, t);
        assert(x =~= spaces(k) + seq!['/', '/'] + t);
        lemma_void_concat(line_block(lines, n - 1), x + seq!['\n']);
        assert(line_block(lines, n) =~= line_block(lines, n - 1) + (x + seq!['\n']));
    } else {
        lemma_void_spaces(0);
        assert(line_block(lines, n) =~= spaces(0));
    }
}

/// Whether the blocks behind a beginning write what the slots hold.
spec fn goes_on(front: Seq<char>, blocks: Seq<Seq<char>>, slots: Seq<Slot>) -> bool {
    spells(front + concat(blocks, blocks.len() as int), filled(slots))
}

proof fn lemma_concat_prefix(blocks: Seq<Seq<char>>, b: Seq<char>, n: int)
    requires
        0 <= n <= blocks.len(),
    ensures
        concat(blocks.push(b), n) == concat(blocks, n),
    decreases n,
{
    if n > 0 {
        lemma_concat_prefix(blocks, b, n - 1);
        assert(blocks.push(b)[n - 1] == blocks[n - 1]);
    }
}

proof fn lemma_next_block(
    front: Seq<char>,
    blocks: Seq<Seq<char>>,
    slots: Seq<Slot>,
    o: Option<Seq<char>>,
    s: Slot,
)
    requires
        goes_on(front, blocks, slots),
        block_fits(o, s),
    ensures
        goes_on(front, blocks + opt_seq(o), slots.push(s)),
{
    lemma_filled_push(slots, s);
    let x = front + concat(blocks, blocks.len() as int);
    match o {
        Some(t) => {
            let all = blocks.push(t);
            assert(blocks + opt_seq(o) =~= all);
            lemma_concat_prefix(blocks, t, blocks.len() as int);
            assert(front + concat(all, all.len() as int) =~= x + t);
            lemma_spells_concat(x, filled(slots), t, slot_member(s));
        },
        None => {
            assert(blocks + opt_seq(o) =~= blocks);
            assert(filled(slots) + slot_member(s) =~= filled(slots));
        },
    }
}

/// The text from the opening brace of the document to the end of the hosts.
spec fn front_text(c: ConfigView) -> Seq<char> {
    seq!['\n'] + (spaces(2) + member_text(
        "dev_hosts"@,
        seq!['['] + (seq!['\n'] + host_text(c.dev_hosts, c.dev_hosts.len() as int)) + spaces(2)
            + seq![']'],
    ) + seq![',']) + seq!['\n']
}

spec fn front_slots(c: ConfigView) -> Seq<Slot> {
    seq![("dev_hosts"@, Some(JsonView::Array(hosts_json(c.dev_hosts))))]
}

proof fn lemma_front(c: ConfigView)
    requires
        config_spellable(c),
    ensures
        goes_on(front_text(c), Seq::empty(), front_slots(c)),
{
    lemma_config_names();
    let v = hosts_json(c.dev_hosts);
    let n = c.dev_hosts.len() as int;
    lemma_hosts_text(c.dev_hosts, n);
    assert(v.take(n) =~= v);
    lemma_reads_listing(host_text(c.dev_hosts, n), v, 2);
    let literal = seq!['['] + (seq!['\n'] + host_text(c.dev_hosts, n)) + spaces(2) + seq![']'];
    let x = spaces(2) + member_text("dev_hosts"@, literal) + seq![','];
    let one = seq![("dev_hosts"@, JsonView::Array(v))];
    lemma_spells_member(2, "dev_hosts"@, literal, JsonView::Array(v));
    lemma_void_break();
    lemma_spells_void(seq!['\n']);
    lemma_spells_concat(seq!['\n'], Seq::empty(), x, one);
    lemma_spells_concat(seq!['\n'] + x, Seq::empty() + one, seq!['\n'], Seq::empty());
    let s: Slot = ("dev_hosts"@, Some(JsonView::Array(v)));
    lemma_filled_push(Seq::empty(), s);
    assert(front_slots(c) =~= Seq::<Slot>::empty().push(s));
    assert(filled(front_slots(c)) =~= Seq::empty() + one + Seq::empty());
    assert(front_text(c) + concat(Seq::empty(), 0) =~= seq!['\n'] + x + seq!['\n']);
}

/// The slots of a document without those of the lock directory.
spec fn block_slots(c: ConfigView) -> Seq<Slot> {
    config_slots(c).drop_last()
}

#[verifier::rlimit(40)]
#[verifier::spinoff_prover]
proof fn lemma_blocks(c: ConfigView)
    requires
        config_spellable(c),
    ensures
        goes_on(front_text(c), global_blocks(c), block_slots(c)),
{
    lemma_config_names();
    let f = front_text(c);
    lemma_front(c);
    let l0 = Seq::<Seq<char>>::empty();
    let t0 = front_slots(c);
    let o1 = serial_block(c.serial, 2);
    let s1: Slot = ("serial"@, serial_json(c.serial));
    assert(block_fits(o1, s1)) by {
        lemma_serial_block(c.serial, 2);
    }
    lemma_next_block(f, l0, t0, o1, s1);
    let l1 = l0 + opt_seq(o1);
    let t1 = t0.push(s1);
    let o2 = target_block(c.target, 2);
    let s2: Slot = ("target"@, target_json(c.target));
    assert(block_fits(o2, s2)) by {
        lemma_target_block(c.target, 2);
    }
    lemma_next_block(f, l1, t1, o2, s2);
    let l2 = l1 + opt_seq(o2);
    let t2 = t1.push(s2);
    let o3 = uboot_block(c.uboot, 2);
    let s3: Slot = ("uboot"@, uboot_json(c.uboot));
    assert(block_fits(o3, s3)) by {
        lemma_uboot_block(c.uboot, 2);
    }
    lemma_next_block(f, l2, t2, o3, s3);
    let l3 = l2 + opt_seq(o3);
    let t3 = t2.push(s3);
    let o4 = relay_block(c.relay, 2);
    let s4: Slot = ("relay"@, relay_json(c.relay));
    assert(block_fits(o4, s4)) by {
        lemma_relay_block(c.relay, 2);
    }
    lemma_next_block(f, l3, t3, o4, s4);
    let l4 = l3 + opt_seq(o4);
    let t4 = t3.push(s4);
    let o5 = monitor_block(c.monitor, 2);
    let s5: Slot = ("monitor"@, monitor_json(c.monitor));
    assert(block_fits(o5, s5)) by {
        lemma_monitor_block(c.monitor, 2);
    }
    lemma_next_block(f, l4, t4, o5, s5);
    let l5 = l4 + opt_seq(o5);
    let t5 = t4.push(s5);
    let o6 = flash_block(c.flash, 2);
    let s6: Slot = ("flash"@, flash_json(c.flash));
    assert(block_fits(o6, s6)) by {
        lemma_flash_block(c.flash, 2);
    }
    lemma_next_block(f, l5, t5, o6, s6);
    let l6 = l5 + opt_seq(o6);
    let t6 = t5.push(s6);
    let o7 = None::<Seq<char>>;
    let s7: Slot = ("download"@, None);
    assert(block_fits(o7, s7)) by {
    }
    lemma_next_block(f, l6, t6, o7, s7);
    let l7 = l6 + opt_seq(o7);
    let t7 = t6.push(s7);
    let o8 = control_block(c.control, 2);
    let s8: Slot = ("control"@, control_json(c.control));
    assert(block_fits(o8, s8)) by {
        lemma_control_block(c.control, 2);
    }
    lemma_next_block(f, l7, t7, o8, s8);
    let l8 = l7 + opt_seq(o8);
    let t8 = t7.push(s8);
    let o9 = text_at(2, "loader"@, c.loader, None);
    let s9: Slot = ("loader"@, text_json(c.loader));
    assert(block_fits(o9, s9)) by {
        lemma_text_at(2, "loader"@, c.loader, None);
    }
    lemma_next_block(f, l8, t8, o9, s9);
    let l9 = l8 + opt_seq(o9);
    let t9 = t8.push(s9);
    let o10 = with_break(text_at(2, "reference_log"@, c.reference_log, Some(C_REFERENCE_LOG_DUT@)));
    let s10: Slot = ("reference_log"@, text_json(c.reference_log));
    assert(block_fits(o10, s10)) by {
        lemma_dut_names();
        lemma_c_reference_log_dut();
        lemma_text_at(2, "reference_log"@, c.reference_log, Some(C_REFERENCE_LOG_DUT@));
    }
    lemma_next_block(f, l9, t9, o10, s10);
    let l10 = l9 + opt_seq(o10);
    let t10 = t9.push(s10);
    let o11 = with_break(text_at(2, "dut_dir"@, c.dut_dir, Some(C_DUT_DIR@)));
    let s11: Slot = ("dut_dir"@, text_json(c.dut_dir));
    assert(block_fits(o11, s11)) by {
        lemma_dut_names();
        lemma_c_dut_dir();
        lemma_text_at(2, "dut_dir"@, c.dut_dir, Some(C_DUT_DIR@));
    }
    lemma_next_block(f, l10, t10, o11, s11);
    let l11 = l10 + opt_seq(o11);
    let t11 = t10.push(s11);
    assert(l11 =~= global_blocks(c));
    assert(t11 =~= block_slots(c));
}

/// The text of a document with a header, hosts, blocks, a lock directory and
/// hints, line by line and as an object.
#[verifier::rlimit(60)]
proof fn lemma_document_shape(
    header: Seq<char>,
    hosts: Seq<char>,
    blocks: Seq<char>,
    lock: Seq<char>,
    hints: Seq<char>,
)
    requires
        plain("dev_hosts"@),
    ensures
        header + "{\n"@ + "  \"dev_hosts\": [\n"@ + hosts + "  ],\n"@ + blocks + lock + hints + "}\n"@
            == header + (seq!['{'] + (seq!['\n'] + (spaces(2) + member_text(
            "dev_hosts"@,
            seq!['['] + (seq!['\n'] + hosts) + spaces(2) + seq![']'],
        ) + seq![',']) + seq!['\n'] + blocks + lock + hints) + spaces(0) + seq!['}']) + seq!['\n'],
{
    reveal_strlit("{\n");
    reveal_strlit("  \"dev_hosts\": [\n");
    reveal_strlit("  ],\n");
    reveal_strlit("}\n");
    reveal_strlit("dev_hosts");
    lemma_plain_body("dev_hosts"@);
    let sp = spaces(2);
    let literal = seq!['['] + (seq!['\n'] + hosts) + sp + seq![']'];
    let f = seq!['\n'] + (sp + member_text("dev_hosts"@, literal) + seq![',']) + seq!['\n'];
    let q = sp + member_text("dev_hosts"@, seq!['[']) + seq!['\n'];
    assert("  \"dev_hosts\": [\n"@ =~= q);
    assert(sp + member_text("dev_hosts"@, literal) =~= q + hosts + sp + seq![']']);
    assert("{\n"@ + q + hosts + "  ],\n"@ =~= seq!['{'] + f);
    let rest = blocks + lock + hints;
    let left = header + "{\n"@ + q + hosts + "  ],\n"@;
    assert(left =~= header + ("{\n"@ + q + hosts + "  ],\n"@));
    assert(left + blocks + lock + hints =~= left + rest);
    assert(f + blocks + lock + hints =~= f + rest);
    assert(header + (seq!['{'] + (f + rest) + spaces(0) + seq!['}']) + seq!['\n'] =~= header + (seq!['{']
        + f) + rest + "}\n"@);
}

/// The line of the lock directory.
spec fn lock_text(c: ConfigView) -> Seq<char> {
    match c.lock_dir {
        Some(l) => member_line(spaces(2), "lock_dir"@, quoted(l), Some(C_LOCK_DIR@)) + seq!['\n'],
        None => Seq::empty(),
    }
}

/// The hints at the top-level sections, where they come in.
spec fn hints_text(c: ConfigView, with_global_hints: bool) -> Seq<char> {
    if with_global_hints && global_blocks(c).len() == 0 && c.lock_dir is None {
        line_block(GLOBAL_HINTS@, 12)
    } else {
        Seq::empty()
    }
}

/// The text between the outermost braces.
spec fn inner_text(c: ConfigView, with_global_hints: bool) -> Seq<char> {
    front_text(c) + concat(global_blocks(c), global_blocks(c).len() as int) + lock_text(c)
        + hints_text(c, with_global_hints)
}

proof fn lemma_lock(c: ConfigView)
    ensures
        spells(lock_text(c), slot_member(("lock_dir"@, text_json(c.lock_dir)))),
{
    lemma_config_names();
    lemma_c_lock_dir();
    lemma_text_at(2, "lock_dir"@, c.lock_dir, Some(C_LOCK_DIR@));
    if c.lock_dir is None {
        let none = slot_member(("lock_dir"@, text_json(c.lock_dir)));
        lemma_void_spaces(0);
        lemma_spells_void(spaces(0));
        assert(lock_text(c) =~= spaces(0));
        assert(none =~= Seq::empty());
    }
}

proof fn lemma_hints(c: ConfigView, with_global_hints: bool)
    ensures
        spells(hints_text(c, with_global_hints), Seq::empty()),
{
    let hints = hints_text(c, with_global_hints);
    assert(void(hints)) by {
        lemma_global_hints();
        lemma_line_block(GLOBAL_HINTS@, 12, 2);
        lemma_void_spaces(0);
        assert(Seq::<char>::empty() =~= spaces(0));
    }
    lemma_spells_void(hints);
}

proof fn lemma_last_slots(
    x: Seq<char>,
    slots: Seq<Slot>,
    lock: Seq<char>,
    last: Slot,
    hints: Seq<char>,
)
    requires
        spells(x, filled(slots)),
        spells(lock, slot_member(last)),
        spells(hints, Seq::empty()),
    ensures
        spells(x + lock + hints, filled(slots.push(last))),
{
    lemma_filled_push(slots, last);
    lemma_spells_concat(x, filled(slots), lock, slot_member(last));
    let m = filled(slots.push(last));
    lemma_spells_concat(x + lock, m, hints, Seq::empty());
    assert(m + Seq::<(Seq<char>, JsonView)>::empty() =~= m);
}

proof fn lemma_inner(c: ConfigView, with_global_hints: bool)
    requires
        config_spellable(c),
    ensures
        spells(inner_text(c, with_global_hints), filled(config_slots(c))),
{
    let slots = block_slots(c);
    let last: Slot = ("lock_dir"@, text_json(c.lock_dir));
    let blocks = global_blocks(c);
    let x = front_text(c) + concat(blocks, blocks.len() as int);
    assert(spells(x, filled(slots))) by {
        lemma_blocks(c);
    }
    lemma_lock(c);
    lemma_hints(c, with_global_hints);
    lemma_last_slots(x, slots, lock_text(c), last, hints_text(c, with_global_hints));
    assert(slots.push(last) =~= config_slots(c));
}

/// The renderer's text always parses, and reads as what it keeps of the
/// configuration.
pub proof fn lemma_written_reads(c: ConfigView, with_global_hints: bool)
    requires
        config_spellable(c),
    ensures
        config_text(config_document(c, with_global_hints)) == Some(kept_config(c)),
        document(config_document(c, with_global_hints)) == Some(
            JsonView::Object(filled(config_slots(c))),
        ),
{
    lemma_config_names();
    let blocks = global_blocks(c);
    let m = filled(config_slots(c));
    let body = inner_text(c, with_global_hints);
    lemma_inner(c, with_global_hints);
    lemma_reads_object(body, m, 0);
    let object = seq!['{'] + body + spaces(0) + seq!['}'];
    let header = line_block(HEADER@, 14);
    assert(void(header)) by {
        lemma_header();
        lemma_line_block(HEADER@, 14, 0);
    }
    lemma_document(header, object, JsonView::Object(m));
    lemma_document_shape(
        header,
        host_text(c.dev_hosts, c.dev_hosts.len() as int),
        concat(blocks, blocks.len() as int),
        lock_text(c),
        hints_text(c, with_global_hints),
    );
    assert(config_document(c, with_global_hints) == header + object + seq!['\n']);
    lemma_config_object(c);
}

} // verus!

//! The colors of a prompt.
use sermcp::ansi_strip::{strip, strip_text, strip_with_offsets};
use sermcp::highlight::{
    bracket_parts, colon_parts, highlight_serial_prompt, prompt_line_spans,
};

fn highlighted(data: &[u8]) -> String {
    let mut out = Vec::new();
    highlight_serial_prompt(data, &mut out);
    String::from_utf8(out).unwrap()
}

#[test]
fn prompt_highlight_colors_user_dir_and_sigil() {
    let rendered = highlighted(b"root@dut1:/# ip -c a\r\n");
    assert!(rendered.contains("\x1b[1;32mroot@dut1\x1b[0m:"));
    assert!(rendered.contains("\x1b[1;34m/\x1b[0m"));
    assert!(rendered.contains("\x1b[1;37m# \x1b[0mip -c a"));
}

#[test]
fn prompt_highlight_handles_bracket_prompt() {
    let rendered = highlighted(b"[root@dut1 ~]# pwd\r\n");
    assert!(rendered.contains("[\x1b[1;32mroot@dut1\x1b[0m "));
    assert!(rendered.contains("\x1b[1;34m~\x1b[0m]"));
    assert!(rendered.contains("\x1b[1;37m# \x1b[0mpwd"));
}

#[test]
fn prompt_highlight_short_colon_prompt() {
    let rendered = highlighted(b"root@board-name:/# ls\r\n");
    assert!(rendered.contains("\x1b[1;32mroot@board-name\x1b[0m:"));
    assert!(rendered.contains("\x1b[1;34m/\x1b[0m"));
    assert!(rendered.contains("\x1b[1;37m# \x1b[0mls"));
}

#[test]
fn prompt_highlight_bracketed_paste_prefix() {
    let rendered = highlighted(b"\x1b[?2004hroot@board:/# ls\r\n");
    assert!(rendered.contains("\x1b[?2004h\x1b[1;32mroot@board\x1b[0m:"));
    assert!(rendered.contains("\x1b[1;34m/\x1b[0m"));
    assert!(rendered.contains("\x1b[1;37m# \x1b[0mls"));
}

#[test]
fn target_sgr_inside_prompt_is_preserved() {
    let rendered = highlighted(b"\x1b[32mroot@dut1\x1b[0m:/# ls\r\n");
    assert!(
        rendered.contains("\x1b[32m\x1b[1;32mroot@dut1\x1b[0m\x1b[0m:"),
        "original target SGR survives inside the colored span: {rendered:?}"
    );
    assert!(rendered.contains("\x1b[1;37m# \x1b[0mls"));
    let stripped = strip(rendered.as_bytes());
    assert_eq!(stripped, strip(b"\x1b[32mroot@dut1\x1b[0m:/# ls\r\n"));
}

#[test]
fn target_sgr_in_tail_is_preserved() {
    let rendered = highlighted(b"root@dut1:/# ip -c a\x1b[m\r\n");
    assert!(rendered.contains("\x1b[1;37m# \x1b[0mip -c a\x1b[m"));
}

#[test]
fn prompt_highlight_does_not_color_non_prompt_lines() {
    let rendered = highlighted(b"[    0.000] Booting Linux\n");
    assert!(!rendered.contains("\x1b["));
}

#[test]
fn parts_that_overlap_are_no_prompt() {
    let mut out = b"x".to_vec();
    highlight_serial_prompt(b"a:# $ x\nroot@dut1:/# ls\n", &mut out);
    assert_eq!(
        out,
        b"xa:# $ x\n\x1b[1;32mroot@dut1\x1b[0m:\x1b[1;34m/\x1b[0m\x1b[1;37m# \x1b[0mls\n".to_vec()
    );
    assert_eq!(prompt_line_spans(b"a:# $ x"), None);
    assert!(colon_parts(b"a@b:/# ", Some((0, 3)), Some((4, 6)), Some((5, 7))).is_none());
    assert!(colon_parts(b"a@b:/# ", Some((0, 3)), Some((4, 5)), Some((5, 9))).is_none());
}

#[test]
fn colors_leave_the_text_of_every_chunk() {
    let chunks: [&[u8]; 6] = [
        b"root@dut1:/# ls\r\nfile\n[root@dut1 ~]# pwd\n",
        b"\x1b[\nroot@dut1:/# \x1b]0;t\nroot@dut1:/tmp$ ",
        b"\x1b\n\xff\xfe\n\n",
        b"\x1b[32mroot@dut1\x1b[0m:/# \x1b",
        b"",
        b"no line end",
    ];
    for chunk in chunks {
        let mut out = Vec::new();
        highlight_serial_prompt(chunk, &mut out);
        assert_eq!(strip(&out), strip(chunk), "{chunk:?}");
    }
}

#[test]
fn chunk_without_prompts_goes_through() {
    let data = b"[    0.000] Booting\r\n\x1b[31mred\x1b[0m\n\xff";
    let mut out = Vec::new();
    highlight_serial_prompt(data, &mut out);
    assert_eq!(out, data.to_vec());
}

#[test]
fn escape_sequence_ends_before_a_line_feed() {
    assert_eq!(strip(b"\x1b[12\nx"), b"\nx".to_vec());
    assert_eq!(strip(b"\x1b]0;t\nx\x07"), b"\nx\x07".to_vec());
    assert_eq!(strip(b"\x1b\nx"), b"\nx".to_vec());
}

#[test]
fn every_line_of_a_chunk_is_looked_at() {
    let rendered = highlighted(b"one\r\nroot@dut1:/# \r\ntwo\n");
    assert!(rendered.starts_with("one\r\n\x1b[1;32mroot@dut1"), "{rendered:?}");
    assert!(rendered.ends_with("\r\ntwo\n"), "{rendered:?}");
}

#[test]
fn spans_of_a_colon_prompt() {
    let (user, dir, sigil) = prompt_line_spans(b"root@dut1:/# ls").unwrap();
    assert_eq!((user, dir, sigil), (0..9, 10..11, 11..13));
    assert_eq!(prompt_line_spans(b"plain text"), None);
    assert_eq!(prompt_line_spans(b""), None);
    assert_eq!(prompt_line_spans(b"\xff\xfe:/# "), None);
    assert_eq!(prompt_line_spans(b"\nroot@dut1:/# ls"), None);
}

#[test]
fn parts_take_what_the_patterns_found() {
    let p = colon_parts(b"a@b:/# ", Some((0, 3)), Some((4, 5)), Some((5, 7)));
    assert!(p.is_some());
    assert!(colon_parts(b"a@b:/# ", None, Some((4, 5)), Some((5, 7))).is_none());
    assert!(colon_parts(b"a@b:/# ", Some((0, 3)), Some((3, 5)), Some((5, 7))).is_none());
    assert!(bracket_parts(b"[a@b ~]# ", Some((1, 4)), Some((5, 6)), Some((7, 9))).is_some());
    assert!(bracket_parts(b"(a@b ~]# ", Some((1, 4)), Some((5, 6)), Some((7, 9))).is_none());
}

// ── Escape sequences ─────────────────────────────────────────────────

#[test]
fn escape_sequences_are_left_out() {
    assert_eq!(strip(b"a\x1b[1;32mb\x1b[0mc"), b"abc".to_vec());
    assert_eq!(strip(b"\x1b]0;title\x07x"), b"x".to_vec());
    assert_eq!(strip_text("a\u{1b}[31mé\u{1b}[0m"), "aé");
    assert_eq!(strip(b""), b"".to_vec());
}

#[test]
fn stripping_twice_is_stripping_once() {
    let once = strip(b"\x1b[2Jx\x1b[0my");
    assert_eq!(strip(&once), once);
}

#[test]
fn offsets_say_where_each_byte_stood() {
    let (clean, at) = strip_with_offsets(b"a\x1b[0mb");
    assert_eq!(clean, b"ab".to_vec());
    assert_eq!(at[0], 0);
    assert_eq!(at[1], 5);
}

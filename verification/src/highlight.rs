//! Colors for the shell prompts in serial output.
//!
//! The colors are laid over the bytes: escape sequences are put in between,
//! and no byte that the board sent is changed or lost.
use crate::ansi_strip::{
    byte_codes, inserted, is_control, kept, lemma_inserted_strips_away, lemma_kept,
    lemma_kept_is_reached, lemma_line_feed_is_kept, lemma_lines_strip_apart, lemma_same_head,
    positions, reaches, strip_with_offsets, stripped,
};
use std::ops::Range;
use vstd::prelude::*;
use vstd::utf8::{decode_utf8, encode_utf8, valid_utf8};

verus! {

// ── Patterns ─────────────────────────────────────────────────────────
/// The user of `user@host:/path$ `.
pub const COLON_USER: &'static str =
    "^[^/#\\-\\s]\\S*\\s?[^\\s.:\\[\\]]*?(?=:\\S[^\\r\\n$#]*[$#]\\s)";

/// The directory of `user@host:/path$ `.
pub const COLON_DIR: &'static str = "(?<=:)\\S[^\\r\\n$#]*?(?=[$#]\\s)";

/// The sign of `user@host:/path$ `.
pub const COLON_SIGIL: &'static str = "(?<=\\S)[$#]\\s";

/// The user of `[user@host /path]# `.
pub const BRACKET_USER: &'static str =
    "(?<=^\\[)[^/#\\-\\s]\\S*\\s?[^\\s.\\[\\]]+?(?=\\s+\\S[^\\[\\]\\r\\n]*\\][$#]\\s)";

/// The directory of `[user@host /path]# `.
pub const BRACKET_DIR: &'static str = "(?<=\\s)\\S[^\\]\\r\\n]*?(?=\\][$#]\\s)";

/// The sign of `[user@host /path]# `.
pub const BRACKET_SIGIL: &'static str = "(?<=\\])[$#]\\s";

/// A range of positions: where it begins, and where it ends.
pub type Span = (int, int);

/// Where a pattern first matches in a text, in bytes.
pub uninterp spec fn first_match(pattern: Seq<char>, text: Seq<char>) -> Option<Span>;

/// The meaning of an optional range.
pub open spec fn span_of(r: Option<(usize, usize)>) -> Option<Span> {
    match r {
        Some((a, b)) => Some((a as int, b as int)),
        None => None,
    }
}

/// `fancy_regex::Regex::find` of the compiled pattern: the bytes of the first
/// match, which lie within the text; none where there is no match, where the
/// pattern cannot be compiled, or where the search is given up. Which bytes
/// match is a matter of the pattern and the text alone, and is not stated.
#[verifier::external_body]
fn find(pattern: &str, text: &str) -> (r: Option<(usize, usize)>)
    ensures
        span_of(r) == first_match(pattern@, text@),
        match r {
            Some((a, b)) => a <= b && b <= encode_utf8(text@).len(),
            None => true,
        },
{
    let re = fancy_regex::Regex::new(pattern).ok()?;
    re.find(text).ok().flatten().map(|m| (m.start(), m.end()))
}

/// `std::str::from_utf8`: the text that the bytes encode, if they are UTF-8.
#[verifier::external_body]
fn utf8_text(v: &[u8]) -> (r: Option<&str>)
    ensures
        match r {
            Some(s) => valid_utf8(v@) && s@ == decode_utf8(v@),
            None => !valid_utf8(v@),
        },
{
    std::str::from_utf8(v).ok()
}

// ── The parts of a prompt ────────────────────────────────────────────
/// A space, a tab, a line feed, a form feed or a carriage return.
pub open spec fn blank_byte(b: u8) -> bool {
    b == 0x20 || b == 0x09 || b == 0x0a || b == 0x0c || b == 0x0d
}

/// A control code.
pub open spec fn control_byte(b: u8) -> bool {
    b < 0x20 || b == 0x7f
}

/// An ASCII letter or digit.
pub open spec fn word_byte(b: u8) -> bool {
    0x30 <= b <= 0x39 || 0x41 <= b <= 0x5a || 0x61 <= b <= 0x7a
}

/// What may stand in the user of a prompt: no control code, and none of `:`,
/// `[`, `]`, `/` and `#`.
pub open spec fn user_byte(b: u8) -> bool {
    !control_byte(b) && b != 0x3a && b != 0x5b && b != 0x5d && b != 0x2f && b != 0x23
}

/// What may stand in the directory of a prompt: no control code, no bracket.
pub open spec fn dir_byte(b: u8) -> bool {
    !control_byte(b) && b != 0x5b && b != 0x5d
}

/// Whether the bytes can be the user of a prompt.
pub open spec fn is_user(s: Seq<u8>) -> bool {
    &&& s.len() > 0
    &&& s[0] != 0x2f && s[0] != 0x23 && s[0] != 0x2d && s[0] != 0x20 && s[0] != 0x09
    &&& forall|i: int| 0 <= i < s.len() ==> user_byte(#[trigger] s[i])
    &&& exists|i: int| 0 <= i < s.len() && word_byte(#[trigger] s[i])
}

/// Whether the bytes can be the directory of a prompt.
pub open spec fn is_dir(s: Seq<u8>) -> bool {
    &&& s.len() > 0
    &&& !blank_byte(s[0])
    &&& forall|i: int| 0 <= i < s.len() ==> dir_byte(#[trigger] s[i])
}

/// Whether the bytes from `from` to `to` can be the user of a prompt.
fn valid_prompt_user(s: &[u8], from: usize, to: usize) -> (r: bool)
    requires
        from <= to <= s@.len(),
    ensures
        r == is_user(s@.subrange(from as int, to as int)),
{
    let ghost u = s@.subrange(from as int, to as int);
    if from == to {
        return false;
    }
    assert(u[0] == s@[from as int]);
    let b = s[from];
    if b == 0x2f || b == 0x23 || b == 0x2d || b == 0x20 || b == 0x09 {
        return false;
    }
    let mut word = false;
    let mut i: usize = from;
    while i < to
        invariant
            from <= i <= to <= s@.len(),
            u == s@.subrange(from as int, to as int),
            forall|k: int| 0 <= k < i - from ==> user_byte(#[trigger] u[k]),
            word == (exists|k: int| 0 <= k < i - from && word_byte(#[trigger] u[k])),
        decreases to - i,
    {
        let b = s[i];
        assert(u[i - from] == b);
        if b < 0x20 || b == 0x7f || b == 0x3a || b == 0x5b || b == 0x5d || b == 0x2f || b == 0x23 {
            return false;
        }
        if (0x30 <= b && b <= 0x39) || (0x41 <= b && b <= 0x5a) || (0x61 <= b && b <= 0x7a) {
            word = true;
        }
        i += 1;
    }
    word
}

/// Whether the bytes from `from` to `to` can be the directory of a prompt.
fn valid_prompt_dir(s: &[u8], from: usize, to: usize) -> (r: bool)
    requires
        from <= to <= s@.len(),
    ensures
        r == is_dir(s@.subrange(from as int, to as int)),
{
    let ghost d = s@.subrange(from as int, to as int);
    if from == to {
        return false;
    }
    assert(d[0] == s@[from as int]);
    let b = s[from];
    if b == 0x20 || b == 0x09 || b == 0x0a || b == 0x0c || b == 0x0d {
        return false;
    }
    let mut i: usize = from;
    while i < to
        invariant
            from <= i <= to <= s@.len(),
            d == s@.subrange(from as int, to as int),
            forall|k: int| 0 <= k < i - from ==> dir_byte(#[trigger] d[k]),
        decreases to - i,
    {
        let b = s[i];
        assert(d[i - from] == b);
        if b < 0x20 || b == 0x7f || b == 0x5b || b == 0x5d {
            return false;
        }
        i += 1;
    }
    true
}

/// The parts of a prompt, as ranges of the line without its escapes.
pub ghost struct Parts {
    pub user: Span,
    pub dir: Span,
    pub sigil: Span,
}

/// The parts of a prompt.
#[derive(Clone, Copy, Debug)]
pub struct PromptParts {
    pub user: (usize, usize),
    pub dir: (usize, usize),
    pub sigil: (usize, usize),
}

impl View for PromptParts {
    type V = Parts;

    open spec fn view(&self) -> Parts {
        Parts {
            user: (self.user.0 as int, self.user.1 as int),
            dir: (self.dir.0 as int, self.dir.1 as int),
            sigil: (self.sigil.0 as int, self.sigil.1 as int),
        }
    }
}

/// The meaning of an optional list of parts.
pub open spec fn parts_view(r: Option<PromptParts>) -> Option<Parts> {
    match r {
        Some(p) => Some(p@),
        None => None,
    }
}

/// Whether three ranges lie within `n` positions and follow one another, none
/// of them empty, with something between the first two.
pub open spec fn in_turn(u: Span, d: Span, s: Span, n: int) -> bool {
    0 <= u.0 < u.1 < d.0 < d.1 <= s.0 < s.1 <= n
}

/// The parts of a prompt with a colon, given where its patterns match. Parts
/// that overlap are no prompt.
pub open spec fn colon_parts_of(
    text: Seq<u8>,
    user: Option<Span>,
    dir: Option<Span>,
    sigil: Option<Span>,
) -> Option<Parts> {
    match (user, dir, sigil) {
        (Some(u), Some(d), Some(s)) => if in_turn(u, d, s, text.len() as int) && text.subrange(
            u.1,
            d.0,
        ) == seq![0x3au8] && is_user(text.subrange(u.0, u.1)) && is_dir(text.subrange(d.0, d.1)) {
            Some(Parts { user: u, dir: d, sigil: s })
        } else {
            None
        },
        _ => None,
    }
}

/// The parts of a prompt with a colon, given where its patterns match.
pub fn colon_parts(
    text: &[u8],
    user: Option<(usize, usize)>,
    dir: Option<(usize, usize)>,
    sigil: Option<(usize, usize)>,
) -> (r: Option<PromptParts>)
    ensures
        parts_view(r) == colon_parts_of(text@, span_of(user), span_of(dir), span_of(sigil)),
{
    match (user, dir, sigil) {
        (Some(u), Some(d), Some(s)) => {
            if !follow(u, d, s, text.len()) {
                return None;
            }
            let ghost between = text@.subrange(u.1 as int, d.0 as int);
            if d.0 - u.1 != 1 || text[u.1] != 0x3a {
                proof {
                    if between == seq![0x3au8] {
                        assert(between.len() == 1 && between[0] == 0x3a);
                        assert(between[0] == text@[u.1 as int]);
                    }
                }
                return None;
            }
            assert(between =~= seq![0x3au8]);
            if !valid_prompt_user(text, u.0, u.1) || !valid_prompt_dir(text, d.0, d.1) {
                return None;
            }
            Some(PromptParts { user: u, dir: d, sigil: s })
        },
        _ => None,
    }
}

fn follow(u: (usize, usize), d: (usize, usize), s: (usize, usize), n: usize) -> (r: bool)
    ensures
        r == in_turn(
            (u.0 as int, u.1 as int),
            (d.0 as int, d.1 as int),
            (s.0 as int, s.1 as int),
            n as int,
        ),
{
    u.0 < u.1 && u.1 < d.0 && d.0 < d.1 && d.1 <= s.0 && s.0 < s.1 && s.1 <= n
}

/// The parts of a prompt in brackets, given where its patterns match. Parts
/// that overlap are no prompt.
pub open spec fn bracket_parts_of(
    text: Seq<u8>,
    user: Option<Span>,
    dir: Option<Span>,
    sigil: Option<Span>,
) -> Option<Parts> {
    match (user, dir, sigil) {
        (Some(u), Some(d), Some(s)) => if in_turn(u, d, s, text.len() as int) && text[0] == 0x5b && (
        forall|i: int| u.1 <= i < d.0 ==> blank_byte(#[trigger] text[i])) && text.subrange(d.1, s.0)
            == seq![0x5du8] && is_user(text.subrange(u.0, u.1)) && is_dir(text.subrange(d.0, d.1)) {
            Some(Parts { user: u, dir: d, sigil: s })
        } else {
            None
        },
        _ => None,
    }
}

/// The parts of a prompt in brackets, given where its patterns match.
pub fn bracket_parts(
    text: &[u8],
    user: Option<(usize, usize)>,
    dir: Option<(usize, usize)>,
    sigil: Option<(usize, usize)>,
) -> (r: Option<PromptParts>)
    ensures
        parts_view(r) == bracket_parts_of(text@, span_of(user), span_of(dir), span_of(sigil)),
{
    match (user, dir, sigil) {
        (Some(u), Some(d), Some(s)) => {
            if !follow(u, d, s, text.len()) || text[0] != 0x5b {
                return None;
            }
            let mut i: usize = u.1;
            while i < d.0
                invariant
                    u.1 <= i <= d.0 <= text@.len(),
                    user == Some(u),
                    dir == Some(d),
                    sigil == Some(s),
                    forall|k: int| u.1 <= k < i ==> blank_byte(#[trigger] text@[k]),
                decreases d.0 - i,
            {
                let b = text[i];
                if !(b == 0x20 || b == 0x09 || b == 0x0a || b == 0x0c || b == 0x0d) {
                    assert(!blank_byte(text@[i as int]));
                    return None;
                }
                i += 1;
            }
            let ghost between = text@.subrange(d.1 as int, s.0 as int);
            if s.0 - d.1 != 1 || text[d.1] != 0x5d {
                proof {
                    if between == seq![0x5du8] {
                        assert(between.len() == 1 && between[0] == 0x5d);
                        assert(between[0] == text@[d.1 as int]);
                    }
                }
                return None;
            }
            assert(between =~= seq![0x5du8]);
            if !valid_prompt_user(text, u.0, u.1) || !valid_prompt_dir(text, d.0, d.1) {
                return None;
            }
            Some(PromptParts { user: u, dir: d, sigil: s })
        },
        _ => None,
    }
}

/// Where the first carriage return or line feed at or after `i` stands.
pub open spec fn text_end(s: Seq<u8>, i: int) -> int
    decreases s.len() - i,
{
    if i < 0 || i >= s.len() || s[i] == 0x0d || s[i] == 0x0a {
        i
    } else {
        text_end(s, i + 1)
    }
}

proof fn lemma_text_end(s: Seq<u8>, i: int)
    requires
        0 <= i <= s.len(),
    ensures
        i <= text_end(s, i) <= s.len(),
        forall|k: int| i <= k < text_end(s, i) ==> s[k] != 0x0d && s[k] != 0x0a,
    decreases s.len() - i,
{
    if i < s.len() && s[i] != 0x0d && s[i] != 0x0a {
        lemma_text_end(s, i + 1);
    }
}

/// The parts of the prompt on a line without escapes, if it is one. They lie
/// before the first carriage return or line feed.
pub open spec fn parts_of(clean: Seq<u8>) -> Option<Parts> {
    let head = clean.take(text_end(clean, 0));
    if head.len() == 0 || !valid_utf8(head) {
        None
    } else {
        let text = decode_utf8(head);
        let colon = colon_parts_of(
            head,
            first_match(COLON_USER@, text),
            first_match(COLON_DIR@, text),
            first_match(COLON_SIGIL@, text),
        );
        if colon is Some {
            colon
        } else {
            bracket_parts_of(
                head,
                first_match(BRACKET_USER@, text),
                first_match(BRACKET_DIR@, text),
                first_match(BRACKET_SIGIL@, text),
            )
        }
    }
}

/// Whether the parts lie within `n` positions and follow one another.
pub open spec fn parts_within(p: Parts, n: int) -> bool {
    in_turn(p.user, p.dir, p.sigil, n)
}

/// The parts of a prompt follow one another, and lie before the first carriage
/// return or line feed.
pub proof fn lemma_parts_in_turn(clean: Seq<u8>)
    ensures
        parts_of(clean) matches Some(p) ==> parts_within(p, text_end(clean, 0)),
        0 <= text_end(clean, 0) <= clean.len(),
{
    lemma_text_end(clean, 0);
}

fn prompt_parts_from(clean: &[u8]) -> (r: Option<PromptParts>)
    ensures
        parts_view(r) == parts_of(clean@),
{
    let mut end: usize = 0;
    while end < clean.len() && clean[end] != 0x0d && clean[end] != 0x0a
        invariant
            end <= clean@.len(),
            text_end(clean@, end as int) == text_end(clean@, 0),
        decreases clean@.len() - end,
    {
        end += 1;
    }
    assert(text_end(clean@, 0) == end);
    let head = vstd::slice::slice_subrange(clean, 0, end);
    assert(head@ =~= clean@.take(end as int));
    if head.len() == 0 {
        return None;
    }
    let text = match utf8_text(head) {
        Some(t) => t,
        None => {
            return None;
        },
    };
    let user = find(COLON_USER, text);
    let dir = find(COLON_DIR, text);
    let sigil = find(COLON_SIGIL, text);
    let colon = colon_parts(head, user, dir, sigil);
    if colon.is_some() {
        return colon;
    }
    let user = find(BRACKET_USER, text);
    let dir = find(BRACKET_DIR, text);
    let sigil = find(BRACKET_SIGIL, text);
    bracket_parts(head, user, dir, sigil)
}

/// The parts of the prompt on a line without escapes: the user, the directory
/// and the sign, as ranges of bytes. They follow one another, and end before
/// the first carriage return or line feed. A line that is empty, or no UTF-8
/// up to there, has none.
pub fn prompt_line_spans(clean: &[u8]) -> (r: Option<(Range<usize>, Range<usize>, Range<usize>)>)
    ensures
        match r {
            Some((u, d, s)) => {
                &&& parts_of(clean@) == Some(
                    Parts {
                        user: (u.start as int, u.end as int),
                        dir: (d.start as int, d.end as int),
                        sigil: (s.start as int, s.end as int),
                    },
                )
                &&& u.start < u.end < d.start < d.end <= s.start < s.end <= text_end(clean@, 0)
                &&& valid_utf8(clean@.take(text_end(clean@, 0)))
            },
            None => parts_of(clean@) is None,
        },
        text_end(clean@, 0) == 0 ==> r is None,
        !valid_utf8(clean@.take(text_end(clean@, 0))) ==> r is None,
{
    proof {
        lemma_parts_in_turn(clean@);
    }
    match prompt_parts_from(clean) {
        Some(p) => Some(
            (
                Range { start: p.user.0, end: p.user.1 },
                Range { start: p.dir.0, end: p.dir.1 },
                Range { start: p.sigil.0, end: p.sigil.1 },
            ),
        ),
        None => None,
    }
}

// ── The overlay ──────────────────────────────────────────────────────
/// Bold green.
pub const GREEN_BOLD: [u8; 7] = [0x1b, 0x5b, 0x31, 0x3b, 0x33, 0x32, 0x6d];

/// Bold blue.
pub const BLUE_BOLD: [u8; 7] = [0x1b, 0x5b, 0x31, 0x3b, 0x33, 0x34, 0x6d];

/// Bold white.
pub const WHITE_BOLD: [u8; 7] = [0x1b, 0x5b, 0x31, 0x3b, 0x33, 0x37, 0x6d];

/// No color any more.
pub const RESET: [u8; 4] = [0x1b, 0x5b, 0x30, 0x6d];

/// The range of the line that a range of the line without its escapes came
/// from; none for a range that is empty or reaches too far.
pub open spec fn original_span_of(offsets: Seq<int>, r: Span) -> Option<Span> {
    if r.0 >= r.1 || r.1 > offsets.len() {
        None
    } else {
        Some((offsets[r.0], offsets[r.1 - 1] + 1))
    }
}

fn original_span(offsets: &Vec<usize>, r: (usize, usize)) -> (o: Option<(usize, usize)>)
    requires
        forall|k: int| 0 <= k < offsets@.len() ==> (#[trigger] offsets@[k]) < usize::MAX,
    ensures
        span_of(o) == original_span_of(positions(offsets@), (r.0 as int, r.1 as int)),
{
    if r.0 >= r.1 || r.1 > offsets.len() {
        return None;
    }
    Some((offsets[r.0], offsets[r.1 - 1] + 1))
}

/// The ranges of a line that are colored, if it is a prompt.
pub open spec fn line_spans(line: Seq<u8>) -> Option<(Span, Span, Span)> {
    let offsets = kept(byte_codes(line));
    match parts_of(stripped(line)) {
        Some(p) => match (
            original_span_of(offsets, p.user),
            original_span_of(offsets, p.dir),
            original_span_of(offsets, p.sigil),
        ) {
            (Some(u), Some(d), Some(s)) => Some((u, d, s)),
            _ => None,
        },
        None => None,
    }
}

/// A line with the colors of a prompt.
pub open spec fn colored(line: Seq<u8>, u: Span, d: Span, s: Span) -> Seq<u8> {
    line.subrange(0, u.0) + GREEN_BOLD@ + line.subrange(u.0, u.1) + RESET@ + line.subrange(u.1, d.0)
        + BLUE_BOLD@ + line.subrange(d.0, d.1) + RESET@ + line.subrange(d.1, s.0) + WHITE_BOLD@
        + line.subrange(s.0, s.1) + RESET@ + line.subrange(s.1, line.len() as int)
}

/// A line, with colors if it is a prompt.
pub open spec fn highlighted_line(line: Seq<u8>) -> Seq<u8> {
    match line_spans(line) {
        Some((u, d, s)) => colored(line, u, d, s),
        None => line,
    }
}

/// Where the line that goes on at `i` ends: behind its line feed.
pub open spec fn line_stop(data: Seq<u8>, i: int) -> int
    decreases data.len() - i,
{
    if i < 0 || i >= data.len() {
        data.len() as int
    } else if data[i] == 0x0a {
        i + 1
    } else {
        line_stop(data, i + 1)
    }
}

proof fn lemma_line_stop(data: Seq<u8>, i: int)
    requires
        0 <= i < data.len(),
    ensures
        i < line_stop(data, i) <= data.len(),
        line_stop(data, i) < data.len() ==> data[line_stop(data, i) - 1] == 0x0a,
    decreases data.len() - i,
{
    if data[i] != 0x0a {
        if i + 1 < data.len() {
            lemma_line_stop(data, i + 1);
        } else {
            assert(line_stop(data, i + 1) == data.len());
        }
    }
}

/// The bytes from `i` on, their prompts with colors.
pub open spec fn highlighted_from(data: Seq<u8>, i: int) -> Seq<u8>
    decreases data.len() - i,
{
    let e = line_stop(data, i);
    if i < 0 || i >= data.len() || e <= i || e > data.len() {
        Seq::empty()
    } else {
        highlighted_line(data.subrange(i, e)) + highlighted_from(data, e)
    }
}

/// The bytes, their prompts with colors.
pub open spec fn highlighted(data: Seq<u8>) -> Seq<u8> {
    highlighted_from(data, 0)
}

fn put(out: &mut Vec<u8>, s: &[u8], from: usize, to: usize)
    requires
        from <= to <= s@.len(),
    ensures
        final(out)@ == old(out)@ + s@.subrange(from as int, to as int),
{
    let mut i: usize = from;
    while i < to
        invariant
            from <= i <= to <= s@.len(),
            out@ == old(out)@ + s@.subrange(from as int, i as int),
        decreases to - i,
    {
        out.push(s[i]);
        assert(out@ =~= old(out)@ + s@.subrange(from as int, i + 1));
        i += 1;
    }
    assert(out@ =~= old(out)@ + s@.subrange(from as int, to as int));
}

/// The ranges of a line that are colored lie in it and follow one another, and
/// no line feed stands before their end.
proof fn lemma_spans_within(line: Seq<u8>)
    ensures
        match line_spans(line) {
            Some((u, d, s)) => {
                &&& 0 <= u.0 < u.1 <= d.0 < d.1 <= s.0 < s.1 <= line.len()
                &&& forall|j: int| 0 <= j < s.1 ==> line[j] != 0x0a
            },
            None => true,
        },
{
    let codes = byte_codes(line);
    let offsets = kept(codes);
    let clean = stripped(line);
    lemma_kept(codes);
    lemma_parts_in_turn(clean);
    lemma_text_end(clean, 0);
    assert(clean.len() == offsets.len());
    if let Some((u, d, s)) = line_spans(line) {
        let p = parts_of(clean)->0;
        assert(offsets[p.user.0] <= offsets[p.user.1 - 1]);
        assert(offsets[p.user.1 - 1] < offsets[p.dir.0]);
        assert(offsets[p.dir.0] <= offsets[p.dir.1 - 1]);
        assert(offsets[p.dir.1 - 1] < offsets[p.sigil.0]);
        assert(offsets[p.sigil.0] <= offsets[p.sigil.1 - 1]);
        assert forall|j: int| 0 <= j < s.1 implies line[j] != 0x0a by {
            if line[j] == 0x0a {
                assert(codes[j] == 0x0a);
                let k = lemma_line_feed_is_kept(codes, j);
                let l = p.sigil.1 - 1;
                if k > l {
                    assert(offsets[l] < offsets[k]);
                }
                assert(clean[k] == line[offsets[k]]);
            }
        }
    }
}

/// The ranges of a line that are colored, if it is a prompt.
fn find_spans(line: &[u8]) -> (r: Option<((usize, usize), (usize, usize), (usize, usize))>)
    ensures
        match r {
            Some((u, d, s)) => line_spans(line@) == Some(
                (
                    (u.0 as int, u.1 as int),
                    (d.0 as int, d.1 as int),
                    (s.0 as int, s.1 as int),
                ),
            ) && u.0 < u.1 <= d.0 < d.1 <= s.0 < s.1 <= line@.len(),
            None => line_spans(line@) is None,
        },
{
    let n: usize = line.len();
    let (clean, offsets) = strip_with_offsets(line);
    let parts = match prompt_parts_from(clean.as_slice()) {
        Some(p) => p,
        None => {
            return None;
        },
    };
    proof {
        lemma_kept(byte_codes(line@));
        lemma_spans_within(line@);
        assert forall|k: int| 0 <= k < offsets@.len() implies (#[trigger] offsets@[k])
            < usize::MAX by {
            assert(positions(offsets@)[k] == offsets@[k]);
            assert(kept(byte_codes(line@))[k] < line@.len());
        }
    }
    let user = original_span(&offsets, parts.user);
    let dir = original_span(&offsets, parts.dir);
    let sigil = original_span(&offsets, parts.sigil);
    match (user, dir, sigil) {
        (Some(u), Some(d), Some(s)) => Some((u, d, s)),
        _ => None,
    }
}

fn color_line(
    line: &[u8],
    u: (usize, usize),
    d: (usize, usize),
    s: (usize, usize),
    out: &mut Vec<u8>,
)
    requires
        u.0 <= u.1 <= d.0 <= d.1 <= s.0 <= s.1 <= line@.len(),
    ensures
        final(out)@ == old(out)@ + colored(
            line@,
            (u.0 as int, u.1 as int),
            (d.0 as int, d.1 as int),
            (s.0 as int, s.1 as int),
        ),
{
    put(out, line, 0, u.0);
    put(out, &GREEN_BOLD, 0, 7);
    put(out, line, u.0, u.1);
    put(out, &RESET, 0, 4);
    put(out, line, u.1, d.0);
    put(out, &BLUE_BOLD, 0, 7);
    put(out, line, d.0, d.1);
    put(out, &RESET, 0, 4);
    put(out, line, d.1, s.0);
    put(out, &WHITE_BOLD, 0, 7);
    put(out, line, s.0, s.1);
    put(out, &RESET, 0, 4);
    put(out, line, s.1, line.len());
    assert(GREEN_BOLD@.subrange(0, 7) =~= GREEN_BOLD@);
    assert(BLUE_BOLD@.subrange(0, 7) =~= BLUE_BOLD@);
    assert(WHITE_BOLD@.subrange(0, 7) =~= WHITE_BOLD@);
    assert(RESET@.subrange(0, 4) =~= RESET@);
    assert(out@ =~= old(out)@ + colored(
        line@,
        (u.0 as int, u.1 as int),
        (d.0 as int, d.1 as int),
        (s.0 as int, s.1 as int),
    ));
}

fn highlight_serial_prompt_line(line: &[u8], out: &mut Vec<u8>)
    ensures
        final(out)@ == old(out)@ + highlighted_line(line@),
{
    match find_spans(line) {
        Some((u, d, s)) => color_line(line, u, d, s, out),
        None => {
            put(out, line, 0, line.len());
            assert(line@.subrange(0, line@.len() as int) =~= line@);
        },
    }
}

fn find_line_stop(data: &[u8], i: usize) -> (r: usize)
    requires
        i < data@.len(),
    ensures
        r == line_stop(data@, i as int),
        i < r <= data@.len(),
{
    proof {
        lemma_line_stop(data@, i as int);
    }
    let mut k: usize = i;
    while k < data.len()
        invariant
            k <= data@.len(),
            line_stop(data@, k as int) == line_stop(data@, i as int),
            i < line_stop(data@, i as int) <= data@.len(),
        decreases data@.len() - k,
    {
        if data[k] == 0x0a {
            return k + 1;
        }
        k += 1;
    }
    k
}

/// Puts the bytes behind `out`, their prompts with colors.
pub fn highlight_serial_prompt(data: &[u8], out: &mut Vec<u8>)
    ensures
        final(out)@ == old(out)@ + highlighted(data@),
{
    let mut start: usize = 0;
    assert(out@ + highlighted_from(data@, 0) =~= old(out)@ + highlighted(data@));
    while start < data.len()
        invariant
            start <= data@.len(),
            out@ + highlighted_from(data@, start as int) == old(out)@ + highlighted(data@),
        decreases data@.len() - start,
    {
        let end = find_line_stop(data, start);
        let line = vstd::slice::slice_subrange(data, start, end);
        let ghost before = out@;
        highlight_serial_prompt_line(line, out);
        assert(before + (highlighted_line(line@) + highlighted_from(data@, end as int)) =~= out@
            + highlighted_from(data@, end as int));
        start = end;
    }
    assert(out@ + highlighted_from(data@, start as int) =~= out@);
}

// ── What the overlay keeps ───────────────────────────────────────────
proof fn lemma_color_step(line: Seq<u8>, a: int, b: int, code: Seq<u8>, rest: Seq<u8>)
    requires
        0 <= a <= b <= line.len(),
        line.len() <= b + rest.len(),
        reaches(line, 0, a),
        is_control(code),
        forall|j: int| 0 <= j < b ==> line[j] != 0x0a,
        a == b ==> rest == line.subrange(b, line.len() as int) || rest.len() > 0 && rest[0] != 0x0a,
    ensures
        stripped(line.subrange(0, a) + (code + line.subrange(a, b) + rest)) == stripped(
            line.subrange(0, b) + rest,
        ),
{
    let t = line.subrange(0, b) + rest;
    if a == b && rest == line.subrange(b, line.len() as int) {
        assert(t =~= line);
    } else {
        lemma_same_head(line, t, 0, a);
    }
    lemma_inserted_strips_away(t, a, code);
    assert(inserted(t, a, code) =~= line.subrange(0, a) + (code + line.subrange(a, b) + rest));
}

proof fn lemma_regroup(
    a: Seq<u8>,
    green: Seq<u8>,
    u: Seq<u8>,
    reset: Seq<u8>,
    c: Seq<u8>,
    blue: Seq<u8>,
    d: Seq<u8>,
    e: Seq<u8>,
    white: Seq<u8>,
    s: Seq<u8>,
    rest: Seq<u8>,
)
    ensures
        a + green + u + reset + c + blue + d + reset + e + white + s + reset + rest == a + (green
            + u + (reset + c + (blue + d + (reset + e + (white + s + (reset + rest)))))),
{
    assert(a + green + u + reset + c + blue + d + reset + e + white + s + reset + rest =~= a + (
    green + u + (reset + c + (blue + d + (reset + e + (white + s + (reset + rest)))))));
}

/// The colors of a prompt take no byte away, and stripping takes away no more
/// than them: with and without colors the same text is left.
#[verifier::rlimit(60)]
#[verifier::spinoff_prover]
proof fn lemma_colors_strip_away(line: Seq<u8>, u: Span, d: Span, s: Span)
    requires
        line_spans(line) == Some((u, d, s)),
    ensures
        stripped(colored(line, u, d, s)) == stripped(line),
{
    let offsets = kept(byte_codes(line));
    lemma_kept(byte_codes(line));
    lemma_spans_within(line);
    lemma_parts_in_turn(stripped(line));
    assert(stripped(line).len() == offsets.len());
    let p = parts_of(stripped(line))->0;
    lemma_kept_is_reached(line, p.user.0);
    lemma_kept_is_reached(line, p.user.1 - 1);
    lemma_kept_is_reached(line, p.dir.0);
    lemma_kept_is_reached(line, p.dir.1 - 1);
    lemma_kept_is_reached(line, p.sigil.0);
    lemma_kept_is_reached(line, p.sigil.1 - 1);
    let n = line.len() as int;
    let r0 = line.subrange(s.1, n);
    let r1 = RESET@ + line.subrange(s.1, s.1) + r0;
    let r2 = WHITE_BOLD@ + line.subrange(s.0, s.1) + r1;
    let r3 = RESET@ + line.subrange(d.1, s.0) + r2;
    let r4 = BLUE_BOLD@ + line.subrange(d.0, d.1) + r3;
    let r5 = RESET@ + line.subrange(u.1, d.0) + r4;
    assert(line =~= line.subrange(0, s.1) + r0);
    lemma_color_step(line, s.1, s.1, RESET@, r0);
    lemma_color_step(line, s.0, s.1, WHITE_BOLD@, r1);
    assert(r2[0] == 0x1b);
    lemma_color_step(line, d.1, s.0, RESET@, r2);
    lemma_color_step(line, d.0, d.1, BLUE_BOLD@, r3);
    assert(r4[0] == 0x1b);
    lemma_color_step(line, u.1, d.0, RESET@, r4);
    lemma_color_step(line, u.0, u.1, GREEN_BOLD@, r5);
    assert(r1 =~= RESET@ + r0);
    lemma_regroup(
        line.subrange(0, u.0),
        GREEN_BOLD@,
        line.subrange(u.0, u.1),
        RESET@,
        line.subrange(u.1, d.0),
        BLUE_BOLD@,
        line.subrange(d.0, d.1),
        line.subrange(d.1, s.0),
        WHITE_BOLD@,
        line.subrange(s.0, s.1),
        r0,
    );
}

/// A line keeps its text under the colors, and its line feed.
pub proof fn lemma_line_keeps_its_text(line: Seq<u8>)
    ensures
        stripped(highlighted_line(line)) == stripped(line),
        line.len() > 0 && line.last() == 0x0a ==> highlighted_line(line).len() > 0
            && highlighted_line(line).last() == 0x0a,
{
    if let Some((u, d, s)) = line_spans(line) {
        lemma_colors_strip_away(line, u, d, s);
        lemma_spans_within(line);
        if line.last() == 0x0a {
            let n = line.len() as int;
            if s.1 == n {
                assert(line[n - 1] != 0x0a);
            }
            let rest = line.subrange(s.1, n);
            assert(rest.last() == line.last());
            assert(colored(line, u, d, s).last() == rest.last());
        }
    }
}

proof fn lemma_keeps_from(data: Seq<u8>, i: int)
    requires
        0 <= i <= data.len(),
    ensures
        stripped(highlighted_from(data, i)) == stripped(data.skip(i)),
    decreases data.len() - i,
{
    if i < data.len() {
        lemma_line_stop(data, i);
        let e = line_stop(data, i);
        let line = data.subrange(i, e);
        let rest = highlighted_from(data, e);
        lemma_line_keeps_its_text(line);
        lemma_keeps_from(data, e);
        assert(data.skip(i) =~= line + data.skip(e));
        if line.last() == 0x0a {
            lemma_lines_strip_apart(line, data.skip(e));
            lemma_lines_strip_apart(highlighted_line(line), rest);
        } else {
            assert(data.skip(e) =~= Seq::empty());
            assert(rest =~= Seq::empty());
            assert(line + data.skip(e) =~= line);
            assert(highlighted_line(line) + rest =~= highlighted_line(line));
        }
    } else {
        assert(data.skip(i) =~= Seq::empty());
        assert(highlighted_from(data, i) =~= Seq::empty());
    }
}

/// The overlay is one of colors alone: without their escape sequences the bytes
/// with colors and those without are the same, whatever the bytes.
pub proof fn lemma_overlay_keeps_the_text(data: Seq<u8>)
    ensures
        stripped(highlighted(data)) == stripped(data),
{
    lemma_keeps_from(data, 0);
    assert(data.skip(0) =~= data);
}

/// Whether no line from `i` on is a prompt.
pub open spec fn no_prompts(data: Seq<u8>, i: int) -> bool
    decreases data.len() - i,
{
    let e = line_stop(data, i);
    if i < 0 || i >= data.len() || e <= i || e > data.len() {
        true
    } else {
        line_spans(data.subrange(i, e)) is None && no_prompts(data, e)
    }
}

proof fn lemma_no_prompts_from(data: Seq<u8>, i: int)
    requires
        0 <= i <= data.len(),
        no_prompts(data, i),
    ensures
        highlighted_from(data, i) == data.skip(i),
    decreases data.len() - i,
{
    if i < data.len() {
        lemma_line_stop(data, i);
        let e = line_stop(data, i);
        lemma_no_prompts_from(data, e);
        assert(data.skip(i) =~= data.subrange(i, e) + data.skip(e));
    } else {
        assert(data.skip(i) =~= Seq::empty());
    }
}

/// Bytes without prompts go through unchanged.
pub proof fn lemma_no_prompts_no_change(data: Seq<u8>)
    requires
        no_prompts(data, 0),
    ensures
        highlighted(data) == data,
{
    lemma_no_prompts_from(data, 0);
    assert(data.skip(0) =~= data);
}

} // verus!

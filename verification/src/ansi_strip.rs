//! Terminal escape sequences: where they stand, and what is left without them.
use crate::text::to_chars;
use vstd::prelude::*;

verus! {

/// The code of the escape character.
pub const ESC: u8 = 0x1b;

/// The codes of a sequence of bytes.
pub open spec fn byte_codes(s: Seq<u8>) -> Seq<int> {
    Seq::new(s.len(), |i: int| s[i] as int)
}

/// The codes of a text.
pub open spec fn text_codes(s: Seq<char>) -> Seq<int> {
    Seq::new(s.len(), |i: int| s[i] as u32 as int)
}

/// Where a control sequence ends whose parameters go on at `i`: behind its
/// final code, which is one from 0x40 to 0x7e, or before a line feed.
pub open spec fn control_end(s: Seq<int>, i: int) -> int
    decreases s.len() - i,
{
    if i >= s.len() {
        s.len() as int
    } else if s[i] == 0x0a {
        i
    } else if 0x40 <= s[i] <= 0x7e {
        i + 1
    } else {
        control_end(s, i + 1)
    }
}

/// Where a system command ends whose text goes on at `i`: behind a bell, or
/// behind an escape and a backslash, or before a line feed.
pub open spec fn command_end(s: Seq<int>, i: int) -> int
    decreases s.len() - i,
{
    if i >= s.len() {
        s.len() as int
    } else if s[i] == 0x0a {
        i
    } else if s[i] == 0x07 {
        i + 1
    } else if s[i] == 0x1b && i + 1 < s.len() && s[i + 1] == 0x5c {
        i + 2
    } else {
        command_end(s, i + 1)
    }
}

/// Where the escape sequence that begins at `i` ends: a control sequence
/// (`[`), a system command (`]`), or the escape and one code behind it. None
/// takes a line feed in.
pub open spec fn escape_end(s: Seq<int>, i: int) -> int {
    if i + 1 >= s.len() {
        s.len() as int
    } else if s[i + 1] == 0x0a {
        i + 1
    } else if s[i + 1] == 0x5b {
        control_end(s, i + 2)
    } else if s[i + 1] == 0x5d {
        command_end(s, i + 2)
    } else {
        i + 2
    }
}

proof fn lemma_control_end(s: Seq<int>, i: int)
    requires
        0 <= i <= s.len(),
    ensures
        i <= control_end(s, i) <= s.len(),
    decreases s.len() - i,
{
    if i < s.len() && s[i] != 0x0a && !(0x40 <= s[i] <= 0x7e) {
        lemma_control_end(s, i + 1);
    }
}

proof fn lemma_command_end(s: Seq<int>, i: int)
    requires
        0 <= i <= s.len(),
    ensures
        i <= command_end(s, i) <= s.len(),
        i < s.len() && s[i] != 0x0a ==> i < command_end(s, i),
    decreases s.len() - i,
{
    if i < s.len() && s[i] != 0x0a && s[i] != 0x07 && !(s[i] == 0x1b && i + 1 < s.len() && s[i + 1] == 0x5c) {
        lemma_command_end(s, i + 1);
    }
}

/// An escape sequence takes at least its escape, and ends within the text.
pub proof fn lemma_escape_end(s: Seq<int>, i: int)
    requires
        0 <= i < s.len(),
    ensures
        i < escape_end(s, i) <= s.len(),
{
    if i + 1 < s.len() {
        lemma_control_end(s, i + 2);
        lemma_command_end(s, i + 2);
    }
}

/// The positions from `i` on that belong to no escape sequence.
pub open spec fn kept_from(s: Seq<int>, i: int) -> Seq<int>
    decreases s.len() - i,
{
    if i < 0 || i >= s.len() {
        Seq::empty()
    } else if s[i] == 0x1b {
        let e = escape_end(s, i);
        if i < e <= s.len() {
            kept_from(s, e)
        } else {
            Seq::empty()
        }
    } else {
        seq![i] + kept_from(s, i + 1)
    }
}

/// The positions that belong to no escape sequence.
pub open spec fn kept(s: Seq<int>) -> Seq<int> {
    kept_from(s, 0)
}

proof fn lemma_kept_from(s: Seq<int>, i: int)
    requires
        0 <= i <= s.len(),
    ensures
        forall|k: int|
            0 <= k < kept_from(s, i).len() ==> i <= (#[trigger] kept_from(s, i)[k]) < s.len()
                && s[kept_from(s, i)[k]] != 0x1b,
        forall|k: int, l: int|
            0 <= k < l < kept_from(s, i).len() ==> (#[trigger] kept_from(s, i)[k])
                < #[trigger] kept_from(s, i)[l],
    decreases s.len() - i,
{
    if i < s.len() {
        if s[i] == 0x1b {
            lemma_escape_end(s, i);
            lemma_kept_from(s, escape_end(s, i));
            assert(kept_from(s, i) == kept_from(s, escape_end(s, i)));
        } else {
            lemma_kept_from(s, i + 1);
            let rest = kept_from(s, i + 1);
            let all = kept_from(s, i);
            assert(all == seq![i] + rest);
            assert forall|k: int| 0 <= k < all.len() implies i <= (#[trigger] all[k]) < s.len()
                && s[all[k]] != 0x1b && (k > 0 ==> i < all[k]) by {
                if k > 0 {
                    assert(all[k] == rest[k - 1]);
                }
            }
            assert forall|k: int, l: int| 0 <= k < l < all.len() implies (#[trigger] all[k])
                < #[trigger] all[l] by {
                if k > 0 {
                    assert(all[k] == rest[k - 1] && all[l] == rest[l - 1]);
                }
            }
        }
    }
}

/// What is kept is in the text, in its order, and holds no escape.
pub proof fn lemma_kept(s: Seq<int>)
    ensures
        forall|k: int|
            0 <= k < kept(s).len() ==> 0 <= (#[trigger] kept(s)[k]) < s.len() && s[kept(s)[k]]
                != 0x1b,
        forall|k: int, l: int|
            0 <= k < l < kept(s).len() ==> (#[trigger] kept(s)[k]) < #[trigger] kept(s)[l],
{
    lemma_kept_from(s, 0);
}

/// The items of a sequence at some positions.
pub open spec fn at_positions<A>(s: Seq<A>, p: Seq<int>) -> Seq<A> {
    Seq::new(p.len(), |k: int| s[p[k]])
}

/// The bytes without their escape sequences.
pub open spec fn stripped(s: Seq<u8>) -> Seq<u8> {
    at_positions(s, kept(byte_codes(s)))
}

/// The text without its escape sequences.
pub open spec fn stripped_text(s: Seq<char>) -> Seq<char> {
    at_positions(s, kept(text_codes(s)))
}

/// Where the escape sequence that begins at `i` ends, for codes.
fn find_escape_end(s: &Vec<u32>, i: usize, Ghost(codes): Ghost<Seq<int>>) -> (r: usize)
    requires
        i < s@.len(),
        codes == Seq::new(s@.len(), |k: int| s@[k] as int),
    ensures
        r == escape_end(codes, i as int),
        i < r <= s@.len(),
{
    proof {
        lemma_escape_end(codes, i as int);
    }
    let n: usize = s.len();
    if n - i <= 1 {
        return n;
    }
    if s[i + 1] == 0x0a {
        return i + 1;
    }
    if s[i + 1] == 0x5b {
        let mut j: usize = i + 2;
        while j < s.len()
            invariant
                i + 1 < s@.len(),
                j <= s@.len(),
                codes == Seq::new(s@.len(), |k: int| s@[k] as int),
                codes[i + 1] == 0x5b,
                control_end(codes, j as int) == escape_end(codes, i as int),
                i < escape_end(codes, i as int) <= s@.len(),
            decreases s@.len() - j,
        {
            if s[j] == 0x0a {
                return j;
            }
            if 0x40 <= s[j] && s[j] <= 0x7e {
                return j + 1;
            }
            j += 1;
        }
        return j;
    }
    if s[i + 1] == 0x5d {
        let mut j: usize = i + 2;
        while j < s.len()
            invariant
                i + 1 < s@.len(),
                j <= s@.len(),
                codes == Seq::new(s@.len(), |k: int| s@[k] as int),
                codes[i + 1] == 0x5d,
                command_end(codes, j as int) == escape_end(codes, i as int),
                i < escape_end(codes, i as int) <= s@.len(),
            decreases s@.len() - j,
        {
            if s[j] == 0x0a {
                return j;
            }
            if s[j] == 0x07 {
                return j + 1;
            }
            if s[j] == 0x1b && j + 1 < s.len() && s[j + 1] == 0x5c {
                return j + 2;
            }
            j += 1;
        }
        return j;
    }
    i + 2
}

/// The positions as mathematical numbers.
pub open spec fn positions(v: Seq<usize>) -> Seq<int> {
    Seq::new(v.len(), |k: int| v[k] as int)
}

/// The positions of the codes that belong to no escape sequence.
fn find_kept(s: &Vec<u32>) -> (r: Vec<usize>)
    ensures
        positions(r@) == kept(Seq::new(s@.len(), |k: int| s@[k] as int)),
{
    let ghost codes = Seq::new(s@.len(), |k: int| s@[k] as int);
    let mut out: Vec<usize> = Vec::new();
    let mut i: usize = 0;
    assert(positions(out@) + kept_from(codes, 0) =~= kept(codes));
    while i < s.len()
        invariant
            i <= s@.len(),
            codes == Seq::new(s@.len(), |k: int| s@[k] as int),
            positions(out@) + kept_from(codes, i as int) == kept(codes),
        decreases s@.len() - i,
    {
        if s[i] == 0x1b {
            i = find_escape_end(s, i, Ghost(codes));
        } else {
            let ghost before = positions(out@);
            out.push(i);
            assert(positions(out@) =~= before.push(i as int));
            assert(before + (seq![i as int] + kept_from(codes, i + 1)) =~= positions(out@)
                + kept_from(codes, i + 1));
            i += 1;
        }
    }
    assert(positions(out@) + kept_from(codes, i as int) =~= positions(out@));
    out
}

/// The bytes without their escape sequences, and where each of them stood.
pub fn strip_with_offsets(data: &[u8]) -> (r: (Vec<u8>, Vec<usize>))
    ensures
        r.0@ == stripped(data@),
        positions(r.1@) == kept(byte_codes(data@)),
{
    let mut codes: Vec<u32> = Vec::new();
    let mut i: usize = 0;
    while i < data.len()
        invariant
            i <= data@.len(),
            codes@.len() == i,
            forall|k: int| 0 <= k < i ==> codes@[k] == data@[k],
        decreases data@.len() - i,
    {
        codes.push(data[i] as u32);
        i += 1;
    }
    let offsets = find_kept(&codes);
    assert(Seq::new(codes@.len(), |k: int| codes@[k] as int) =~= byte_codes(data@));
    proof {
        lemma_kept(byte_codes(data@));
    }
    let mut out: Vec<u8> = Vec::new();
    let mut j: usize = 0;
    while j < offsets.len()
        invariant
            j <= offsets@.len(),
            out@.len() == j,
            positions(offsets@) == kept(byte_codes(data@)),
            forall|k: int|
                0 <= k < kept(byte_codes(data@)).len() ==> 0 <= (#[trigger] kept(
                    byte_codes(data@),
                )[k]) < data@.len(),
            forall|k: int| 0 <= k < j ==> out@[k] == data@[offsets@[k] as int],
        decreases offsets@.len() - j,
    {
        assert(positions(offsets@)[j as int] == offsets@[j as int]);
        out.push(data[offsets[j]]);
        j += 1;
    }
    assert(out@ =~= stripped(data@)) by {
        assert forall|k: int| 0 <= k < out@.len() implies out@[k] == stripped(data@)[k] by {
            assert(positions(offsets@)[k] == offsets@[k]);
        }
    }
    (out, offsets)
}

/// The bytes without their escape sequences.
pub fn strip(data: &[u8]) -> (r: Vec<u8>)
    ensures
        r@ == stripped(data@),
{
    let r = strip_with_offsets(data);
    r.0
}

/// The text without its escape sequences.
pub fn strip_text(text: &str) -> (r: String)
    ensures
        r@ == stripped_text(text@),
{
    let chars = to_chars(text);
    let mut codes: Vec<u32> = Vec::new();
    let mut i: usize = 0;
    while i < chars.len()
        invariant
            i <= chars@.len(),
            codes@.len() == i,
            forall|k: int| 0 <= k < i ==> codes@[k] == chars@[k] as u32,
        decreases chars@.len() - i,
    {
        codes.push(chars[i] as u32);
        i += 1;
    }
    let offsets = find_kept(&codes);
    assert(Seq::new(codes@.len(), |k: int| codes@[k] as int) =~= text_codes(text@));
    proof {
        lemma_kept(text_codes(text@));
    }
    let mut out = String::new();
    let mut j: usize = 0;
    while j < offsets.len()
        invariant
            j <= offsets@.len(),
            chars@ == text@,
            out@.len() == j,
            positions(offsets@) == kept(text_codes(text@)),
            forall|k: int|
                0 <= k < kept(text_codes(text@)).len() ==> 0 <= (#[trigger] kept(
                    text_codes(text@),
                )[k]) < text@.len(),
            forall|k: int| 0 <= k < j ==> out@[k] == text@[offsets@[k] as int],
        decreases offsets@.len() - j,
    {
        assert(positions(offsets@)[j as int] == offsets@[j as int]);
        out.push(chars[offsets[j]]);
        j += 1;
    }
    assert(out@ =~= stripped_text(text@)) by {
        assert forall|k: int| 0 <= k < out@.len() implies out@[k] == stripped_text(text@)[k] by {
            assert(positions(offsets@)[k] == offsets@[k]);
        }
    }
    out
}

proof fn lemma_all_kept(s: Seq<int>, i: int)
    requires
        0 <= i <= s.len(),
        forall|k: int| i <= k < s.len() ==> s[k] != 0x1b,
    ensures
        kept_from(s, i) == Seq::new((s.len() - i) as nat, |k: int| i + k),
    decreases s.len() - i,
{
    if i < s.len() {
        lemma_all_kept(s, i + 1);
    }
    assert(kept_from(s, i) =~= Seq::new((s.len() - i) as nat, |k: int| i + k));
}

/// Nothing is taken from bytes that hold no escape.
pub proof fn lemma_nothing_to_strip(s: Seq<u8>)
    requires
        forall|k: int| 0 <= k < s.len() ==> s[k] != 0x1b,
    ensures
        stripped(s) == s,
{
    lemma_all_kept(byte_codes(s), 0);
    assert(stripped(s) =~= s);
}

/// What is stripped holds no escape any more, so that stripping it again
/// changes nothing.
pub proof fn lemma_strip_once(s: Seq<u8>)
    ensures
        forall|k: int| 0 <= k < stripped(s).len() ==> (#[trigger] stripped(s)[k]) != 0x1b,
        stripped(stripped(s)) == stripped(s),
{
    lemma_kept(byte_codes(s));
    lemma_nothing_to_strip(stripped(s));
}

// ── Lines ────────────────────────────────────────────────────────────
proof fn lemma_cut_control(s: Seq<int>, i: int, q: int)
    requires
        0 <= i <= q < s.len(),
        s[q] == 0x0a,
    ensures
        i <= control_end(s, i) <= q,
        control_end(s.take(q + 1), i) == control_end(s, i),
    decreases q - i,
{
    if s[i] != 0x0a && !(0x40 <= s[i] <= 0x7e) {
        lemma_cut_control(s, i + 1, q);
    }
}

proof fn lemma_cut_command(s: Seq<int>, i: int, q: int)
    requires
        0 <= i <= q < s.len(),
        s[q] == 0x0a,
    ensures
        i <= command_end(s, i) <= q,
        command_end(s.take(q + 1), i) == command_end(s, i),
    decreases q - i,
{
    if s[i] != 0x0a && s[i] != 0x07 && !(s[i] == 0x1b && i + 1 < s.len() && s[i + 1] == 0x5c) {
        lemma_cut_command(s, i + 1, q);
    }
}

proof fn lemma_cut_escape(s: Seq<int>, i: int, q: int)
    requires
        0 <= i < q < s.len(),
        s[q] == 0x0a,
    ensures
        i < escape_end(s, i) <= q,
        escape_end(s.take(q + 1), i) == escape_end(s, i),
{
    if s[i + 1] != 0x0a {
        lemma_cut_control(s, i + 2, q);
        lemma_cut_command(s, i + 2, q);
    }
}

proof fn lemma_feed_is_kept(s: Seq<int>, i: int, q: int) -> (k: int)
    requires
        0 <= i <= q < s.len(),
        s[q] == 0x0a,
    ensures
        0 <= k < kept_from(s, i).len(),
        kept_from(s, i)[k] == q,
    decreases q - i,
{
    if i == q {
        0
    } else if s[i] == 0x1b {
        lemma_cut_escape(s, i, q);
        lemma_feed_is_kept(s, escape_end(s, i), q)
    } else {
        let k = lemma_feed_is_kept(s, i + 1, q);
        assert(kept_from(s, i)[k + 1] == kept_from(s, i + 1)[k]);
        k + 1
    }
}

/// A line feed belongs to no escape sequence.
pub proof fn lemma_line_feed_is_kept(s: Seq<int>, q: int) -> (k: int)
    requires
        0 <= q < s.len(),
        s[q] == 0x0a,
    ensures
        0 <= k < kept(s).len(),
        kept(s)[k] == q,
{
    lemma_feed_is_kept(s, 0, q)
}

proof fn lemma_cut_content(s: Seq<u8>, i: int, q: int)
    requires
        0 <= i <= q < s.len(),
        s[q] == 0x0a,
    ensures
        content_from(s, i) == content_from(s.take(q + 1), i) + content_from(s, q + 1),
    decreases q - i,
{
    let a = s.take(q + 1);
    let c = byte_codes(s);
    assert(byte_codes(a) =~= c.take(q + 1));
    let rest = content_from(s, q + 1);
    if i == q {
        assert(content_from(a, q + 1) =~= Seq::empty());
        assert(content_from(a, i) =~= seq![s[i]]);
        assert(content_from(s, i) =~= seq![s[i]] + rest);
    } else if s[i] == 0x1b {
        lemma_cut_escape(c, i, q);
        lemma_cut_content(s, escape_end(c, i), q);
    } else {
        lemma_cut_content(s, i + 1, q);
        assert(content_from(s, i) =~= content_from(a, i) + rest);
    }
}

/// What is left of bytes is what is left of them up to a line feed, and what
/// is left behind it.
pub proof fn lemma_lines_strip_apart(a: Seq<u8>, b: Seq<u8>)
    requires
        a.len() > 0,
        a.last() == 0x0a,
    ensures
        stripped(a + b) == stripped(a) + stripped(b),
{
    let s = a + b;
    lemma_cut_content(s, 0, a.len() - 1);
    assert(s.take(a.len() as int) =~= a);
    lemma_shift_content(a, b, 0);
    lemma_stripped_is_content(s);
    lemma_stripped_is_content(a);
    lemma_stripped_is_content(b);
}

// ── Putting an escape sequence in between ────────────────────────────
/// What is left of the bytes from `i` on.
pub open spec fn content_from(s: Seq<u8>, i: int) -> Seq<u8>
    decreases s.len() - i,
{
    if i < 0 || i >= s.len() {
        Seq::empty()
    } else if s[i] == 0x1b {
        let e = escape_end(byte_codes(s), i);
        if i < e <= s.len() {
            content_from(s, e)
        } else {
            Seq::empty()
        }
    } else {
        seq![s[i]] + content_from(s, i + 1)
    }
}

proof fn lemma_content(s: Seq<u8>, i: int)
    requires
        0 <= i <= s.len(),
    ensures
        content_from(s, i) == at_positions(s, kept_from(byte_codes(s), i)),
    decreases s.len() - i,
{
    let c = byte_codes(s);
    if i < s.len() {
        lemma_escape_end(c, i);
        if s[i] == 0x1b {
            lemma_content(s, escape_end(c, i));
        } else {
            lemma_content(s, i + 1);
            assert(at_positions(s, kept_from(c, i)) =~= seq![s[i]] + at_positions(
                s,
                kept_from(c, i + 1),
            ));
        }
    } else {
        assert(at_positions(s, kept_from(c, i)) =~= Seq::empty());
    }
}

/// What is stripped is what is left from the beginning on.
pub proof fn lemma_stripped_is_content(s: Seq<u8>)
    ensures
        stripped(s) == content_from(s, 0),
{
    lemma_content(s, 0);
}

/// Whether `p` is reached from `i` by whole escape sequences, each of which
/// ends before the end and not at a line feed, and single bytes.
pub open spec fn reaches(s: Seq<u8>, i: int, p: int) -> bool
    decreases p - i,
{
    if i >= p {
        i == p
    } else if i < 0 || i >= s.len() {
        false
    } else if s[i] == 0x1b {
        let e = escape_end(byte_codes(s), i);
        i < e < s.len() && e <= p && s[e] != 0x0a && reaches(s, e, p)
    } else {
        reaches(s, i + 1, p)
    }
}

proof fn lemma_same_control(s: Seq<int>, t: Seq<int>, j: int, e: int)
    requires
        0 <= j <= e <= t.len(),
        control_end(s, j) == e,
        e < s.len(),
        s[e] != 0x0a,
        forall|k: int| j <= k < e ==> s[k] == t[k],
    ensures
        control_end(t, j) == e,
    decreases e - j,
{
    if !(0x40 <= s[j] <= 0x7e) {
        lemma_control_end(s, j + 1);
        lemma_same_control(s, t, j + 1, e);
    }
}

proof fn lemma_same_command(s: Seq<int>, t: Seq<int>, j: int, e: int)
    requires
        0 <= j <= e <= t.len(),
        command_end(s, j) == e,
        e < s.len(),
        s[e] != 0x0a,
        forall|k: int| j <= k < e ==> s[k] == t[k],
    ensures
        command_end(t, j) == e,
    decreases e - j,
{
    if s[j] == 0x07 {
    } else if s[j] == 0x1b && j + 1 < s.len() && s[j + 1] == 0x5c {
    } else {
        lemma_command_end(s, j + 1);
        lemma_same_command(s, t, j + 1, e);
    }
}

proof fn lemma_same_escape(s: Seq<int>, t: Seq<int>, i: int, e: int)
    requires
        0 <= i < s.len(),
        escape_end(s, i) == e,
        i < e < s.len(),
        s[e] != 0x0a,
        e <= t.len(),
        forall|k: int| i <= k < e ==> s[k] == t[k],
    ensures
        escape_end(t, i) == e,
{
    if s[i + 1] == 0x5b {
        lemma_control_end(s, i + 2);
        lemma_same_control(s, t, i + 2, e);
    } else if s[i + 1] == 0x5d {
        lemma_command_end(s, i + 2);
        lemma_same_command(s, t, i + 2, e);
    }
}

/// Bytes that agree before `p` and leave the same behind `p` leave the same.
pub proof fn lemma_same_head(s: Seq<u8>, t: Seq<u8>, i: int, p: int)
    requires
        0 <= i <= p <= s.len(),
        s.len() <= t.len(),
        reaches(s, i, p),
        forall|k: int| i <= k < p ==> s[k] == t[k],
        p < t.len() ==> t[p] != 0x0a,
    ensures
        reaches(t, i, p),
        content_from(s, p) == content_from(t, p) ==> content_from(s, i) == content_from(t, i),
    decreases p - i,
{
    if i < p {
        if s[i] == 0x1b {
            let e = escape_end(byte_codes(s), i);
            lemma_same_escape(byte_codes(s), byte_codes(t), i, e);
            lemma_same_head(s, t, e, p);
        } else {
            lemma_same_head(s, t, i + 1, p);
        }
    }
}

proof fn lemma_shift_control(x: Seq<int>, b: Seq<int>, k: int)
    requires
        0 <= k <= b.len(),
    ensures
        control_end(x + b, x.len() + k) == x.len() + control_end(b, k),
    decreases b.len() - k,
{
    if k < b.len() {
        assert((x + b)[x.len() + k] == b[k]);
        if b[k] != 0x0a && !(0x40 <= b[k] <= 0x7e) {
            lemma_shift_control(x, b, k + 1);
        }
    }
}

proof fn lemma_shift_command(x: Seq<int>, b: Seq<int>, k: int)
    requires
        0 <= k <= b.len(),
    ensures
        command_end(x + b, x.len() + k) == x.len() + command_end(b, k),
    decreases b.len() - k,
{
    if k < b.len() {
        assert((x + b)[x.len() + k] == b[k]);
        if k + 1 < b.len() {
            assert((x + b)[x.len() + k + 1] == b[k + 1]);
        }
        if b[k] != 0x0a && b[k] != 0x07 && !(b[k] == 0x1b && k + 1 < b.len() && b[k + 1] == 0x5c) {
            lemma_shift_command(x, b, k + 1);
        }
    }
}

proof fn lemma_shift_content(x: Seq<u8>, b: Seq<u8>, k: int)
    requires
        0 <= k <= b.len(),
    ensures
        content_from(x + b, x.len() + k) == content_from(b, k),
    decreases b.len() - k,
{
    let xc = byte_codes(x);
    let bc = byte_codes(b);
    assert(byte_codes(x + b) =~= xc + bc);
    if k < b.len() {
        assert((x + b)[x.len() + k] == b[k]);
        lemma_escape_end(bc, k);
        lemma_escape_end(xc + bc, x.len() + k);
        if b[k] == 0x1b {
            if k + 1 < b.len() {
                assert((xc + bc)[xc.len() + k + 1] == bc[k + 1]);
                lemma_shift_control(xc, bc, k + 2);
                lemma_shift_command(xc, bc, k + 2);
            }
            let e = escape_end(bc, k);
            assert(escape_end(xc + bc, xc.len() + k) == xc.len() + e);
            lemma_shift_content(x, b, e);
        } else {
            lemma_shift_content(x, b, k + 1);
        }
    }
}

/// Whether the bytes are one control sequence.
pub open spec fn is_control(code: Seq<u8>) -> bool {
    &&& code.len() >= 3
    &&& code[0] == 0x1b
    &&& code[1] == 0x5b
    &&& 0x40 <= code.last() <= 0x7e
    &&& forall|k: int|
        2 <= k < code.len() - 1 ==> !(0x40 <= #[trigger] code[k] <= 0x7e) && code[k] != 0x0a
}

proof fn lemma_control_runs(s: Seq<int>, j: int, e: int)
    requires
        0 <= j < e <= s.len(),
        0x40 <= s[e - 1] <= 0x7e,
        forall|k: int| j <= k < e - 1 ==> !(0x40 <= #[trigger] s[k] <= 0x7e) && s[k] != 0x0a,
    ensures
        control_end(s, j) == e,
    decreases e - j,
{
    if j < e - 1 {
        lemma_control_runs(s, j + 1, e);
    }
}

/// The bytes with a code put in at `p`.
pub open spec fn inserted(s: Seq<u8>, p: int, code: Seq<u8>) -> Seq<u8> {
    s.take(p) + code + s.skip(p)
}

/// A control sequence that is put in between, not inside of another escape
/// sequence, is all that stripping takes away more.
pub proof fn lemma_inserted_strips_away(s: Seq<u8>, p: int, code: Seq<u8>)
    requires
        0 <= p <= s.len(),
        reaches(s, 0, p),
        is_control(code),
        forall|q: int| 0 <= q < p ==> s[q] != 0x0a,
    ensures
        stripped(inserted(s, p, code)) == stripped(s),
        forall|q: int| 0 <= q <= p && reaches(s, 0, q) ==> reaches(inserted(s, p, code), 0, q),
{
    let t = inserted(s, p, code);
    let n = code.len() as int;
    let tc = byte_codes(t);
    assert forall|k: int| 0 <= k < p implies s[k] == t[k] by {}
    assert(forall|k: int| 0 <= k < n ==> t[p + k] == code[k]);
    assert forall|k: int| p + 2 <= k < p + n - 1 implies !(0x40 <= #[trigger] tc[k] <= 0x7e)
        && tc[k] != 0x0a by {
        assert(t[p + (k - p)] == code[k - p]);
    }
    assert(t[p + (n - 1)] == code[n - 1]);
    lemma_control_runs(tc, p + 2, p + n);
    assert(t[p + 0] == code[0] && t[p + 1] == code[1]);
    assert(content_from(t, p) == content_from(t, p + n));
    let front = s.take(p) + code;
    assert(t =~= front + s.skip(p));
    lemma_shift_content(front, s.skip(p), 0);
    assert(s =~= s.take(p) + s.skip(p));
    lemma_shift_content(s.take(p), s.skip(p), 0);
    assert(content_from(t, p) == content_from(s, p));
    lemma_same_head(s, t, 0, p);
    lemma_stripped_is_content(s);
    lemma_stripped_is_content(t);
    assert forall|q: int| 0 <= q <= p && reaches(s, 0, q) implies reaches(t, 0, q) by {
        lemma_same_head(s, t, 0, q);
    }
}

proof fn lemma_kept_reached(s: Seq<u8>, i: int, k: int)
    requires
        0 <= i <= s.len(),
        0 <= k < kept_from(byte_codes(s), i).len(),
        forall|j: int| i <= j <= kept_from(byte_codes(s), i)[k] ==> s[j] != 0x0a,
    ensures
        reaches(s, i, kept_from(byte_codes(s), i)[k]),
        reaches(s, i, kept_from(byte_codes(s), i)[k] + 1),
    decreases s.len() - i,
{
    let c = byte_codes(s);
    lemma_kept_from(c, i);
    let q = kept_from(c, i)[k];
    if s[i] == 0x1b {
        let e = escape_end(c, i);
        lemma_escape_end(c, i);
        lemma_kept_from(c, e);
        lemma_kept_reached(s, e, k);
        assert(kept_from(c, e)[k] == q);
    } else if k == 0 {
        assert(q == i);
        assert(reaches(s, i + 1, i + 1));
    } else {
        lemma_kept_from(c, i + 1);
        assert(kept_from(c, i + 1)[k - 1] == q);
        lemma_kept_reached(s, i + 1, k - 1);
    }
}

/// Before and behind a byte that is kept, something can be put in, if no line
/// feed comes before.
pub proof fn lemma_kept_is_reached(s: Seq<u8>, k: int)
    requires
        0 <= k < kept(byte_codes(s)).len(),
        forall|j: int| 0 <= j <= kept(byte_codes(s))[k] ==> s[j] != 0x0a,
    ensures
        reaches(s, 0, kept(byte_codes(s))[k]),
        reaches(s, 0, kept(byte_codes(s))[k] + 1),
{
    lemma_kept_reached(s, 0, k);
}

} // verus!

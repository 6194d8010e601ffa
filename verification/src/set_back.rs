//! A scalar that was set is found again, in every document: also where a name
//! occurs twice in an object or is spelled with escapes.
use crate::edit::{edited, EditView};
use crate::jsonc::{
    comment_close, document, is_blank, items_at, member_at, members_at, skip, string_from,
    value_at, JsonView,
};
use crate::locate::{
    block_end, child_path, is_number_char, line_end, number_end, scan_from, scan_start, scan_step,
    string_content, string_end, value_from, value_span, word_at, word_end, ScanView, SegView,
};
use crate::pieces::{lemma_skip_bounds, lemma_value_is_token, reads, Members};
use crate::place::{
    is_scalar, lemma_comment_close, lemma_items_prefix, lemma_members_prefix, lemma_no_word,
    lemma_number_token, lemma_stops, lemma_string_token, lemma_values_later, root,
};
use crate::splice::{lemma_member_bounds, lemma_reads_there, lemma_value_bounds};
use vstd::prelude::*;

verus! {

// ── Tokens stand apart ───────────────────────────────────────────────
/// Where the token behind the one at `i` starts. It does not depend on what
/// was recorded before.
spec fn next_token(s: Seq<char>, i: int) -> int {
    scan_step(s, i, scan_start()).0
}

/// Whether the token at `i` can be a scalar value: a string, a number or a
/// word.
spec fn is_scalar_token(s: Seq<char>, i: int) -> bool {
    s[i] == '"' || s[i] == '-' || '0' <= s[i] <= '9' || word_end(s, i) is Some
}

/// No number runs into the token from `i` to `e`, and it runs into none.
spec fn apart(s: Seq<char>, i: int, e: int) -> bool {
    &&& i > 0 ==> !is_number_char(s[i - 1])
    &&& e < s.len() && !is_number_char(s[e])
}

/// Every token from `i` on that can be a scalar stands apart.
spec fn parted(s: Seq<char>, i: int) -> bool
    decreases s.len() - i,
{
    0 <= i < s.len() ==> {
        let e = next_token(s, i);
        &&& is_scalar_token(s, i) ==> apart(s, i, e)
        &&& i < e <= s.len() ==> parted(s, e)
    }
}

proof fn lemma_mark_parted(s: Seq<char>, i: int)
    requires
        0 <= i < s.len(),
        s[i] == '{' || s[i] == '}' || s[i] == '[' || s[i] == ']' || s[i] == ',' || s[i] == ':'
            || is_blank(s[i]),
        parted(s, i + 1),
    ensures
        parted(s, i),
{
    lemma_no_word(s, i);
}

proof fn lemma_gap_parted(s: Seq<char>, i: int)
    requires
        0 <= i <= s.len(),
        skip(s, i) matches Some(j) && parted(s, j),
    ensures
        parted(s, i),
    decreases s.len() - i,
{
    if i < s.len() {
        if is_blank(s[i]) {
            lemma_gap_parted(s, i + 1);
            lemma_mark_parted(s, i);
        } else if s[i] == '/' && i + 1 < s.len() && s[i + 1] == '/' {
            lemma_gap_parted(s, line_end(s, i));
            lemma_no_word(s, i);
        } else if s[i] == '/' && i + 1 < s.len() && s[i + 1] == '*' {
            lemma_comment_close(s, i + 2);
            lemma_gap_parted(s, comment_close(s, i + 2)->0);
            lemma_no_word(s, i);
        }
    }
}

proof fn lemma_comment_slash(s: Seq<char>, i: int)
    requires
        0 <= i,
        comment_close(s, i) is Some,
    ensures
        s[comment_close(s, i)->0 - 1] == '/',
    decreases s.len() - i,
{
    if i + 1 < s.len() && !(s[i] == '*' && s[i + 1] == '/') {
        lemma_comment_slash(s, i + 1);
    }
}

proof fn lemma_line_end_there(s: Seq<char>, i: int)
    requires
        0 <= i <= s.len(),
    ensures
        i <= line_end(s, i) <= s.len(),
        line_end(s, i) < s.len() ==> s[line_end(s, i)] == '\n',
    decreases s.len() - i,
{
    if i < s.len() && s[i] != '\n' {
        lemma_line_end_there(s, i + 1);
    }
}

/// What stands before a token behind a gap is no part of a number.
proof fn lemma_gap_stops(s: Seq<char>, i: int, j: int)
    requires
        0 <= i < s.len(),
        i > 0 ==> !is_number_char(s[i - 1]),
        skip(s, i) == Some(j),
        j < s.len(),
    ensures
        j > 0 ==> !is_number_char(s[j - 1]),
    decreases s.len() - i,
{
    if is_blank(s[i]) {
        if i + 1 < s.len() {
            lemma_gap_stops(s, i + 1, j);
        }
    } else if s[i] == '/' && i + 1 < s.len() && s[i + 1] == '/' {
        let e = line_end(s, i);
        lemma_line_end_there(s, i);
        if e < s.len() {
            assert(skip(s, e) == skip(s, e + 1));
            if e + 1 < s.len() {
                lemma_gap_stops(s, e + 1, j);
            }
        }
    } else if s[i] == '/' && i + 1 < s.len() && s[i + 1] == '*' {
        let e = comment_close(s, i + 2)->0;
        lemma_comment_slash(s, i + 2);
        if e < s.len() {
            lemma_gap_stops(s, e, j);
        }
    }
}

proof fn lemma_string_parted(s: Seq<char>, i: int)
    requires
        0 <= i < s.len(),
        s[i] == '"',
        string_from(s, i + 1, Seq::empty()) matches Some((_, e)) && apart(s, i, e) && parted(s, e),
    ensures
        parted(s, i),
{
    lemma_string_token(s, i + 1, Seq::empty());
}

proof fn lemma_value_parted(s: Seq<char>, i: int)
    requires
        value_at(s, i) matches Some((v, e)) && parted(s, e) && (is_scalar(v) ==> e < s.len()) && (e
            < s.len() ==> !is_number_char(s[e])),
        i > 0 ==> !is_number_char(s[i - 1]),
    ensures
        parted(s, i),
    decreases s.len() - i, 0int,
{
    let (v, e) = value_at(s, i)->0;
    lemma_value_bounds(s, i);
    lemma_value_is_token(s, i);
    if s[i] == '{' {
        let j = skip(s, i + 1)->0;
        lemma_skip_bounds(s, i + 1);
        lemma_gap_stops(s, i + 1, j);
        lemma_members_parted(s, j, Seq::empty());
        lemma_gap_parted(s, i + 1);
        lemma_mark_parted(s, i);
    } else if s[i] == '[' {
        let j = skip(s, i + 1)->0;
        lemma_skip_bounds(s, i + 1);
        lemma_gap_stops(s, i + 1, j);
        lemma_items_parted(s, j, Seq::empty());
        lemma_gap_parted(s, i + 1);
        lemma_mark_parted(s, i);
    } else if s[i] == '"' {
        lemma_string_parted(s, i);
    } else if s[i] == '-' || '0' <= s[i] <= '9' {
        lemma_number_token(s, i);
        lemma_no_word(s, i);
    }
}

proof fn lemma_members_parted(s: Seq<char>, i: int, before: Members)
    requires
        members_at(s, i, before) matches Some((_, e)) && parted(s, e),
        i > 0 ==> !is_number_char(s[i - 1]),
    ensures
        parted(s, i),
    decreases s.len() - i, 1int,
{
    lemma_members_prefix(s, i, before);
    if s[i] == '}' {
        lemma_mark_parted(s, i);
    } else {
        let (name, value, m) = member_at(s, i)->0;
        lemma_member_bounds(s, i);
        let (_, k) = string_from(s, i + 1, Seq::empty())->0;
        let c = skip(s, k)->0;
        let v = skip(s, c + 1)->0;
        let (_, f) = value_at(s, v)->0;
        if s[m] == ',' {
            let n = skip(s, m + 1)->0;
            let more = before.push((name, value));
            lemma_skip_bounds(s, m + 1);
            lemma_members_prefix(s, n, more);
            lemma_gap_stops(s, m + 1, n);
            lemma_members_parted(s, n, more);
            lemma_gap_parted(s, m + 1);
        }
        lemma_mark_parted(s, m);
        lemma_gap_parted(s, f);
        lemma_stops(s, f);
        lemma_gap_stops(s, c + 1, v);
        lemma_value_parted(s, v);
        lemma_gap_parted(s, c + 1);
        lemma_mark_parted(s, c);
        lemma_gap_parted(s, k);
        lemma_stops(s, k);
        lemma_string_parted(s, i);
    }
}

proof fn lemma_items_parted(s: Seq<char>, i: int, before: Seq<JsonView>)
    requires
        items_at(s, i, before) matches Some((_, e)) && parted(s, e),
        i > 0 ==> !is_number_char(s[i - 1]),
    ensures
        parted(s, i),
    decreases s.len() - i, 1int,
{
    lemma_items_prefix(s, i, before);
    if s[i] == ']' {
        lemma_mark_parted(s, i);
    } else {
        let (value, f) = value_at(s, i)->0;
        let m = skip(s, f)->0;
        lemma_value_bounds(s, i);
        lemma_skip_bounds(s, f);
        if s[m] == ',' {
            let n = skip(s, m + 1)->0;
            let more = before.push(value);
            lemma_skip_bounds(s, m + 1);
            lemma_items_prefix(s, n, more);
            lemma_gap_stops(s, m + 1, n);
            lemma_items_parted(s, n, more);
            lemma_gap_parted(s, m + 1);
        }
        lemma_mark_parted(s, m);
        lemma_gap_parted(s, f);
        lemma_stops(s, f);
        lemma_value_parted(s, i);
    }
}

proof fn lemma_document_parted(s: Seq<char>)
    requires
        document(s) matches Some(j) && !is_scalar(j),
    ensures
        parted(s, 0),
{
    let i = root(s);
    lemma_skip_bounds(s, 0);
    let (_, e) = value_at(s, i)->0;
    lemma_value_bounds(s, i);
    lemma_gap_stops(s, 0, i);
    lemma_stops(s, e);
    lemma_gap_parted(s, e);
    lemma_value_parted(s, i);
    lemma_gap_parted(s, 0);
}

// ── The first value at a path ────────────────────────────────────────
proof fn lemma_values_grow(s: Seq<char>, i: int, st: ScanView)
    requires
        0 <= i,
    ensures
        st.spans.values.len() <= scan_from(s, i, st).values.len(),
        forall|k: int|
            0 <= k < st.spans.values.len() ==> #[trigger] scan_from(s, i, st).values[k]
                == st.spans.values[k],
        forall|k: int|
            st.spans.values.len() <= k < scan_from(s, i, st).values.len() ==> (
            #[trigger] scan_from(s, i, st).values[k]).1 >= i,
    decreases s.len() - i,
{
    if i < s.len() {
        let (next, after) = scan_step(s, i, st);
        if i < next <= s.len() {
            lemma_values_grow(s, next, after);
        }
    }
}

proof fn lemma_value_entry(
    v: Seq<(Seq<SegView>, int, int)>,
    path: Seq<SegView>,
    i: int,
) -> (k: int)
    requires
        0 <= i,
        value_from(v, path, i) is Some,
    ensures
        i <= k < v.len(),
        v[k].0 == path,
        value_from(v, path, i) == Some((v[k].1, v[k].2)),
    decreases v.len() - i,
{
    if v[i].0 == path {
        i
    } else {
        lemma_value_entry(v, path, i + 1)
    }
}

/// Whether a scalar at this point is the value at the path.
spec fn awaits(st: ScanView, path: Seq<SegView>) -> bool {
    &&& st.stack.len() > 0
    &&& st.stack.last().array || st.stack.last().pending is Some
    &&& child_path(st.stack.last()) == path
}

/// The pass has not met the value yet that it finds from `a` to `b`.
spec fn ahead(s: Seq<char>, i: int, st: ScanView, path: Seq<SegView>, a: int, b: int) -> bool {
    &&& 0 <= i
    &&& value_from(st.spans.values, path, 0) is None
    &&& value_from(scan_from(s, i, st).values, path, 0) == Some((a, b))
}

/// One token on the way to a value: it is the value, or comes before it.
proof fn lemma_ahead(s: Seq<char>, i: int, st: ScanView, path: Seq<SegView>, a: int, b: int)
    requires
        ahead(s, i, st, path, a, b),
    ensures
        ({
            let (next, after) = scan_step(s, i, st);
            &&& i < next <= s.len()
            &&& if i == a {
                next == b && is_scalar_token(s, a) && awaits(st, path)
            } else {
                next <= a && ahead(s, next, after, path, a, b)
            }
        }),
{
    let (next, after) = scan_step(s, i, st);
    let v = st.spans.values;
    let w = after.spans.values;
    let all = scan_from(s, i, st).values;
    assert(i < next <= s.len());
    lemma_values_grow(s, next, after);
    lemma_values_later(w, all, path, 0);
    if value_from(w, path, 0) is Some {
        let k = lemma_value_entry(w, path, 0);
        if k < v.len() {
            lemma_values_later(v, w, path, 0);
            lemma_no_entry(v, path, 0, k);
        }
        assert(w == v.push((path, a, b)));
    } else {
        let k = lemma_value_entry(all, path, w.len() as int);
        assert(all[k].1 >= next);
    }
}

proof fn lemma_no_entry(v: Seq<(Seq<SegView>, int, int)>, path: Seq<SegView>, i: int, k: int)
    requires
        0 <= i <= k < v.len(),
        v[k].0 == path,
    ensures
        value_from(v, path, i) is Some,
    decreases k - i,
{
    if i < k && v[i].0 != path {
        lemma_no_entry(v, path, i + 1, k);
    }
}

/// The value that the pass finds stands apart.
proof fn lemma_value_apart(s: Seq<char>, i: int, st: ScanView, path: Seq<SegView>, a: int, b: int)
    requires
        ahead(s, i, st, path, a, b),
        parted(s, i),
    ensures
        is_scalar_token(s, a),
        apart(s, a, b),
        i <= a < b,
    decreases s.len() - i,
{
    lemma_ahead(s, i, st, path, a, b);
    let (next, after) = scan_step(s, i, st);
    assert(next == next_token(s, i));
    if i != a {
        lemma_value_apart(s, next, after, path, a, b);
    }
}

// ── The pass over the changed text ───────────────────────────────────
/// Two texts with the same characters up to `a`, and a scalar there in both.
spec fn alike_up_to(s: Seq<char>, t: Seq<char>, a: int) -> bool {
    &&& 0 <= a < s.len()
    &&& a < t.len()
    &&& forall|k: int| 0 <= k < a ==> #[trigger] t[k] == s[k]
    &&& is_scalar_token(s, a)
    &&& is_scalar_token(t, a)
    &&& a > 0 ==> !is_number_char(s[a - 1])
}

proof fn lemma_token_char(s: Seq<char>, a: int)
    requires
        0 <= a < s.len(),
        is_scalar_token(s, a),
    ensures
        s[a] == '"' || s[a] == '-' || '0' <= s[a] <= '9' || s[a] == 't' || s[a] == 'f' || s[a]
            == 'n',
{
    if s[a] != 't' && s[a] != 'f' && s[a] != 'n' {
        lemma_no_word(s, a);
    }
}

proof fn lemma_line_end_alike(s: Seq<char>, t: Seq<char>, a: int, i: int)
    requires
        alike_up_to(s, t, a),
        0 <= i <= line_end(s, i) < a,
    ensures
        line_end(t, i) == line_end(s, i),
    decreases a - i,
{
    lemma_line_end_there(s, i);
    if s[i] != '\n' {
        lemma_line_end_there(s, i + 1);
        lemma_line_end_alike(s, t, a, i + 1);
    }
}

proof fn lemma_block_end_alike(s: Seq<char>, t: Seq<char>, a: int, i: int)
    requires
        alike_up_to(s, t, a),
        0 <= i,
        block_end(s, i) <= a,
    ensures
        block_end(t, i) == block_end(s, i),
        i + 2 <= block_end(s, i),
    decreases s.len() - i,
{
    if i + 1 < s.len() && !(s[i] == '*' && s[i + 1] == '/') {
        lemma_block_end_alike(s, t, a, i + 1);
    }
}

proof fn lemma_string_end_alike(s: Seq<char>, t: Seq<char>, a: int, i: int)
    requires
        alike_up_to(s, t, a),
        0 <= i,
        string_end(s, i) <= a,
    ensures
        string_end(t, i) == string_end(s, i),
        i < string_end(s, i),
    decreases s.len() - i,
{
    if i < s.len() {
        if s[i] == '\\' {
            if i + 1 < s.len() {
                lemma_string_end_alike(s, t, a, i + 2);
            }
        } else if s[i] != '"' {
            lemma_string_end_alike(s, t, a, i + 1);
        }
    }
}

proof fn lemma_number_end_alike(s: Seq<char>, t: Seq<char>, a: int, i: int)
    requires
        alike_up_to(s, t, a),
        0 <= i < a,
        is_number_char(s[i]),
        number_end(s, i) <= a,
    ensures
        number_end(t, i) == number_end(s, i),
    decreases a - i,
{
    assert(t[i] == s[i]);
    if i + 1 < a {
        assert(t[i + 1] == s[i + 1]);
        assert(number_end(s, i) == number_end(s, i + 1));
        assert(number_end(t, i) == number_end(t, i + 1));
        if is_number_char(s[i + 1]) {
            lemma_number_end_alike(s, t, a, i + 1);
        }
    }
}

proof fn lemma_word_alike(s: Seq<char>, t: Seq<char>, a: int, i: int, w: Seq<char>)
    requires
        alike_up_to(s, t, a),
        0 <= i < a,
        forall|k: int|
            1 <= k < w.len() ==> #[trigger] w[k] != '"' && w[k] != '-' && !('0' <= w[k] <= '9')
                && w[k] != 't' && w[k] != 'f' && w[k] != 'n',
    ensures
        word_at(s, i, w) == word_at(t, i, w),
        word_at(s, i, w) ==> i + w.len() <= a,
{
    lemma_token_char(s, a);
    lemma_token_char(t, a);
    let k = a - i;
    if word_at(s, i, w) {
        if k < w.len() {
            assert(s.subrange(i, i + w.len())[k] == s[a]);
            assert(w[k] == s[a]);
        }
        assert(t.subrange(i, i + w.len()) =~= w) by {
            assert(s.subrange(i, i + w.len()) =~= t.subrange(i, i + w.len()));
        }
    }
    if word_at(t, i, w) {
        if k < w.len() {
            assert(t.subrange(i, i + w.len())[k] == t[a]);
            assert(w[k] == t[a]);
        }
        assert(s.subrange(i, i + w.len()) =~= w) by {
            assert(s.subrange(i, i + w.len()) =~= t.subrange(i, i + w.len()));
        }
    }
}

/// A token before the value is the same in both texts.
proof fn lemma_step_alike(s: Seq<char>, t: Seq<char>, a: int, i: int, st: ScanView)
    requires
        alike_up_to(s, t, a),
        0 <= i < a,
        i < scan_step(s, i, st).0 <= a,
    ensures
        scan_step(t, i, st) == scan_step(s, i, st),
{
    let (e, _) = scan_step(s, i, st);
    lemma_token_char(s, a);
    lemma_token_char(t, a);
    assert(t[i] == s[i]);
    if i + 1 < a {
        assert(t[i + 1] == s[i + 1]);
    }
    if s[i] == '/' && i + 1 < s.len() && s[i + 1] == '/' {
        lemma_line_end_there(s, i);
        lemma_line_end_alike(s, t, a, i);
    } else if s[i] == '/' && i + 1 < s.len() && s[i + 1] == '*' {
        lemma_block_end_alike(s, t, a, i + 2);
    } else if s[i] == '"' {
        lemma_string_end_alike(s, t, a, i + 1);
        assert(string_content(t, i, e) =~= string_content(s, i, e));
    } else if s[i] == '-' || '0' <= s[i] <= '9' {
        lemma_number_end_alike(s, t, a, i);
    } else {
        lemma_word_alike(s, t, a, i, seq!['t', 'r', 'u', 'e']);
        lemma_word_alike(s, t, a, i, seq!['f', 'a', 'l', 's', 'e']);
        lemma_word_alike(s, t, a, i, seq!['n', 'u', 'l', 'l']);
    }
}

/// The pass over the changed text meets the new value first at the path.
proof fn lemma_met_again(
    s: Seq<char>,
    t: Seq<char>,
    i: int,
    st: ScanView,
    path: Seq<SegView>,
    a: int,
    b: int,
    e: int,
)
    requires
        ahead(s, i, st, path, a, b),
        i <= a,
        alike_up_to(s, t, a),
        next_token(t, a) == e,
        a < e <= t.len(),
    ensures
        value_from(scan_from(t, i, st).values, path, 0) == Some((a, e)),
    decreases s.len() - i,
{
    lemma_ahead(s, i, st, path, a, b);
    if i == a {
        let (next, after) = scan_step(t, a, st);
        assert(next == e);
        lemma_token_char(t, a);
        let v = st.spans.values;
        let w = after.spans.values;
        assert(w =~= v.push((path, a, e)));
        lemma_values_later(v, w, path, 0);
        assert(value_from(w, path, v.len() as int) == Some((a, e)));
        lemma_values_grow(t, next, after);
        lemma_values_later(w, scan_from(t, next, after).values, path, 0);
    } else {
        let (next, after) = scan_step(s, i, st);
        lemma_step_alike(s, t, a, i, st);
        lemma_met_again(s, t, next, after, path, a, b, e);
    }
}

/// A literal in the place of a value is one token, and what stands before it is
/// what stood there.
proof fn lemma_literal_token(s: Seq<char>, a: int, b: int, literal: Seq<char>, w: JsonView)
    requires
        0 <= a < b,
        is_scalar_token(s, a),
        apart(s, a, b),
        reads(literal, w),
        is_scalar(w),
        literal.len() > 0,
    ensures
        ({
            let t = s.take(a) + literal + s.skip(b);
            let e = (a + literal.len()) as int;
            &&& value_at(t, a) == Some((w, e))
            &&& alike_up_to(s, t, a)
            &&& next_token(t, a) == e
            &&& a < e <= t.len()
        }),
{
    let t = s.take(a) + literal + s.skip(b);
    let e = (a + literal.len()) as int;
    lemma_reads_there(s, a, b, literal, w);
    lemma_value_is_token(t, a);
    assert(t[e] == s[b]);
    if t[a] == '"' {
        lemma_string_token(t, a + 1, Seq::empty());
    } else if t[a] == '-' || '0' <= t[a] <= '9' {
        lemma_number_token(t, a);
    }
    assert forall|k: int| 0 <= k < a implies #[trigger] t[k] == s[k] by {}
}

/// In every document, a scalar that was set is found again at its path, and
/// setting it back gives the text that there was.
#[verifier::rlimit(40)]
#[verifier::spinoff_prover]
pub proof fn lemma_set_scalar_is_found(
    s: Seq<char>,
    path: Seq<SegView>,
    literal: Seq<char>,
    w: JsonView,
)
    requires
        document(s) matches Some(j) && !is_scalar(j),
        value_span(s, path) is Some,
        reads(literal, w),
        is_scalar(w),
        literal.len() > 0,
    ensures
        ({
            let (a, b) = value_span(s, path)->0;
            let r = edited(s, EditView::SetScalar { path, literal });
            &&& r is Ok
            &&& value_span(r->Ok_0, path) == Some((a, (a + literal.len()) as int))
            &&& value_at(r->Ok_0, a) == Some((w, (a + literal.len()) as int))
            &&& edited(r->Ok_0, EditView::SetScalar { path, literal: s.subrange(a, b) }) == Ok::<
                Seq<char>,
                Seq<char>,
            >(s)
        }),
{
    let (a, b) = value_span(s, path)->0;
    let t = s.take(a) + literal + s.skip(b);
    let e = (a + literal.len()) as int;
    lemma_document_parted(s);
    lemma_value_apart(s, 0, scan_start(), path, a, b);
    lemma_literal_token(s, a, b, literal, w);
    lemma_met_again(s, t, 0, scan_start(), path, a, b, e);
    assert(t.take(a) + s.subrange(a, b) + t.skip(e) =~= s);
}

} // verus!

//! Setting a value in a document changes that value and nothing else.
use crate::config::member_from;
use crate::edit::{edited, EditView};
use crate::jsonc::{
    code_unit, comment_close, document, is_blank, items_at, member_at, members_at, number_close,
    short_escape, skip, string_from, unicode_escape, value_at, JsonView,
};
use crate::locate::{
    close_at, is_number_char, line_end, open_at, value_span, word_at, word_end, SegView,
};
use crate::number::{digit_run, is_digit};
use crate::pieces::{at, lemma_skip_bounds, lemma_value_is_token, reads, Members};
use crate::place::{
    entries_at, entry_from, in_order, is_scalar, item_entries, json_at, lemma_entry_pushed,
    lemma_entry_unknown, lemma_items_prefix, lemma_members_prefix, lemma_stops,
    lemma_values_are_found, member_entries, member_spot, place, root, same_names, tidy, under,
    Entries,
};
use vstd::prelude::*;

verus! {

// ── The same text at another place ───────────────────────────────────
/// Whether the text from `lo` to `hi` stands in `t` as well, `d` further on.
pub open spec fn same(s: Seq<char>, t: Seq<char>, lo: int, hi: int, d: int) -> bool {
    &&& 0 <= lo <= hi <= s.len()
    &&& 0 <= lo + d
    &&& hi + d <= t.len()
    &&& alike(s, t, lo, hi, d)
}

#[verifier::opaque]
pub open spec fn alike(s: Seq<char>, t: Seq<char>, lo: int, hi: int, d: int) -> bool {
    forall|k: int| lo <= k < hi ==> t[k + d] == #[trigger] s[k]
}

pub proof fn lemma_same_at(s: Seq<char>, t: Seq<char>, lo: int, hi: int, d: int, k: int)
    requires
        same(s, t, lo, hi, d),
        lo <= k < hi,
    ensures
        t[k + d] == s[k],
{
    reveal(alike);
    assert(s[k] == s[k]);
}

/// Whether both texts end there.
pub open spec fn both_end(s: Seq<char>, t: Seq<char>, hi: int, d: int) -> bool {
    hi == s.len() && hi + d == t.len()
}

/// Whether no number runs on there, in either text.
pub open spec fn halts(s: Seq<char>, t: Seq<char>, hi: int, d: int) -> bool {
    &&& hi < s.len() ==> !is_number_char(s[hi])
    &&& hi + d < t.len() ==> !is_number_char(t[hi + d])
}

pub proof fn lemma_line_end_same(s: Seq<char>, t: Seq<char>, lo: int, hi: int, d: int, i: int)
    requires
        same(s, t, lo, hi, d),
        lo <= i <= hi,
        line_end(s, i) < hi || both_end(s, t, hi, d),
    ensures
        line_end(t, i + d) == line_end(s, i) + d,
        i <= line_end(s, i),
    decreases s.len() - i,
{
    if i < s.len() {
        if i < hi {
            lemma_same_at(s, t, lo, hi, d, i);
            if s[i] != '\n' {
                lemma_line_end_same(s, t, lo, hi, d, i + 1);
            }
        } else {
            lemma_line_end_grows(s, i);
        }
    }
}

pub proof fn lemma_line_end_grows(s: Seq<char>, i: int)
    requires
        0 <= i <= s.len(),
    ensures
        i <= line_end(s, i) <= s.len(),
    decreases s.len() - i,
{
    if i < s.len() && s[i] != '\n' {
        lemma_line_end_grows(s, i + 1);
    }
}

pub proof fn lemma_comment_close_same(s: Seq<char>, t: Seq<char>, lo: int, hi: int, d: int, i: int)
    requires
        same(s, t, lo, hi, d),
        lo <= i,
        comment_close(s, i) matches Some(e) && e <= hi,
    ensures
        comment_close(t, i + d) == Some(comment_close(s, i)->0 + d),
        i + 2 <= comment_close(s, i)->0,
    decreases s.len() - i,
{
    if s[i] == '*' && s[i + 1] == '/' {
        lemma_same_at(s, t, lo, hi, d, i);
        lemma_same_at(s, t, lo, hi, d, i + 1);
    } else {
        lemma_comment_close_same(s, t, lo, hi, d, i + 1);
        lemma_same_at(s, t, lo, hi, d, i);
        lemma_same_at(s, t, lo, hi, d, i + 1);
    }
}

/// The next token is the same one.
pub proof fn lemma_skip_same(s: Seq<char>, t: Seq<char>, lo: int, hi: int, d: int, i: int)
    requires
        same(s, t, lo, hi, d),
        lo <= i <= hi,
        skip(s, i) matches Some(m) && (m < hi || both_end(s, t, hi, d)) && (m < s.len() ==> s[m]
            != '/'),
    ensures
        skip(t, i + d) == Some(skip(s, i)->0 + d),
        i <= skip(s, i)->0 <= s.len(),
    decreases s.len() - i,
{
    let m = skip(s, i)->0;
    lemma_skip_bounds(s, i);
    if i < s.len() && i < hi {
        lemma_same_at(s, t, lo, hi, d, i);
        if is_blank(s[i]) {
            lemma_skip_same(s, t, lo, hi, d, i + 1);
        } else if s[i] == '/' {
            assert(i < m);
            if i + 1 < hi {
                lemma_same_at(s, t, lo, hi, d, i + 1);
            }
            if s[i + 1] == '/' {
                let e = line_end(s, i);
                lemma_skip_bounds(s, e);
                lemma_line_end_grows(s, i);
                lemma_line_end_same(s, t, lo, hi, d, i);
                lemma_skip_same(s, t, lo, hi, d, e);
            } else {
                let e = comment_close(s, i + 2)->0;
                lemma_skip_bounds(s, e);
                lemma_comment_close_same(s, t, lo, hi, d, i + 2);
                lemma_skip_same(s, t, lo, hi, d, e);
            }
        }
    }
}

proof fn lemma_code_unit_same(s: Seq<char>, t: Seq<char>, lo: int, hi: int, d: int, i: int)
    requires
        same(s, t, lo, hi, d),
        lo <= i,
        i + 4 <= hi,
    ensures
        code_unit(t, i + d) == code_unit(s, i),
{
    lemma_same_at(s, t, lo, hi, d, i);
    lemma_same_at(s, t, lo, hi, d, i + 1);
    lemma_same_at(s, t, lo, hi, d, i + 2);
    lemma_same_at(s, t, lo, hi, d, i + 3);
}

proof fn lemma_unicode_same(s: Seq<char>, t: Seq<char>, lo: int, hi: int, d: int, i: int)
    requires
        same(s, t, lo, hi, d),
        lo <= i,
        unicode_escape(s, i) matches Some((_, e)) && e <= hi,
    ensures
        ({
            let (c, e) = unicode_escape(s, i)->0;
            unicode_escape(t, i + d) == Some((c, e + d))
        }),
{
    lemma_code_unit_same(s, t, lo, hi, d, i);
    let h = code_unit(s, i)->0;
    if 0xd800 <= h <= 0xdfff {
        lemma_code_unit_same(s, t, lo, hi, d, i + 6);
        lemma_same_at(s, t, lo, hi, d, i + 4);
        lemma_same_at(s, t, lo, hi, d, i + 5);
    }
}

proof fn lemma_string_bounds(s: Seq<char>, i: int, before: Seq<char>)
    requires
        string_from(s, i, before) is Some,
    ensures
        ({
            let (_, e) = string_from(s, i, before)->0;
            0 <= i < e <= s.len()
        }),
    decreases s.len() - i,
{
    if s[i] == '"' {
    } else if s[i] == '\\' {
        if s[i + 1] == 'u' {
            let (c, n) = unicode_escape(s, i + 2)->0;
            lemma_string_bounds(s, n, before.push(c));
        } else {
            lemma_string_bounds(s, i + 2, before.push(short_escape(s[i + 1])->0));
        }
    } else {
        lemma_string_bounds(s, i + 1, before.push(s[i]));
    }
}

#[verifier::rlimit(40)]
#[verifier::spinoff_prover]
pub proof fn lemma_string_same(
    s: Seq<char>,
    t: Seq<char>,
    lo: int,
    hi: int,
    d: int,
    i: int,
    before: Seq<char>,
)
    requires
        same(s, t, lo, hi, d),
        lo <= i,
        string_from(s, i, before) matches Some((_, e)) && e <= hi,
    ensures
        ({
            let (x, e) = string_from(s, i, before)->0;
            &&& string_from(t, i + d, before) == Some((x, e + d))
            &&& i < e
        }),
    decreases s.len() - i,
{
    lemma_string_bounds(s, i, before);
    lemma_same_at(s, t, lo, hi, d, i);
    if s[i] == '"' {
    } else if s[i] == '\\' {
        if s[i + 1] == 'u' {
            let (c, n) = unicode_escape(s, i + 2)->0;
            lemma_string_bounds(s, n, before.push(c));
            lemma_same_at(s, t, lo, hi, d, i + 1);
            lemma_unicode_same(s, t, lo, hi, d, i + 2);
            lemma_string_same(s, t, lo, hi, d, n, before.push(c));
        } else {
            let c = short_escape(s[i + 1])->0;
            lemma_string_bounds(s, i + 2, before.push(c));
            lemma_same_at(s, t, lo, hi, d, i + 1);
            lemma_string_same(s, t, lo, hi, d, i + 2, before.push(c));
        }
    } else {
        lemma_string_bounds(s, i + 1, before.push(s[i]));
        lemma_string_same(s, t, lo, hi, d, i + 1, before.push(s[i]));
    }
}

proof fn lemma_digits_same(s: Seq<char>, t: Seq<char>, lo: int, hi: int, d: int, i: int)
    requires
        same(s, t, lo, hi, d),
        lo <= i <= hi,
        digit_run(s, i) < hi || (digit_run(s, i) <= hi && halts(s, t, hi, d)),
    ensures
        digit_run(t, i + d) == digit_run(s, i) + d,
        i <= digit_run(s, i) <= hi,
    decreases s.len() - i,
{
    if i < hi {
        lemma_same_at(s, t, lo, hi, d, i);
        if is_digit(s[i]) {
            lemma_digits_same(s, t, lo, hi, d, i + 1);
        }
    } else {
        lemma_digits_grow(s, i);
    }
}

proof fn lemma_digits_grow(s: Seq<char>, i: int)
    requires
        0 <= i,
    ensures
        i <= digit_run(s, i),
        i <= s.len() ==> digit_run(s, i) <= s.len(),
    decreases s.len() - i,
{
    if i < s.len() && is_digit(s[i]) {
        lemma_digits_grow(s, i + 1);
    }
}

proof fn lemma_number_bounds(s: Seq<char>, i: int)
    requires
        0 <= i < s.len(),
        number_close(s, i) is Some,
    ensures
        i < number_close(s, i)->0 <= s.len(),
{
    let w = if s[i] == '-' {
        i + 1
    } else {
        i
    };
    assert(is_digit(s[w]));
    lemma_digits_grow(s, w);
    lemma_digits_grow(s, w + 1);
    let wend = if s[w] == '0' {
        w + 1
    } else {
        digit_run(s, w)
    };
    lemma_digits_grow(s, wend + 1);
    let fend = if wend < s.len() && s[wend] == '.' {
        digit_run(s, wend + 1)
    } else {
        wend
    };
    lemma_digits_grow(s, fend + 1);
    lemma_digits_grow(s, fend + 2);
}

/// A number reads the same where its text is the same.
proof fn lemma_number_same(s: Seq<char>, t: Seq<char>, lo: int, hi: int, d: int, i: int)
    requires
        same(s, t, lo, hi, d),
        lo <= i < hi,
        number_close(s, i) matches Some(e) && (e < hi || (e <= hi && halts(s, t, hi, d))),
    ensures
        number_close(t, i + d) == Some(number_close(s, i)->0 + d),
        i < number_close(s, i)->0 <= s.len(),
{
    let e = number_close(s, i)->0;
    lemma_same_at(s, t, lo, hi, d, i);
    let w = if s[i] == '-' {
        i + 1
    } else {
        i
    };
    lemma_digits_grow(s, w);
    let wend = if s[w] == '0' {
        w + 1
    } else {
        digit_run(s, w)
    };
    assert(is_digit(s[w]));
    lemma_digits_grow(s, w + 1);
    lemma_digits_grow(s, wend + 1);
    let fend = if wend < s.len() && s[wend] == '.' {
        digit_run(s, wend + 1)
    } else {
        wend
    };
    lemma_digits_grow(s, fend + 1);
    lemma_digits_grow(s, fend + 2);
    assert(wend <= fend <= e <= s.len());
    assert(w < hi);
    lemma_same_at(s, t, lo, hi, d, w);
    if s[w] != '0' {
        lemma_digits_same(s, t, lo, hi, d, w);
    }
    if wend < hi {
        lemma_same_at(s, t, lo, hi, d, wend);
        if s[wend] == '.' {
            lemma_digits_same(s, t, lo, hi, d, wend + 1);
        }
    }
    if fend < hi {
        lemma_same_at(s, t, lo, hi, d, fend);
        if s[fend] == 'e' || s[fend] == 'E' {
            if fend + 1 < hi {
                lemma_same_at(s, t, lo, hi, d, fend + 1);
            }
            let x = if fend + 1 < s.len() && (s[fend + 1] == '+' || s[fend + 1] == '-') {
                fend + 2
            } else {
                fend + 1
            };
            assert(x <= e);
            lemma_digits_same(s, t, lo, hi, d, x);
        }
    }
}

proof fn lemma_word_at_same(
    s: Seq<char>,
    t: Seq<char>,
    lo: int,
    hi: int,
    d: int,
    i: int,
    w: Seq<char>,
)
    requires
        same(s, t, lo, hi, d),
        lo <= i < hi,
        w.len() > 0,
        i + w.len() <= hi,
    ensures
        word_at(t, i + d, w) == word_at(s, i, w),
{
    let x = s.subrange(i, i + w.len());
    let y = t.subrange(i + d, i + d + w.len());
    assert forall|k: int| 0 <= k < w.len() implies x[k] == y[k] by {
        lemma_same_at(s, t, lo, hi, d, i + k);
    }
    assert(x =~= y);
}

proof fn lemma_word_same(s: Seq<char>, t: Seq<char>, lo: int, hi: int, d: int, i: int)
    requires
        same(s, t, lo, hi, d),
        lo <= i < hi,
        word_end(s, i) matches Some(e) && e <= hi,
    ensures
        word_end(t, i + d) == Some(word_end(s, i)->0 + d),
{
    let e = word_end(s, i)->0;
    let yes = seq!['t', 'r', 'u', 'e'];
    let no = seq!['f', 'a', 'l', 's', 'e'];
    let none = seq!['n', 'u', 'l', 'l'];
    lemma_same_at(s, t, lo, hi, d, i);
    if word_at(s, i, yes) {
        lemma_word_at_same(s, t, lo, hi, d, i, yes);
    } else if word_at(s, i, no) {
        lemma_word_at_same(s, t, lo, hi, d, i, no);
        assert(s.subrange(i, i + 5)[0] == s[i]);
        if word_at(t, i + d, yes) {
            assert(t.subrange(i + d, i + d + 4)[0] == t[i + d]);
        }
    } else {
        lemma_word_at_same(s, t, lo, hi, d, i, none);
        assert(s.subrange(i, i + 4)[0] == s[i]);
        if word_at(t, i + d, yes) {
            assert(t.subrange(i + d, i + d + 4)[0] == t[i + d]);
        }
        if word_at(t, i + d, no) {
            assert(t.subrange(i + d, i + d + 5)[0] == t[i + d]);
        }
    }
}

/// A value ends behind its beginning, inside the text.
pub proof fn lemma_value_bounds(s: Seq<char>, i: int)
    requires
        value_at(s, i) is Some,
    ensures
        ({
            let (_, e) = value_at(s, i)->0;
            0 <= i < e <= s.len()
        }),
{
    if s[i] == '{' {
        lemma_members_prefix(s, skip(s, i + 1)->0, Seq::empty());
    } else if s[i] == '[' {
        lemma_items_prefix(s, skip(s, i + 1)->0, Seq::empty());
    } else if s[i] == '"' {
        lemma_string_bounds(s, i + 1, Seq::empty());
    } else if s[i] == '-' || '0' <= s[i] <= '9' {
        lemma_number_bounds(s, i);
    }
}

/// A value reads the same where its text is the same.
pub proof fn lemma_value_same(s: Seq<char>, t: Seq<char>, lo: int, hi: int, d: int, i: int)
    requires
        same(s, t, lo, hi, d),
        lo <= i < hi,
        value_at(s, i) matches Some((_, e)) && (e < hi || (e <= hi && halts(s, t, hi, d))),
    ensures
        ({
            let (v, e) = value_at(s, i)->0;
            value_at(t, i + d) == Some((v, e + d))
        }),
    decreases s.len() - i, 0int,
{
    let (v, e) = value_at(s, i)->0;
    lemma_value_bounds(s, i);
    lemma_same_at(s, t, lo, hi, d, i);
    if s[i] == '{' {
        let j = skip(s, i + 1)->0;
        lemma_members_prefix(s, j, Seq::empty());
        lemma_skip_same(s, t, lo, hi, d, i + 1);
        lemma_members_same(s, t, lo, hi, d, j, Seq::empty());
    } else if s[i] == '[' {
        let j = skip(s, i + 1)->0;
        lemma_items_prefix(s, j, Seq::empty());
        lemma_no_slash_item(s, j, Seq::empty());
        lemma_skip_same(s, t, lo, hi, d, i + 1);
        lemma_items_same(s, t, lo, hi, d, j, Seq::empty());
    } else if s[i] == '"' {
        lemma_string_same(s, t, lo, hi, d, i + 1, Seq::empty());
    } else if s[i] == '-' || '0' <= s[i] <= '9' {
        lemma_number_same(s, t, lo, hi, d, i);
        let x = s.subrange(i, e);
        let y = t.subrange(i + d, e + d);
        assert forall|k: int| 0 <= k < x.len() implies x[k] == y[k] by {
            lemma_same_at(s, t, lo, hi, d, i + k);
        }
        assert(x =~= y);
    } else {
        lemma_word_same(s, t, lo, hi, d, i);
    }
}

pub proof fn lemma_no_slash_item(s: Seq<char>, i: int, before: Seq<JsonView>)
    requires
        items_at(s, i, before) is Some,
    ensures
        s[i] != '/',
{
    if s[i] != ']' {
        lemma_value_is_token(s, i);
    }
}

/// The bounds of the parts of the member whose key stands at `i`: its key, its
/// colon, its value, and the token behind it.
pub proof fn lemma_member_bounds(s: Seq<char>, i: int)
    requires
        0 <= i,
        member_at(s, i) matches Some((_, _, m)) && m <= s.len(),
    ensures
        ({
            let (name, k) = string_from(s, i + 1, Seq::empty())->0;
            let c = skip(s, k)->0;
            let v = skip(s, c + 1)->0;
            let (x, f) = value_at(s, v)->0;
            let (n, value, m) = member_at(s, i)->0;
            &&& string_from(s, i + 1, Seq::empty()) is Some
            &&& skip(s, k) is Some
            &&& skip(s, c + 1) is Some
            &&& value_at(s, v) is Some
            &&& skip(s, f) == Some(m)
            &&& n == name
            &&& value == x
            &&& s[c] == ':'
            &&& i < k <= c < v < f <= m <= s.len()
        }),
{
    let (name, k) = string_from(s, i + 1, Seq::empty())->0;
    lemma_string_bounds(s, i + 1, Seq::empty());
    let c = skip(s, k)->0;
    lemma_skip_bounds(s, k);
    let v = skip(s, c + 1)->0;
    lemma_skip_bounds(s, c + 1);
    let (x, f) = value_at(s, v)->0;
    lemma_value_bounds(s, v);
    lemma_skip_bounds(s, f);
}

pub proof fn lemma_member_same(s: Seq<char>, t: Seq<char>, lo: int, hi: int, d: int, i: int)
    requires
        same(s, t, lo, hi, d),
        lo <= i,
        member_at(s, i) matches Some((_, _, m)) && m < hi && s[m] != '/',
    ensures
        ({
            let (name, value, m) = member_at(s, i)->0;
            &&& member_at(t, i + d) == Some((name, value, m + d))
            &&& i < m
        }),
    decreases s.len() - i, 0int,
{
    lemma_member_bounds(s, i);
    let (name, k) = string_from(s, i + 1, Seq::empty())->0;
    let c = skip(s, k)->0;
    let v = skip(s, c + 1)->0;
    let (x, f) = value_at(s, v)->0;
    lemma_string_same(s, t, lo, hi, d, i + 1, Seq::empty());
    lemma_skip_same(s, t, lo, hi, d, k);
    lemma_same_at(s, t, lo, hi, d, c);
    lemma_value_is_token(s, v);
    lemma_skip_same(s, t, lo, hi, d, c + 1);
    lemma_value_same(s, t, lo, hi, d, v);
    lemma_skip_same(s, t, lo, hi, d, f);
}

/// The members of an object read the same where their text is the same.
pub proof fn lemma_members_same(
    s: Seq<char>,
    t: Seq<char>,
    lo: int,
    hi: int,
    d: int,
    i: int,
    before: Members,
)
    requires
        same(s, t, lo, hi, d),
        lo <= i,
        members_at(s, i, before) matches Some((_, e)) && e <= hi,
    ensures
        ({
            let (m, e) = members_at(s, i, before)->0;
            members_at(t, i + d, before) == Some((m, e + d))
        }),
    decreases s.len() - i, 1int,
{
    lemma_members_prefix(s, i, before);
    lemma_same_at(s, t, lo, hi, d, i);
    if s[i] != '}' {
        let (name, value, k) = member_at(s, i)->0;
        let more = before.push((name, value));
        if s[k] == ',' {
            let n = skip(s, k + 1)->0;
            lemma_members_prefix(s, n, more);
            lemma_skip_bounds(s, k + 1);
            lemma_member_same(s, t, lo, hi, d, i);
            lemma_same_at(s, t, lo, hi, d, k);
            lemma_skip_same(s, t, lo, hi, d, k + 1);
            lemma_members_same(s, t, lo, hi, d, n, more);
        } else {
            lemma_member_same(s, t, lo, hi, d, i);
            lemma_same_at(s, t, lo, hi, d, k);
        }
    }
}

/// The elements of an array read the same where their text is the same.
pub proof fn lemma_items_same(
    s: Seq<char>,
    t: Seq<char>,
    lo: int,
    hi: int,
    d: int,
    i: int,
    before: Seq<JsonView>,
)
    requires
        same(s, t, lo, hi, d),
        lo <= i,
        items_at(s, i, before) matches Some((_, e)) && e <= hi,
    ensures
        ({
            let (v, e) = items_at(s, i, before)->0;
            items_at(t, i + d, before) == Some((v, e + d))
        }),
    decreases s.len() - i, 1int,
{
    lemma_items_prefix(s, i, before);
    lemma_same_at(s, t, lo, hi, d, i);
    if s[i] != ']' {
        let (x, f) = value_at(s, i)->0;
        let more = before.push(x);
        let k = skip(s, f)->0;
        lemma_value_bounds(s, i);
        lemma_skip_bounds(s, f);
        if s[k] == ',' {
            let n = skip(s, k + 1)->0;
            lemma_items_prefix(s, n, more);
            lemma_skip_bounds(s, k + 1);
            lemma_no_slash_item(s, n, more);
            lemma_value_same(s, t, lo, hi, d, i);
            lemma_skip_same(s, t, lo, hi, d, f);
            lemma_same_at(s, t, lo, hi, d, k);
            lemma_skip_same(s, t, lo, hi, d, k + 1);
            lemma_items_same(s, t, lo, hi, d, n, more);
        } else {
            lemma_value_same(s, t, lo, hi, d, i);
            lemma_skip_same(s, t, lo, hi, d, f);
            lemma_same_at(s, t, lo, hi, d, k);
        }
    }
}

// ── Entries and values ───────────────────────────────────────────────
/// Whether the value of each entry stands there, and nothing runs into it.
spec fn sound(s: Seq<char>, es: Entries) -> bool {
    forall|k: int|
        0 <= k < es.len() ==> (value_at(s, (#[trigger] es[k]).1) matches Some((_, f)) && f
            < s.len() && !is_number_char(s[f]))
}

/// Whether the entries are the members.
spec fn are_members(s: Seq<char>, es: Entries, m: Members) -> bool {
    &&& same_names(es, m)
    &&& forall|k: int|
        0 <= k < m.len() ==> (value_at(s, (#[trigger] es[k]).1) matches Some((x, _)) && x == m[k].1)
}

/// Whether the entries are the elements.
spec fn are_items(s: Seq<char>, es: Entries, v: Seq<JsonView>) -> bool {
    &&& in_order(es)
    &&& es.len() == v.len()
    &&& forall|k: int|
        0 <= k < v.len() ==> (value_at(s, (#[trigger] es[k]).1) matches Some((x, _)) && x == v[k])
}

proof fn lemma_member_entries(s: Seq<char>, i: int, before: Members, es: Entries)
    requires
        members_at(s, i, before) is Some,
        are_members(s, es, before),
        sound(s, es),
    ensures
        ({
            let (m, e) = members_at(s, i, before)->0;
            let all = member_entries(s, i, es);
            &&& are_members(s, all, m)
            &&& sound(s, all)
            &&& es.len() <= all.len()
            &&& all.take(es.len() as int) == es
        }),
    decreases s.len() - i,
{
    let n = es.len() as int;
    let all = member_entries(s, i, es);
    if s[i] == '}' {
        assert(all.take(n) =~= es);
    } else {
        let (name, value, k) = member_at(s, i)->0;
        lemma_member_bounds(s, i);
        let spot = member_spot(s, i);
        let (x, f) = value_at(s, spot)->0;
        lemma_stops(s, f);
        lemma_value_bounds(s, spot);
        let more = before.push((name, value));
        let some = es.push((SegView::Key(name), spot));
        assert(some.take(n) =~= es);
        assert(are_members(s, some, more)) by {
            assert forall|l: int| 0 <= l < more.len() implies (value_at(
                s,
                (#[trigger] some[l]).1,
            ) matches Some((x, _)) && x == more[l].1) by {
                if l < n {
                    assert(some[l] == es[l]);
                }
            }
            assert forall|l: int| 0 <= l < more.len() implies (#[trigger] some[l]).0
                == SegView::Key(more[l].0) by {
                if l < n {
                    assert(some[l] == es[l]);
                }
            }
        }
        assert(sound(s, some)) by {
            assert forall|l: int| 0 <= l < some.len() implies (value_at(
                s,
                (#[trigger] some[l]).1,
            ) matches Some((_, f)) && f < s.len() && !is_number_char(s[f])) by {
                if l < n {
                    assert(some[l] == es[l]);
                }
            }
        }
        if s[k] == ',' {
            lemma_member_entries(s, skip(s, k + 1)->0, more, some);
            assert(all.take(n) =~= all.take(n + 1).take(n));
        }
    }
}

proof fn lemma_item_entries(s: Seq<char>, i: int, before: Seq<JsonView>, es: Entries)
    requires
        items_at(s, i, before) is Some,
        are_items(s, es, before),
        sound(s, es),
    ensures
        ({
            let (v, e) = items_at(s, i, before)->0;
            let all = item_entries(s, i, es);
            &&& are_items(s, all, v)
            &&& sound(s, all)
            &&& es.len() <= all.len()
            &&& all.take(es.len() as int) == es
        }),
    decreases s.len() - i,
{
    let n = es.len() as int;
    let all = item_entries(s, i, es);
    if s[i] == ']' {
        assert(all.take(n) =~= es);
    } else {
        let (x, f) = value_at(s, i)->0;
        let k = skip(s, f)->0;
        lemma_value_bounds(s, i);
        lemma_stops(s, f);
        lemma_skip_bounds(s, f);
        let more = before.push(x);
        let some = es.push((SegView::Index(es.len()), i));
        assert(some.take(n) =~= es);
        assert(are_items(s, some, more)) by {
            assert forall|l: int| 0 <= l < more.len() implies (value_at(
                s,
                (#[trigger] some[l]).1,
            ) matches Some((x, _)) && x == more[l]) by {
                if l < n {
                    assert(some[l] == es[l]);
                }
            }
            assert forall|l: int| 0 <= l < some.len() implies (#[trigger] some[l]).0
                == SegView::Index(l as nat) by {
                if l < n {
                    assert(some[l] == es[l]);
                }
            }
        }
        assert(sound(s, some)) by {
            assert forall|l: int| 0 <= l < some.len() implies (value_at(
                s,
                (#[trigger] some[l]).1,
            ) matches Some((_, f)) && f < s.len() && !is_number_char(s[f])) by {
                if l < n {
                    assert(some[l] == es[l]);
                }
            }
        }
        if s[k] == ',' {
            lemma_item_entries(s, skip(s, k + 1)->0, more, some);
            assert(all.take(n) =~= all.take(n + 1).take(n));
        }
    }
}

/// The entries of a value are its members or elements.
proof fn lemma_entries(s: Seq<char>, i: int)
    requires
        value_at(s, i) is Some,
    ensures
        sound(s, entries_at(s, i)),
        ({
            let (v, e) = value_at(s, i)->0;
            match v {
                JsonView::Object(m) => s[i] == '{' && are_members(s, entries_at(s, i), m),
                JsonView::Array(x) => s[i] == '[' && are_items(s, entries_at(s, i), x),
                _ => entries_at(s, i).len() == 0,
            }
        }),
{
    if s[i] == '{' {
        lemma_member_entries(s, skip(s, i + 1)->0, Seq::empty(), Seq::empty());
    } else if s[i] == '[' {
        lemma_item_entries(s, skip(s, i + 1)->0, Seq::empty(), Seq::empty());
    }
}

proof fn lemma_entry_at(es: Entries, a: SegView, k: int)
    requires
        0 <= k,
        entry_from(es, a, k) is Some,
    ensures
        exists|l: int|
            k <= l < es.len() && (#[trigger] es[l]).0 == a && entry_from(es, a, k) == Some(es[l].1),
    decreases es.len() - k,
{
    if es[k].0 != a {
        lemma_entry_at(es, a, k + 1);
    }
}

/// The first member of a name, from member `k` on.
pub open spec fn index_of(m: Members, name: Seq<char>, k: int) -> Option<int>
    decreases m.len() - k,
{
    if k < 0 || k >= m.len() {
        None
    } else if m[k].0 == name {
        Some(k)
    } else {
        index_of(m, name, k + 1)
    }
}

pub proof fn lemma_index_of(m: Members, name: Seq<char>, k: int)
    requires
        0 <= k,
    ensures
        match index_of(m, name, k) {
            Some(n) => k <= n < m.len() && m[n].0 == name && member_from(m, name, k) == Some(
                m[n].1,
            ),
            None => member_from(m, name, k) is None,
        },
    decreases m.len() - k,
{
    if k < m.len() && m[k].0 != name {
        lemma_index_of(m, name, k + 1);
    }
}

proof fn lemma_entry_member(s: Seq<char>, es: Entries, m: Members, name: Seq<char>, k: int)
    requires
        are_members(s, es, m),
        0 <= k,
    ensures
        match entry_from(es, SegView::Key(name), k) {
            Some(x) => index_of(m, name, k) matches Some(n) && x == es[n].1,
            None => index_of(m, name, k) is None,
        },
    decreases m.len() - k,
{
    if k < m.len() {
        assert(es[k].0 == SegView::Key(m[k].0));
        if m[k].0 != name {
            lemma_entry_member(s, es, m, name, k + 1);
        }
    }
}

proof fn lemma_entry_item(s: Seq<char>, es: Entries, v: Seq<JsonView>, n: nat, k: int)
    requires
        are_items(s, es, v),
        0 <= k <= n,
    ensures
        entry_from(es, SegView::Index(n), k) == (if n < v.len() {
            Some(es[n as int].1)
        } else {
            None
        }),
    decreases v.len() - k,
{
    if k < v.len() {
        assert(es[k].0 == SegView::Index(k as nat));
        if k < n {
            lemma_entry_item(s, es, v, n, k + 1);
        }
    }
}

/// What begins at the place of a path is the value at the path.
pub proof fn lemma_place_is_value(s: Seq<char>, i: int, path: Seq<SegView>)
    requires
        value_at(s, i) is Some,
    ensures
        ({
            let (v, _) = value_at(s, i)->0;
            match place(s, i, path) {
                Some(a) => value_at(s, a) matches Some((x, _)) && json_at(v, path) == Some(x),
                None => json_at(v, path) is None,
            }
        }),
    decreases path.len(),
{
    let (v, e) = value_at(s, i)->0;
    if path.len() > 0 {
        let es = entries_at(s, i);
        lemma_entries(s, i);
        match (v, path[0]) {
            (JsonView::Object(m), SegView::Key(name)) => {
                lemma_entry_member(s, es, m, name, 0);
                lemma_index_of(m, name, 0);
                if let Some(x) = entry_from(es, path[0], 0) {
                    let n = index_of(m, name, 0)->0;
                    assert(es[n].1 == x);
                    lemma_place_is_value(s, x, path.drop_first());
                }
            },
            (JsonView::Array(items), SegView::Index(n)) => {
                lemma_entry_item(s, es, items, n, 0);
                if n < items.len() {
                    assert(value_at(s, es[n as int].1) is Some);
                    lemma_place_is_value(s, es[n as int].1, path.drop_first());
                }
            },
            (JsonView::Object(m), SegView::Index(n)) => {
                assert forall|l: int| 0 <= l < es.len() implies (#[trigger] es[l]).0 != path[0] by {}
                lemma_entry_unknown(es, path[0], 0);
            },
            (JsonView::Array(items), SegView::Key(name)) => {
                assert forall|l: int| 0 <= l < es.len() implies (#[trigger] es[l]).0 != path[0] by {}
                lemma_entry_unknown(es, path[0], 0);
            },
            _ => {
                lemma_entry_unknown(es, path[0], 0);
            },
        }
    }
}

/// Nothing runs into a value inside a container.
proof fn lemma_place_stops(s: Seq<char>, i: int, path: Seq<SegView>)
    requires
        value_at(s, i) is Some,
        place(s, i, path) is Some,
        path.len() > 0,
    ensures
        value_at(s, place(s, i, path)->0) matches Some((_, f)) && f < s.len() && !is_number_char(
            s[f],
        ),
    decreases path.len(),
{
    let es = entries_at(s, i);
    lemma_entries(s, i);
    lemma_entry_at(es, path[0], 0);
    let x = entry_from(es, path[0], 0)->0;
    let l = choose|l: int|
        0 <= l < es.len() && (#[trigger] es[l]).0 == path[0] && entry_from(es, path[0], 0) == Some(
            es[l].1,
        );
    assert(es[l].1 == x);
    if path.len() > 1 {
        lemma_place_stops(s, x, path.drop_first());
    }
}

// ── Setting a value ──────────────────────────────────────────────────
/// The value with another one at a path, where there is one.
pub open spec fn replaced(j: JsonView, path: Seq<SegView>, w: JsonView) -> JsonView
    decreases path.len(),
{
    if path.len() == 0 {
        w
    } else {
        match (j, path[0]) {
            (JsonView::Object(m), SegView::Key(name)) => match index_of(m, name, 0) {
                Some(n) => JsonView::Object(
                    m.update(n, (name, replaced(m[n].1, path.drop_first(), w))),
                ),
                None => j,
            },
            (JsonView::Array(v), SegView::Index(n)) => if n < v.len() {
                JsonView::Array(v.update(n as int, replaced(v[n as int], path.drop_first(), w)))
            } else {
                j
            },
            _ => j,
        }
    }
}

/// Whether `t` is `s` with another text from `a` to `b`, `d` longer.
spec fn patched(s: Seq<char>, t: Seq<char>, a: int, b: int, d: int) -> bool {
    &&& same(s, t, 0, a, 0)
    &&& same(s, t, b, s.len() as int, d)
    &&& s.len() + d == t.len()
    &&& a < b
    &&& a < b + d
    &&& a < t.len()
}

/// The next token is the changed one.
proof fn lemma_skip_reaches(s: Seq<char>, t: Seq<char>, a: int, i: int)
    requires
        same(s, t, 0, a, 0),
        0 <= i <= a < s.len(),
        skip(s, i) == Some(a),
        s[a] != '/',
        skip(t, a) == Some(a),
    ensures
        skip(t, i) == Some(a),
    decreases a - i,
{
    if i < a {
        lemma_same_at(s, t, 0, a, 0, i);
        if is_blank(s[i]) {
            lemma_skip_bounds(s, i + 1);
            lemma_skip_reaches(s, t, a, i + 1);
        } else {
            assert(s[i] == '/');
            if i + 1 < a {
                lemma_same_at(s, t, 0, a, 0, i + 1);
            }
            if s[i + 1] == '/' {
                let e = line_end(s, i);
                lemma_line_end_grows(s, i);
                lemma_skip_bounds(s, e);
                lemma_line_break(s, i);
                lemma_line_end_same(s, t, 0, a, 0, i);
                lemma_skip_reaches(s, t, a, e);
            } else {
                let e = comment_close(s, i + 2)->0;
                lemma_skip_bounds(s, e);
                lemma_comment_close_same(s, t, 0, a, 0, i + 2);
                lemma_skip_reaches(s, t, a, e);
            }
        }
    }
}

/// A line ends at a line break or at the end of the text; the next token is
/// behind it.
pub proof fn lemma_line_break(s: Seq<char>, i: int)
    requires
        0 <= i <= s.len(),
    ensures
        line_end(s, i) < s.len() ==> s[line_end(s, i)] == '\n',
        line_end(s, i) < s.len() && skip(s, line_end(s, i)) is Some ==> line_end(s, i) < skip(
            s,
            line_end(s, i),
        )->0,
    decreases s.len() - i,
{
    if i < s.len() {
        if s[i] != '\n' {
            lemma_line_break(s, i + 1);
        } else {
            if skip(s, i) is Some {
                lemma_skip_bounds(s, i + 1);
            }
        }
    }
}

/// The way to a token that stands before the changed place, or at it.
proof fn lemma_skip_up_to(s: Seq<char>, t: Seq<char>, a: int, i: int, x: int)
    requires
        same(s, t, 0, a, 0),
        0 <= i <= x <= a < s.len(),
        skip(s, i) == Some(x),
        s[x] != '/',
        s[a] != '/',
        skip(t, a) == Some(a),
    ensures
        skip(t, i) == Some(x),
{
    if x < a {
        lemma_skip_same(s, t, 0, a, 0, i);
    } else {
        lemma_skip_reaches(s, t, a, i);
    }
}

/// What was collected before does not change what comes.
pub proof fn lemma_members_behind(s: Seq<char>, i: int, before: Members, other: Members)
    requires
        members_at(s, i, before) is Some,
    ensures
        ({
            let (m, e) = members_at(s, i, before)->0;
            members_at(s, i, other) == Some((other + m.skip(before.len() as int), e))
        }),
    decreases s.len() - i,
{
    let (m, e) = members_at(s, i, before)->0;
    let n = before.len() as int;
    lemma_members_prefix(s, i, before);
    if s[i] == '}' {
        assert(other + m.skip(n) =~= other);
    } else {
        let (name, value, k) = member_at(s, i)->0;
        let x = (name, value);
        if s[k] == ',' {
            let next = skip(s, k + 1)->0;
            lemma_members_prefix(s, next, before.push(x));
            assert(m.take(n + 1)[n] == before.push(x)[n]);
            lemma_members_behind(s, next, before.push(x), other.push(x));
            assert(other.push(x) + m.skip(n + 1) =~= other + m.skip(n));
        } else {
            assert(other.push(x) =~= other + m.skip(n));
        }
    }
}

proof fn lemma_items_behind(s: Seq<char>, i: int, before: Seq<JsonView>, other: Seq<JsonView>)
    requires
        items_at(s, i, before) is Some,
    ensures
        ({
            let (v, e) = items_at(s, i, before)->0;
            items_at(s, i, other) == Some((other + v.skip(before.len() as int), e))
        }),
    decreases s.len() - i,
{
    let (v, e) = items_at(s, i, before)->0;
    let n = before.len() as int;
    lemma_items_prefix(s, i, before);
    if s[i] == ']' {
        assert(other + v.skip(n) =~= other);
    } else {
        let (x, f) = value_at(s, i)->0;
        let k = skip(s, f)->0;
        if s[k] == ',' {
            let next = skip(s, k + 1)->0;
            lemma_items_prefix(s, next, before.push(x));
            assert(v.take(n + 1)[n] == before.push(x)[n]);
            lemma_items_behind(s, next, before.push(x), other.push(x));
            assert(other.push(x) + v.skip(n + 1) =~= other + v.skip(n));
        } else {
            assert(other.push(x) =~= other + v.skip(n));
        }
    }
}

proof fn lemma_entry_prefix(es: Entries, all: Entries, a: SegView, k: int)
    requires
        es.len() <= all.len(),
        all.take(es.len() as int) == es,
        0 <= k <= es.len(),
    ensures
        entry_from(es, a, k) is Some ==> entry_from(all, a, k) == entry_from(es, a, k),
        entry_from(es, a, k) is None ==> entry_from(all, a, k) == entry_from(
            all,
            a,
            es.len() as int,
        ),
    decreases es.len() - k,
{
    if k < es.len() {
        assert(all.take(es.len() as int)[k] == all[k]);
        lemma_entry_prefix(es, all, a, k + 1);
    }
}

/// A value with a changed value at a place inside reads as the value with
/// another one at the path.
#[verifier::rlimit(30)]
proof fn lemma_value_set(
    s: Seq<char>,
    t: Seq<char>,
    i: int,
    path: Seq<SegView>,
    a: int,
    b: int,
    d: int,
    w: JsonView,
)
    requires
        value_at(s, i) is Some,
        place(s, i, path) == Some(a),
        value_at(s, a) matches Some((_, f)) && f == b,
        patched(s, t, a, b, d),
        value_at(t, a) == Some((w, b + d)),
    ensures
        ({
            let (v, e) = value_at(s, i)->0;
            &&& value_at(t, i) == Some((replaced(v, path, w), e + d))
            &&& i <= a
            &&& b <= e
            &&& path.len() > 0 ==> i < a
        }),
    decreases s.len() - i, 0int,
{
    let (v, e) = value_at(s, i)->0;
    if path.len() > 0 {
        lemma_entries(s, i);
        lemma_value_bounds(s, i);
        let es = entries_at(s, i);
        let rest = path.drop_first();
        let x = entry_from(es, path[0], 0)->0;
        lemma_entry_at(es, path[0], 0);
        let j = skip(s, i + 1)->0;
        lemma_value_is_token(t, a);
        lemma_value_is_token(s, a);
        if let JsonView::Object(m) = v {
            if let SegView::Key(name) = path[0] {
                lemma_members_set(s, t, j, Seq::empty(), Seq::empty(), name, rest, x, a, b, d, w);
                lemma_skip_bounds(s, i + 1);
                lemma_same_at(s, t, 0, a, 0, i);
                lemma_members_prefix(s, j, Seq::empty());
                lemma_skip_same(s, t, 0, a, 0, i + 1);
                lemma_members_prefix(t, j, Seq::empty());
            } else {
                assert forall|l: int| 0 <= l < es.len() implies (#[trigger] es[l]).0 != path[0] by {}
            }
        } else if let JsonView::Array(items) = v {
            if let SegView::Index(n) = path[0] {
                lemma_items_set(s, t, j, Seq::empty(), Seq::empty(), n, rest, x, a, b, d, w);
                lemma_skip_bounds(s, i + 1);
                lemma_same_at(s, t, 0, a, 0, i);
                lemma_no_slash_item(s, j, Seq::empty());
                lemma_skip_up_to(s, t, a, i + 1, j);
                lemma_items_prefix(t, j, Seq::empty());
            } else {
                assert forall|l: int| 0 <= l < es.len() implies (#[trigger] es[l]).0 != path[0] by {}
            }
        }
    }
}

/// The member at `i` holds the change.
#[verifier::rlimit(30)]
proof fn lemma_member_hit(
    s: Seq<char>,
    t: Seq<char>,
    i: int,
    before: Members,
    a: int,
    b: int,
    d: int,
    new: JsonView,
)
    requires
        members_at(s, i, before) is Some,
        s[i] == '"',
        patched(s, t, a, b, d),
        a < s.len(),
        s[a] != '/',
        skip(t, a) == Some(a),
        ({
            let v = member_spot(s, i);
            let (_, f) = value_at(s, v)->0;
            v <= a && b <= f && value_at(t, v) == Some((new, f + d))
        }),
    ensures
        ({
            let (m, e) = members_at(s, i, before)->0;
            let (key, value, _) = member_at(s, i)->0;
            let l = before.len() as int;
            &&& l < m.len()
            &&& m[l] == (key, value)
            &&& members_at(t, i, before) == Some((m.update(l, (key, new)), e + d))
            &&& i < a
            &&& b <= e
        }),
{
    let (m, e) = members_at(s, i, before)->0;
    lemma_members_prefix(s, i, before);
    let (key, value, k) = member_at(s, i)->0;
    lemma_member_bounds(s, i);
    let (q, q2) = string_from(s, i + 1, Seq::empty())->0;
    let c = skip(s, q2)->0;
    let v = skip(s, c + 1)->0;
    let (y, f) = value_at(s, v)->0;
    let l = before.len() as int;
    let more = before.push((key, value));
    let end = s.len() as int;
    lemma_value_is_token(s, v);
    // The key and the colon.
    lemma_same_at(s, t, 0, a, 0, i);
    lemma_string_same(s, t, 0, a, 0, i + 1, Seq::empty());
    lemma_skip_same(s, t, 0, a, 0, q2);
    lemma_same_at(s, t, 0, a, 0, c);
    lemma_skip_up_to(s, t, a, c + 1, v);
    // What follows the value.
    lemma_skip_same(s, t, b, end, d, f);
    assert(member_at(t, i) == Some((key, new, k + d)));
    lemma_same_at(s, t, b, end, d, k);
    let changed = m.update(l, (key, new));
    if s[k] == ',' {
        let next = skip(s, k + 1)->0;
        lemma_members_prefix(s, next, more);
        assert(m.take(l + 1)[l] == more[l]);
        lemma_skip_bounds(s, k + 1);
        lemma_skip_same(s, t, b, end, d, k + 1);
        lemma_members_same(s, t, b, end, d, next, more);
        lemma_members_behind(t, next + d, more, before.push((key, new)));
        assert(before.push((key, new)) + m.skip(l + 1) =~= changed) by {
            assert(before =~= m.take(l));
        }
    } else {
        assert(m =~= more);
        assert(before.push((key, new)) =~= changed);
    }
}

/// The member at `i` stands before the change.
#[verifier::rlimit(40)]
#[verifier::spinoff_prover]
proof fn lemma_member_passed(
    s: Seq<char>,
    t: Seq<char>,
    i: int,
    before: Members,
    a: int,
)
    requires
        members_at(s, i, before) is Some,
        s[i] == '"',
        same(s, t, 0, a, 0),
        ({
            let (key, value, k) = member_at(s, i)->0;
            s[k] == ',' && skip(s, k + 1)->0 < a
        }),
    ensures
        ({
            let (key, value, k) = member_at(s, i)->0;
            members_at(t, i, before) == members_at(
                t,
                skip(s, k + 1)->0,
                before.push((key, value)),
            )
        }),
{
    let (key, value, k) = member_at(s, i)->0;
    let next = skip(s, k + 1)->0;
    lemma_member_bounds(s, i);
    lemma_skip_bounds(s, k + 1);
    lemma_members_prefix(s, next, before.push((key, value)));
    lemma_member_same(s, t, 0, a, 0, i);
    lemma_same_at(s, t, 0, a, 0, i);
    lemma_same_at(s, t, 0, a, 0, k);
    lemma_skip_same(s, t, 0, a, 0, k + 1);
}

#[verifier::rlimit(30)]
proof fn lemma_members_set(
    s: Seq<char>,
    t: Seq<char>,
    i: int,
    before: Members,
    es: Entries,
    name: Seq<char>,
    rest: Seq<SegView>,
    x: int,
    a: int,
    b: int,
    d: int,
    w: JsonView,
)
    requires
        members_at(s, i, before) is Some,
        are_members(s, es, before),
        sound(s, es),
        entry_from(es, SegView::Key(name), 0) is None,
        entry_from(member_entries(s, i, es), SegView::Key(name), 0) == Some(x),
        place(s, x, rest) == Some(a),
        value_at(s, a) matches Some((_, f)) && f == b,
        patched(s, t, a, b, d),
        value_at(t, a) == Some((w, b + d)),
    ensures
        ({
            let (m, e) = members_at(s, i, before)->0;
            &&& index_of(m, name, 0) matches Some(n) && members_at(t, i, before) == Some(
                (m.update(n, (name, replaced(m[n].1, rest, w))), e + d),
            )
            &&& i < a
            &&& b <= e
        }),
    decreases s.len() - i, 1int,
{
    let (m, e) = members_at(s, i, before)->0;
    lemma_members_prefix(s, i, before);
    assert(s[i] == '"');
    let (key, value, k) = member_at(s, i)->0;
    lemma_member_bounds(s, i);
    let v = member_spot(s, i);
    let (y, f) = value_at(s, v)->0;
    lemma_stops(s, f);
    let more = before.push((key, value));
    let some = es.push((SegView::Key(key), v));
    let all = member_entries(s, i, es);
    lemma_some_entries(s, before, es, key, value, v);
    lemma_entry_pushed(es, (SegView::Key(key), v), SegView::Key(name), 0);
    if s[k] == ',' {
        lemma_member_entries(s, skip(s, k + 1)->0, more, some);
        lemma_entry_prefix(some, all, SegView::Key(name), 0);
    }
    if key == name {
        assert(x == v);
        lemma_value_is_token(s, a);
        lemma_value_is_token(t, a);
        lemma_value_set(s, t, v, rest, a, b, d, w);
        lemma_member_hit(s, t, i, before, a, b, d, replaced(value, rest, w));
        lemma_entry_member(s, es, before, name, 0);
        lemma_index_at(m, name, before, 0);
    } else {
        assert(s[k] == ',');
        let next = skip(s, k + 1)->0;
        lemma_members_set(s, t, next, more, some, name, rest, x, a, b, d, w);
        lemma_member_passed(s, t, i, before, a);
    }
}

pub proof fn lemma_index_at(m: Members, name: Seq<char>, before: Members, k: int)
    requires
        0 <= k <= before.len() < m.len(),
        m.take(before.len() as int) == before,
        m[before.len() as int].0 == name,
        index_of(before, name, k) is None,
    ensures
        index_of(m, name, k) == Some(before.len() as int),
    decreases before.len() - k,
{
    if k < before.len() {
        assert(m.take(before.len() as int)[k] == m[k]);
        lemma_index_at(m, name, before, k + 1);
    }
}

proof fn lemma_some_entries(
    s: Seq<char>,
    before: Members,
    es: Entries,
    key: Seq<char>,
    value: JsonView,
    v: int,
)
    requires
        are_members(s, es, before),
        sound(s, es),
        value_at(s, v) matches Some((x, f)) && x == value && f < s.len() && !is_number_char(s[f]),
    ensures
        are_members(s, es.push((SegView::Key(key), v)), before.push((key, value))),
        sound(s, es.push((SegView::Key(key), v))),
{
    let n = es.len() as int;
    let some = es.push((SegView::Key(key), v));
    let more = before.push((key, value));
    assert forall|l: int| 0 <= l < more.len() implies (#[trigger] some[l]).0 == SegView::Key(
        more[l].0,
    ) by {
        if l < n {
            assert(some[l] == es[l]);
        }
    }
    assert forall|l: int| 0 <= l < more.len() implies (value_at(s, (#[trigger] some[l]).1) matches Some(
        (x, _),
    ) && x == more[l].1) by {
        if l < n {
            assert(some[l] == es[l]);
        }
    }
    assert forall|l: int| 0 <= l < some.len() implies (value_at(s, (#[trigger] some[l]).1) matches Some(
        (_, f),
    ) && f < s.len() && !is_number_char(s[f])) by {
        if l < n {
            assert(some[l] == es[l]);
        }
    }
}

/// The element at `i` holds the change.
#[verifier::rlimit(30)]
proof fn lemma_item_hit(
    s: Seq<char>,
    t: Seq<char>,
    i: int,
    before: Seq<JsonView>,
    a: int,
    b: int,
    d: int,
    new: JsonView,
)
    requires
        items_at(s, i, before) is Some,
        s[i] != ']',
        patched(s, t, a, b, d),
        ({
            let (_, f) = value_at(s, i)->0;
            i <= a && b <= f && value_at(t, i) == Some((new, f + d))
        }),
    ensures
        ({
            let (v, e) = items_at(s, i, before)->0;
            let (y, _) = value_at(s, i)->0;
            let l = before.len() as int;
            &&& l < v.len()
            &&& v[l] == y
            &&& items_at(t, i, before) == Some((v.update(l, new), e + d))
            &&& b <= e
        }),
{
    let (items, e) = items_at(s, i, before)->0;
    lemma_items_prefix(s, i, before);
    let (y, f) = value_at(s, i)->0;
    let k = skip(s, f)->0;
    lemma_value_bounds(s, i);
    lemma_skip_bounds(s, f);
    let l = before.len() as int;
    let more = before.push(y);
    let end = s.len() as int;
    lemma_value_is_token(t, i);
    lemma_skip_same(s, t, b, end, d, f);
    lemma_same_at(s, t, b, end, d, k);
    let changed = items.update(l, new);
    if s[k] == ',' {
        let next = skip(s, k + 1)->0;
        lemma_items_prefix(s, next, more);
        assert(items.take(l + 1)[l] == more[l]);
        lemma_skip_bounds(s, k + 1);
        lemma_no_slash_item(s, next, more);
        lemma_skip_same(s, t, b, end, d, k + 1);
        lemma_items_same(s, t, b, end, d, next, more);
        lemma_items_behind(t, next + d, more, before.push(new));
        assert(before.push(new) + items.skip(l + 1) =~= changed) by {
            assert(before =~= items.take(l));
        }
    } else {
        assert(items =~= more);
        assert(before.push(new) =~= changed);
    }
}

/// The element at `i` stands before the change.
proof fn lemma_item_passed(s: Seq<char>, t: Seq<char>, i: int, before: Seq<JsonView>, a: int)
    requires
        items_at(s, i, before) is Some,
        s[i] != ']',
        same(s, t, 0, a, 0),
        ({
            let (y, f) = value_at(s, i)->0;
            let k = skip(s, f)->0;
            s[k] == ',' && skip(s, k + 1)->0 <= a
        }),
        a < s.len(),
        s[a] != '/',
        skip(t, a) == Some(a),
    ensures
        ({
            let (y, f) = value_at(s, i)->0;
            let k = skip(s, f)->0;
            items_at(t, i, before) == items_at(t, skip(s, k + 1)->0, before.push(y))
        }),
{
    let (y, f) = value_at(s, i)->0;
    let k = skip(s, f)->0;
    let next = skip(s, k + 1)->0;
    lemma_value_bounds(s, i);
    lemma_skip_bounds(s, f);
    lemma_skip_bounds(s, k + 1);
    lemma_value_same(s, t, 0, a, 0, i);
    lemma_skip_same(s, t, 0, a, 0, f);
    lemma_same_at(s, t, 0, a, 0, i);
    lemma_same_at(s, t, 0, a, 0, k);
    lemma_no_slash_item(s, next, before.push(y));
    lemma_skip_up_to(s, t, a, k + 1, next);
}

#[verifier::rlimit(30)]
proof fn lemma_items_set(
    s: Seq<char>,
    t: Seq<char>,
    i: int,
    before: Seq<JsonView>,
    es: Entries,
    n: nat,
    rest: Seq<SegView>,
    x: int,
    a: int,
    b: int,
    d: int,
    w: JsonView,
)
    requires
        items_at(s, i, before) is Some,
        are_items(s, es, before),
        sound(s, es),
        before.len() <= n,
        entry_from(item_entries(s, i, es), SegView::Index(n), 0) == Some(x),
        place(s, x, rest) == Some(a),
        value_at(s, a) matches Some((_, f)) && f == b,
        patched(s, t, a, b, d),
        value_at(t, a) == Some((w, b + d)),
    ensures
        ({
            let (v, e) = items_at(s, i, before)->0;
            &&& n < v.len()
            &&& items_at(t, i, before) == Some(
                (v.update(n as int, replaced(v[n as int], rest, w)), e + d),
            )
            &&& i <= a
            &&& b <= e
        }),
    decreases s.len() - i, 1int,
{
    let (items, e) = items_at(s, i, before)->0;
    lemma_items_prefix(s, i, before);
    lemma_item_entries(s, i, before, es);
    let all = item_entries(s, i, es);
    lemma_entry_item(s, all, items, n, 0);
    assert(n < items.len());
    assert(s[i] != ']') by {
        if s[i] == ']' {
            assert(items == before);
        }
    }
    let (y, f) = value_at(s, i)->0;
    let k = skip(s, f)->0;
    lemma_value_bounds(s, i);
    lemma_skip_bounds(s, f);
    lemma_stops(s, f);
    let l = before.len() as int;
    let more = before.push(y);
    let some = es.push((SegView::Index(es.len()), i));
    lemma_more_items(s, before, es, y, i);
    if s[k] == ',' {
        lemma_skip_bounds(s, k + 1);
        lemma_item_entries(s, skip(s, k + 1)->0, more, some);
    }
    if n == l {
        assert(all[l] == some[l]) by {
            if s[k] == ',' {
                assert(all.take(l + 1)[l] == all[l]);
            }
        }
        assert(x == i);
        lemma_value_set(s, t, i, rest, a, b, d, w);
        lemma_item_hit(s, t, i, before, a, b, d, replaced(y, rest, w));
    } else {
        assert(s[k] == ',') by {
            if s[k] == ']' {
                assert(items == more);
            }
        }
        let next = skip(s, k + 1)->0;
        lemma_items_set(s, t, next, more, some, n, rest, x, a, b, d, w);
        lemma_value_is_token(s, a);
        lemma_value_is_token(t, a);
        lemma_item_passed(s, t, i, before, a);
    }
}

proof fn lemma_more_items(
    s: Seq<char>,
    before: Seq<JsonView>,
    es: Entries,
    value: JsonView,
    v: int,
)
    requires
        are_items(s, es, before),
        sound(s, es),
        value_at(s, v) matches Some((x, f)) && x == value && f < s.len() && !is_number_char(s[f]),
    ensures
        are_items(s, es.push((SegView::Index(es.len()), v)), before.push(value)),
        sound(s, es.push((SegView::Index(es.len()), v))),
{
    let n = es.len() as int;
    let some = es.push((SegView::Index(es.len()), v));
    let more = before.push(value);
    assert forall|l: int| 0 <= l < some.len() implies (#[trigger] some[l]).0 == SegView::Index(
        l as nat,
    ) by {
        if l < n {
            assert(some[l] == es[l]);
        }
    }
    assert forall|l: int| 0 <= l < more.len() implies (value_at(s, (#[trigger] some[l]).1) matches Some(
        (x, _),
    ) && x == more[l]) by {
        if l < n {
            assert(some[l] == es[l]);
        }
    }
    assert forall|l: int| 0 <= l < some.len() implies (value_at(s, (#[trigger] some[l]).1) matches Some(
        (_, f),
    ) && f < s.len() && !is_number_char(s[f])) by {
        if l < n {
            assert(some[l] == es[l]);
        }
    }
}

// ── A value that does not read ───────────────────────────────────────
/// A document with a broken value inside does not read at all.
proof fn lemma_value_broken(s: Seq<char>, t: Seq<char>, i: int, path: Seq<SegView>, a: int)
    requires
        value_at(s, i) is Some,
        place(s, i, path) == Some(a),
        value_at(s, a) is Some,
        same(s, t, 0, a, 0),
        skip(t, a) == Some(a),
        t[a] == s[a],
        value_at(t, a) is None,
    ensures
        value_at(t, i) is None,
        i <= a,
        path.len() > 0 ==> i < a,
    decreases s.len() - i, 0int,
{
    let (v, e) = value_at(s, i)->0;
    if path.len() > 0 {
        lemma_entries(s, i);
        lemma_value_bounds(s, i);
        let es = entries_at(s, i);
        let rest = path.drop_first();
        let x = entry_from(es, path[0], 0)->0;
        lemma_entry_at(es, path[0], 0);
        let j = skip(s, i + 1)->0;
        lemma_value_is_token(s, a);
        lemma_skip_bounds(s, i + 1);
        if let JsonView::Object(m) = v {
            if let SegView::Key(name) = path[0] {
                lemma_members_broken(s, t, j, Seq::empty(), Seq::empty(), name, rest, x, a);
                lemma_same_at(s, t, 0, a, 0, i);
                lemma_members_prefix(s, j, Seq::empty());
                lemma_skip_same(s, t, 0, a, 0, i + 1);
            } else {
                assert forall|l: int| 0 <= l < es.len() implies (#[trigger] es[l]).0 != path[0] by {}
            }
        } else if let JsonView::Array(items) = v {
            if let SegView::Index(n) = path[0] {
                lemma_items_broken(s, t, j, Seq::empty(), Seq::empty(), n, rest, x, a);
                lemma_same_at(s, t, 0, a, 0, i);
                lemma_no_slash_item(s, j, Seq::empty());
                lemma_skip_up_to(s, t, a, i + 1, j);
            } else {
                assert forall|l: int| 0 <= l < es.len() implies (#[trigger] es[l]).0 != path[0] by {}
            }
        }
    }
}

#[verifier::rlimit(30)]
proof fn lemma_members_broken(
    s: Seq<char>,
    t: Seq<char>,
    i: int,
    before: Members,
    es: Entries,
    name: Seq<char>,
    rest: Seq<SegView>,
    x: int,
    a: int,
)
    requires
        members_at(s, i, before) is Some,
        are_members(s, es, before),
        sound(s, es),
        entry_from(es, SegView::Key(name), 0) is None,
        entry_from(member_entries(s, i, es), SegView::Key(name), 0) == Some(x),
        place(s, x, rest) == Some(a),
        value_at(s, a) is Some,
        same(s, t, 0, a, 0),
        skip(t, a) == Some(a),
        t[a] == s[a],
        value_at(t, a) is None,
    ensures
        members_at(t, i, before) is None,
        i < a,
    decreases s.len() - i, 1int,
{
    lemma_members_prefix(s, i, before);
    assert(s[i] == '"');
    let (key, value, k) = member_at(s, i)->0;
    lemma_member_bounds(s, i);
    let v = member_spot(s, i);
    let (y, f) = value_at(s, v)->0;
    lemma_stops(s, f);
    let more = before.push((key, value));
    let some = es.push((SegView::Key(key), v));
    let all = member_entries(s, i, es);
    lemma_some_entries(s, before, es, key, value, v);
    lemma_entry_pushed(es, (SegView::Key(key), v), SegView::Key(name), 0);
    if s[k] == ',' {
        lemma_member_entries(s, skip(s, k + 1)->0, more, some);
        lemma_entry_prefix(some, all, SegView::Key(name), 0);
    }
    if key == name {
        assert(x == v);
        lemma_value_is_token(s, a);
        lemma_value_broken(s, t, v, rest, a);
        let (q, q2) = string_from(s, i + 1, Seq::empty())->0;
        let c = skip(s, q2)->0;
        lemma_value_is_token(s, v);
        lemma_same_at(s, t, 0, a, 0, i);
        lemma_string_same(s, t, 0, a, 0, i + 1, Seq::empty());
        lemma_skip_same(s, t, 0, a, 0, q2);
        lemma_same_at(s, t, 0, a, 0, c);
        lemma_skip_up_to(s, t, a, c + 1, v);
        assert(member_at(t, i) is None);
    } else {
        assert(s[k] == ',');
        let next = skip(s, k + 1)->0;
        lemma_members_broken(s, t, next, more, some, name, rest, x, a);
        lemma_member_passed(s, t, i, before, a);
    }
}

#[verifier::rlimit(30)]
proof fn lemma_items_broken(
    s: Seq<char>,
    t: Seq<char>,
    i: int,
    before: Seq<JsonView>,
    es: Entries,
    n: nat,
    rest: Seq<SegView>,
    x: int,
    a: int,
)
    requires
        items_at(s, i, before) is Some,
        are_items(s, es, before),
        sound(s, es),
        before.len() <= n,
        entry_from(item_entries(s, i, es), SegView::Index(n), 0) == Some(x),
        place(s, x, rest) == Some(a),
        value_at(s, a) is Some,
        same(s, t, 0, a, 0),
        skip(t, a) == Some(a),
        t[a] == s[a],
        value_at(t, a) is None,
    ensures
        items_at(t, i, before) is None,
        i <= a,
    decreases s.len() - i, 1int,
{
    let (items, e) = items_at(s, i, before)->0;
    lemma_items_prefix(s, i, before);
    lemma_item_entries(s, i, before, es);
    let all = item_entries(s, i, es);
    lemma_entry_item(s, all, items, n, 0);
    assert(n < items.len());
    assert(s[i] != ']') by {
        if s[i] == ']' {
            assert(items == before);
        }
    }
    let (y, f) = value_at(s, i)->0;
    let k = skip(s, f)->0;
    lemma_value_bounds(s, i);
    lemma_skip_bounds(s, f);
    lemma_stops(s, f);
    let l = before.len() as int;
    let more = before.push(y);
    let some = es.push((SegView::Index(es.len()), i));
    lemma_more_items(s, before, es, y, i);
    if s[k] == ',' {
        lemma_skip_bounds(s, k + 1);
        lemma_item_entries(s, skip(s, k + 1)->0, more, some);
    }
    if n == l {
        assert(all[l] == some[l]) by {
            if s[k] == ',' {
                assert(all.take(l + 1)[l] == all[l]);
            }
        }
        assert(x == i);
        lemma_value_broken(s, t, i, rest, a);
        lemma_value_is_token(s, i);
        if i < a {
            lemma_same_at(s, t, 0, a, 0, i);
        }
    } else {
        assert(s[k] == ',') by {
            if s[k] == ']' {
                assert(items == more);
            }
        }
        let next = skip(s, k + 1)->0;
        lemma_items_broken(s, t, next, more, some, n, rest, x, a);
        lemma_value_is_token(s, a);
        lemma_item_passed(s, t, i, before, a);
    }
}

proof fn lemma_patched(s: Seq<char>, a: int, b: int, text: Seq<char>)
    requires
        0 <= a < b <= s.len(),
        text.len() > 0,
    ensures
        patched(s, s.take(a) + text + s.skip(b), a, b, text.len() - (b - a)),
{
    let t = s.take(a) + text + s.skip(b);
    let d = text.len() - (b - a);
    reveal(alike);
    assert forall|k: int| 0 <= k < a implies t[k + 0] == #[trigger] s[k] by {}
    assert forall|k: int| b <= k < s.len() implies t[k + d] == #[trigger] s[k] by {}
}

/// A document with a changed value inside reads as the document with another
/// value at the path.
proof fn lemma_document_set(
    s: Seq<char>,
    t: Seq<char>,
    path: Seq<SegView>,
    a: int,
    b: int,
    d: int,
    w: JsonView,
)
    requires
        document(s) is Some,
        place(s, root(s), path) == Some(a),
        value_at(s, a) matches Some((_, f)) && f == b,
        patched(s, t, a, b, d),
        value_at(t, a) == Some((w, b + d)),
    ensures
        document(t) == Some(replaced(document(s)->0, path, w)),
{
    let i = root(s);
    let (j, e) = value_at(s, i)->0;
    lemma_value_bounds(s, i);
    lemma_value_is_token(s, i);
    lemma_value_is_token(s, a);
    lemma_value_is_token(t, a);
    lemma_skip_bounds(s, 0);
    lemma_value_set(s, t, i, path, a, b, d, w);
    lemma_skip_up_to(s, t, a, 0, i);
    lemma_skip_same(s, t, b, s.len() as int, d, e);
}

/// A document with a broken value inside does not read.
proof fn lemma_document_broken(s: Seq<char>, t: Seq<char>, path: Seq<SegView>, a: int)
    requires
        document(s) is Some,
        place(s, root(s), path) == Some(a),
        value_at(s, a) is Some,
        same(s, t, 0, a, 0),
        a < t.len(),
        t[a] == s[a],
        value_at(t, a) is None,
    ensures
        document(t) is None,
{
    let i = root(s);
    lemma_value_is_token(s, i);
    lemma_value_is_token(s, a);
    lemma_skip_bounds(s, 0);
    assert(skip(t, a) == Some(a));
    lemma_value_broken(s, t, i, path, a);
    lemma_skip_up_to(s, t, a, 0, i);
}

/// A document with another text for the value at a path says what the text
/// says there, and nothing else changes. Where the text does not read, neither
/// does the document.
pub proof fn lemma_document_patched(
    s: Seq<char>,
    path: Seq<SegView>,
    a: int,
    b: int,
    text: Seq<char>,
)
    requires
        document(s) is Some,
        place(s, root(s), path) == Some(a),
        value_at(s, a) matches Some((_, f)) && f == b,
        text.len() > 0,
        ({
            let t = s.take(a) + text + s.skip(b);
            match value_at(t, a) {
                Some((w, e)) => e == a + text.len(),
                None => t[a] == s[a],
            }
        }),
    ensures
        ({
            let t = s.take(a) + text + s.skip(b);
            match value_at(t, a) {
                Some((w, _)) => document(t) == Some(replaced(document(s)->0, path, w)),
                None => document(t) is None,
            }
        }),
{
    lemma_value_bounds(s, a);
    let t = s.take(a) + text + s.skip(b);
    let d = text.len() - (b - a);
    lemma_patched(s, a, b, text);
    match value_at(t, a) {
        Some((w, _)) => {
            lemma_document_set(s, t, path, a, b, d, w);
        },
        None => {
            lemma_document_broken(s, t, path, a);
        },
    }
}

/// Setting a value in a document changes the value at its path, and nothing
/// else of what the document says.
pub proof fn lemma_set_scalar_is_read(
    s: Seq<char>,
    path: Seq<SegView>,
    literal: Seq<char>,
    w: JsonView,
)
    requires
        document(s) matches Some(j) && !is_scalar(j) && tidy(j),
        value_span(s, path) is Some,
        reads(literal, w),
        literal.len() > 0,
    ensures
        ({
            let r = edited(s, EditView::SetScalar { path, literal });
            r is Ok && document(r->Ok_0) == Some(replaced(document(s)->0, path, w))
        }),
{
    let i = root(s);
    lemma_values_are_found(s, path);
    let (a, b) = value_span(s, path)->0;
    assert(path.len() > 0);
    lemma_place_stops(s, i, path);
    lemma_value_bounds(s, a);
    lemma_reads_there(s, a, b, literal, w);
    lemma_document_patched(s, path, a, b, literal);
}

/// A literal that is put in the place of a value is read there.
pub proof fn lemma_reads_there(s: Seq<char>, a: int, b: int, literal: Seq<char>, w: JsonView)
    requires
        0 <= a <= b < s.len(),
        !is_number_char(s[b]),
        reads(literal, w),
    ensures
        value_at(s.take(a) + literal + s.skip(b), a) == Some((w, (a + literal.len()) as int)),
{
    let t = s.take(a) + literal + s.skip(b);
    assert(t.subrange(a, a + literal.len()) =~= literal);
    assert(at(t, a, literal));
    assert(t[a + literal.len()] == s[b]);
}

/// Replacing a container in a document changes the value at its path, and
/// nothing else of what the document says.
pub proof fn lemma_replace_container_is_read(
    s: Seq<char>,
    path: Seq<SegView>,
    literal: Seq<char>,
    w: JsonView,
)
    requires
        document(s) matches Some(j) && !is_scalar(j) && tidy(j),
        open_at(s, path) is Some,
        path.len() > 0,
        reads(literal, w),
        literal.len() > 0,
    ensures
        ({
            let r = edited(s, EditView::ReplaceContainer { path, literal });
            r is Ok && document(r->Ok_0) == Some(replaced(document(s)->0, path, w))
        }),
{
    lemma_values_are_found(s, path);
    let a = open_at(s, path)->0;
    let b = close_at(s, path)->0 + 1;
    lemma_place_stops(s, root(s), path);
    lemma_value_bounds(s, a);
    lemma_reads_there(s, a, b, literal, w);
    lemma_document_patched(s, path, a, b, literal);
}

/// What was set is read at its path.
pub proof fn lemma_replaced_at(j: JsonView, path: Seq<SegView>, w: JsonView)
    requires
        json_at(j, path) is Some,
    ensures
        json_at(replaced(j, path, w), path) == Some(w),
    decreases path.len(),
{
    if path.len() > 0 {
        let rest = path.drop_first();
        match (j, path[0]) {
            (JsonView::Object(m), SegView::Key(name)) => {
                lemma_index_of(m, name, 0);
                let n = index_of(m, name, 0)->0;
                lemma_replaced_at(m[n].1, rest, w);
                let x = (name, replaced(m[n].1, rest, w));
                lemma_update_member(m, n, x, name, 0);
            },
            (JsonView::Array(v), SegView::Index(n)) => {
                lemma_replaced_at(v[n as int], rest, w);
            },
            _ => {},
        }
    }
}

proof fn lemma_update_member(
    m: Members,
    n: int,
    x: (Seq<char>, JsonView),
    name: Seq<char>,
    k: int,
)
    requires
        0 <= k,
        0 <= n < m.len(),
        x.0 == m[n].0,
        index_of(m, x.0, 0) == Some(n),
        name == x.0 ==> index_of(m, name, k) == Some(n) || k > n,
    ensures
        member_from(m.update(n, x), name, k) == (if name == x.0 && k <= n {
            Some(x.1)
        } else {
            member_from(m, name, k)
        }),
    decreases m.len() - k,
{
    if k < m.len() {
        let u = m.update(n, x);
        if name == x.0 && k <= n {
            if k < n {
                assert(m[k].0 != name);
                lemma_update_member(m, n, x, name, k + 1);
            }
        } else {
            if k == n {
                assert(u[k].0 == x.0);
            }
            if m[k].0 != name {
                lemma_update_member(m, n, x, name, k + 1);
            }
        }
    }
}

/// What was set leaves every value that is neither above nor below it.
pub proof fn lemma_replaced_elsewhere(
    j: JsonView,
    path: Seq<SegView>,
    w: JsonView,
    other: Seq<SegView>,
)
    requires
        !under(path, other),
        !under(other, path),
    ensures
        json_at(replaced(j, path, w), other) == json_at(j, other),
    decreases path.len(),
{
    if path.len() == 0 {
        assert(other.take(0) =~= path);
    } else if other.len() == 0 {
        assert(path.take(0) =~= other);
    } else {
        let rest = path.drop_first();
        let tail = other.drop_first();
        if path[0] == other[0] {
            lemma_under_drop(path, other);
            lemma_under_drop(other, path);
        }
        match (j, path[0]) {
            (JsonView::Object(m), SegView::Key(name)) => {
                if let Some(n) = index_of(m, name, 0) {
                    lemma_index_of(m, name, 0);
                    let x = (name, replaced(m[n].1, rest, w));
                    if let SegView::Key(k) = other[0] {
                        lemma_index_of(m, k, 0);
                        lemma_update_member(m, n, x, k, 0);
                        if k == name {
                            lemma_replaced_elsewhere(m[n].1, rest, w, tail);
                        }
                    }
                }
            },
            (JsonView::Array(v), SegView::Index(n)) => {
                if n < v.len() {
                    if other[0] == path[0] {
                        lemma_replaced_elsewhere(v[n as int], rest, w, tail);
                    }
                }
            },
            _ => {},
        }
    }
}

proof fn lemma_under_drop(p: Seq<SegView>, q: Seq<SegView>)
    requires
        p.len() > 0,
        q.len() > 0,
        p[0] == q[0],
        !under(p, q),
    ensures
        !under(p.drop_first(), q.drop_first()),
{
    let a = p.drop_first();
    let b = q.drop_first();
    if under(a, b) {
        assert(q.take(p.len() as int) =~= p) by {
            assert forall|k: int| 0 <= k < p.len() implies q[k] == p[k] by {
                if k > 0 {
                    assert(b.take(a.len() as int)[k - 1] == a[k - 1]);
                }
            }
        }
    }
}

} // verus!

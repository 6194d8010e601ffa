//! The last significant character before a place in a document is what the
//! grammar has there.
use crate::edit::last_from;
use crate::jsonc::{
    comment_close, digits_end, is_blank, items_at, member_at, members_at, number_close, skip,
    string_from, value_at, JsonView,
};
use crate::locate::{block_end, is_number_char, line_end, string_end, word_end};
use crate::number::is_digit;
use crate::pieces::{lemma_skip_bounds, Members};
use crate::place::{
    lemma_comment_close, lemma_items_prefix, lemma_members_prefix, lemma_run_of_digits,
    lemma_string_token,
};
use crate::splice::{lemma_member_bounds, lemma_value_bounds};
use vstd::prelude::*;

verus! {

/// What stands between tokens is passed over.
pub proof fn lemma_over_gap(s: Seq<char>, i: int, to: int, last: Option<char>)
    requires
        0 <= i,
        skip(s, i) matches Some(j) && j <= to && j <= s.len(),
    ensures
        last_from(s, i, to, last) == last_from(s, skip(s, i)->0, to, last),
        i <= s.len() ==> i <= skip(s, i)->0,
    decreases s.len() - i,
{
    if i < s.len() {
        lemma_skip_bounds(s, i);
        if is_blank(s[i]) {
            lemma_skip_bounds(s, i + 1);
            lemma_over_gap(s, i + 1, to, last);
        } else if s[i] == '/' && i + 1 < s.len() && s[i + 1] == '/' {
            lemma_skip_bounds(s, line_end(s, i));
            lemma_over_gap(s, line_end(s, i), to, last);
        } else if s[i] == '/' && i + 1 < s.len() && s[i + 1] == '*' {
            let e = comment_close(s, i + 2)->0;
            lemma_comment_close(s, i + 2);
            lemma_skip_bounds(s, e);
            lemma_over_gap(s, e, to, last);
        }
    }
}

/// Whether a character stands for itself: no white space, no quote, no slash.
spec fn is_plain(c: char) -> bool {
    !is_blank(c) && c != '"' && c != '/'
}

proof fn lemma_over_plain(s: Seq<char>, i: int, e: int, to: int, last: Option<char>)
    requires
        0 <= i < e <= to,
        e <= s.len(),
        forall|k: int| i <= k < e ==> is_plain(#[trigger] s[k]),
    ensures
        last_from(s, i, to, last) == last_from(s, e, to, Some(s[e - 1])),
    decreases e - i,
{
    assert(is_plain(s[i]));
    assert(last_from(s, i, to, last) == last_from(s, i + 1, to, Some(s[i])));
    if i + 1 < e {
        lemma_over_plain(s, i + 1, e, to, Some(s[i]));
    }
}

proof fn lemma_over_string(s: Seq<char>, i: int, e: int, to: int, last: Option<char>)
    requires
        0 <= i < s.len(),
        s[i] == '"',
        string_from(s, i + 1, Seq::empty()) matches Some((_, f)) && f == e,
        e <= to,
    ensures
        last_from(s, i, to, last) == last_from(s, e, to, Some('"')),
        s[e - 1] == '"',
        i < e,
{
    lemma_string_token(s, i + 1, Seq::empty());
}

proof fn lemma_number_plain(s: Seq<char>, i: int, e: int)
    requires
        0 <= i < s.len(),
        s[i] == '-' || is_digit(s[i]),
        number_close(s, i) == Some(e),
    ensures
        forall|k: int| i <= k < e ==> is_number_char(#[trigger] s[k]),
        i < e <= s.len(),
{
    let w = if s[i] == '-' {
        i + 1
    } else {
        i
    };
    lemma_run_of_digits(s, w);
    assert(is_digit(s[w]));
    let wend = if s[w] == '0' {
        w + 1
    } else {
        digits_end(s, w)
    };
    assert forall|k: int| i <= k < wend implies is_number_char(#[trigger] s[k]) by {}
    let fend = if wend < s.len() && s[wend] == '.' {
        digits_end(s, wend + 1)
    } else {
        wend
    };
    lemma_run_of_digits(s, wend + 1);
    assert forall|k: int| i <= k < fend implies is_number_char(#[trigger] s[k]) by {}
    if fend < s.len() && (s[fend] == 'e' || s[fend] == 'E') {
        let x = if fend + 1 < s.len() && (s[fend + 1] == '+' || s[fend + 1] == '-') {
            fend + 2
        } else {
            fend + 1
        };
        lemma_run_of_digits(s, x);
        assert forall|k: int| i <= k < e implies is_number_char(#[trigger] s[k]) by {}
    }
}

proof fn lemma_word_plain(s: Seq<char>, i: int, e: int)
    requires
        0 <= i,
        word_end(s, i) == Some(e),
    ensures
        forall|k: int| i <= k < e ==> is_plain(#[trigger] s[k]) && s[k] != ',',
        i < e <= s.len(),
{
    assert forall|k: int| i <= k < e implies is_plain(#[trigger] s[k]) && s[k] != ',' by {
        assert(s.subrange(i, e)[k - i] == s[k]);
    }
}

/// A value is passed over as a whole, and its last character is no comma.
pub proof fn lemma_over_value(s: Seq<char>, i: int, to: int, last: Option<char>)
    requires
        value_at(s, i) matches Some((_, e)) && e <= to,
    ensures
        ({
            let (_, e) = value_at(s, i)->0;
            &&& last_from(s, i, to, last) == last_from(s, e, to, Some(s[e - 1]))
            &&& s[e - 1] != ','
        }),
    decreases s.len() - i, 0int,
{
    let (_, e) = value_at(s, i)->0;
    lemma_value_bounds(s, i);
    if s[i] == '{' {
        let j = skip(s, i + 1)->0;
        lemma_skip_bounds(s, i + 1);
        lemma_members_prefix(s, j, Seq::empty());
        assert(last_from(s, i, to, last) == last_from(s, i + 1, to, Some('{')));
        lemma_over_gap(s, i + 1, to, Some('{'));
        lemma_over_members(s, j, Seq::empty(), to, Some('{'));
    } else if s[i] == '[' {
        let j = skip(s, i + 1)->0;
        lemma_skip_bounds(s, i + 1);
        lemma_items_prefix(s, j, Seq::empty());
        assert(last_from(s, i, to, last) == last_from(s, i + 1, to, Some('[')));
        lemma_over_gap(s, i + 1, to, Some('['));
        lemma_over_items(s, j, Seq::empty(), to, Some('['));
    } else if s[i] == '"' {
        lemma_over_string(s, i, e, to, last);
    } else if s[i] == '-' || '0' <= s[i] <= '9' {
        lemma_number_plain(s, i, e);
        assert(is_number_char(s[e - 1]));
        assert forall|k: int| i <= k < e implies is_plain(#[trigger] s[k]) by {
            assert(is_number_char(s[k]));
        }
        lemma_over_plain(s, i, e, to, last);
    } else {
        lemma_word_plain(s, i, e);
        lemma_over_plain(s, i, e, to, last);
    }
}

/// A member is passed over up to the token behind it.
proof fn lemma_over_member(s: Seq<char>, i: int, to: int, last: Option<char>)
    requires
        0 <= i < s.len(),
        s[i] == '"',
        member_at(s, i) matches Some((_, _, m)) && m <= to && m <= s.len(),
    ensures
        ({
            let (_, _, m) = member_at(s, i)->0;
            let (_, k) = string_from(s, i + 1, Seq::empty())->0;
            let v = skip(s, skip(s, k)->0 + 1)->0;
            let (_, f) = value_at(s, v)->0;
            &&& last_from(s, i, to, last) == last_from(s, m, to, Some(s[f - 1]))
            &&& s[f - 1] != ','
        }),
    decreases s.len() - i, 0int,
{
    lemma_member_bounds(s, i);
    let (_, k) = string_from(s, i + 1, Seq::empty())->0;
    let c = skip(s, k)->0;
    let v = skip(s, c + 1)->0;
    let (_, f) = value_at(s, v)->0;
    lemma_over_string(s, i, k, to, last);
    lemma_over_gap(s, k, to, Some('"'));
    assert(last_from(s, c, to, Some('"')) == last_from(s, c + 1, to, Some(':')));
    lemma_over_gap(s, c + 1, to, Some(':'));
    lemma_over_value(s, v, to, Some(':'));
    lemma_over_gap(s, f, to, Some(s[f - 1]));
}

proof fn lemma_over_members(s: Seq<char>, i: int, before: Members, to: int, last: Option<char>)
    requires
        members_at(s, i, before) matches Some((_, e)) && e <= to,
    ensures
        ({
            let (_, e) = members_at(s, i, before)->0;
            last_from(s, i, to, last) == last_from(s, e, to, Some('}'))
        }),
    decreases s.len() - i, 1int,
{
    let (m, e) = members_at(s, i, before)->0;
    lemma_members_prefix(s, i, before);
    if s[i] == '}' {
    } else {
        let (name, value, k) = member_at(s, i)->0;
        lemma_member_bounds(s, i);
        let more = before.push((name, value));
        if s[k] == ',' {
            let next = skip(s, k + 1)->0;
            lemma_skip_bounds(s, k + 1);
            lemma_members_prefix(s, next, more);
            lemma_over_member(s, i, to, last);
            lemma_over_gap(s, k + 1, to, Some(','));
            lemma_over_members(s, next, more, to, Some(','));
        } else {
            lemma_over_member(s, i, to, last);
        }
    }
}

proof fn lemma_over_items(s: Seq<char>, i: int, before: Seq<JsonView>, to: int, last: Option<char>)
    requires
        items_at(s, i, before) matches Some((_, e)) && e <= to,
    ensures
        ({
            let (_, e) = items_at(s, i, before)->0;
            last_from(s, i, to, last) == last_from(s, e, to, Some(']'))
        }),
    decreases s.len() - i, 1int,
{
    let (v, e) = items_at(s, i, before)->0;
    lemma_items_prefix(s, i, before);
    if s[i] == ']' {
    } else {
        let (value, f) = value_at(s, i)->0;
        let k = skip(s, f)->0;
        lemma_value_bounds(s, i);
        lemma_skip_bounds(s, f);
        let more = before.push(value);
        if s[k] == ',' {
            let next = skip(s, k + 1)->0;
            lemma_skip_bounds(s, k + 1);
            lemma_items_prefix(s, next, more);
            lemma_over_value(s, i, to, last);
            lemma_over_gap(s, f, to, Some(s[f - 1]));
            lemma_over_gap(s, k + 1, to, Some(','));
            lemma_over_items(s, next, more, to, Some(','));
        } else {
            lemma_over_value(s, i, to, last);
            lemma_over_gap(s, f, to, Some(s[f - 1]));
        }
    }
}

/// Whether a comma has to go before what is added: something stands before,
/// and it is no comma.
pub open spec fn comma_due(last: Option<char>) -> bool {
    last matches Some(c) && c != ','
}

/// What stands before a token of an object, from the gap at `p` on.
pub proof fn lemma_gap_before(s: Seq<char>, p: int, c: int, last: Option<char>)
    requires
        0 <= p <= c <= s.len(),
        skip(s, p) == Some(c),
    ensures
        last_from(s, p, c, last) == last,
{
    lemma_over_gap(s, p, c, last);
}

/// What stands before a token behind a value.
pub proof fn lemma_value_before(s: Seq<char>, i: int, c: int, last: Option<char>)
    requires
        value_at(s, i) matches Some((_, f)) && f <= c && skip(s, f) == Some(c),
        c <= s.len(),
    ensures
        comma_due(last_from(s, i, c, last)),
{
    let (_, f) = value_at(s, i)->0;
    lemma_over_value(s, i, c, last);
    lemma_value_bounds(s, i);
    lemma_over_gap(s, f, c, Some(s[f - 1]));
}

/// What stands before a token behind a member.
pub proof fn lemma_member_before(s: Seq<char>, i: int, c: int, last: Option<char>)
    requires
        0 <= i < s.len(),
        s[i] == '"',
        member_at(s, i) matches Some((_, _, m)) && m == c,
        c <= s.len(),
    ensures
        comma_due(last_from(s, i, c, last)),
{
    lemma_over_member(s, i, c, last);
}

/// What stands before `c` does not change by a member and its comma that are
/// passed over.
pub proof fn lemma_over_member_and_comma(s: Seq<char>, p: int, c: int, last: Option<char>)
    requires
        0 <= p,
        skip(s, p) matches Some(i) && 0 <= i < s.len() && s[i] == '"' && (member_at(s, i) matches Some(
            (_, _, m),
        ) && m < c && m < s.len() && s[m] == ','),
    ensures
        ({
            let (_, _, m) = member_at(s, skip(s, p)->0)->0;
            last_from(s, p, c, last) == last_from(s, m + 1, c, Some(','))
        }),
{
    let i = skip(s, p)->0;
    lemma_member_bounds(s, i);
    lemma_over_gap(s, p, c, last);
    lemma_over_member(s, i, c, last);
}

/// What stands before `c` does not change by an element and its comma that are
/// passed over.
pub proof fn lemma_over_item_and_comma(s: Seq<char>, p: int, c: int, last: Option<char>)
    requires
        0 <= p,
        skip(s, p) matches Some(i) && (value_at(s, i) matches Some((_, f)) && (skip(s, f) matches Some(
            m,
        ) && m < c && m < s.len() && s[m] == ',')),
    ensures
        ({
            let (_, f) = value_at(s, skip(s, p)->0)->0;
            let m = skip(s, f)->0;
            last_from(s, p, c, last) == last_from(s, m + 1, c, Some(','))
        }),
{
    let i = skip(s, p)->0;
    let (_, f) = value_at(s, i)->0;
    lemma_value_bounds(s, i);
    lemma_skip_bounds(s, f);
    lemma_over_gap(s, p, c, last);
    lemma_over_value(s, i, c, last);
    lemma_over_gap(s, f, c, Some(s[f - 1]));
}

/// White space before a token does not change what stands before it.
pub proof fn lemma_blank_line(s: Seq<char>, p: int, ls: int, i: int, last: Option<char>)
    requires
        0 <= p,
        ls <= i <= s.len(),
        forall|k: int| ls <= k < i ==> is_blank(#[trigger] s[k]),
    ensures
        last_from(s, p, ls, last) == last_from(s, p, i, last),
    decreases i - p,
{
    if p >= ls {
        if p < i {
            assert(is_blank(s[p]));
            lemma_blank_line(s, p + 1, ls, i, last);
        }
    } else if p < s.len() {
        if is_blank(s[p]) {
            lemma_blank_line(s, p + 1, ls, i, last);
        } else if s[p] == '/' && p + 1 < s.len() && s[p + 1] == '/' {
            let e = line_end(s, p);
            if p < e <= i {
                lemma_blank_line(s, e, ls, i, last);
            }
        } else if s[p] == '/' && p + 1 < s.len() && s[p + 1] == '*' {
            let e = block_end(s, p + 2);
            if p < e <= i {
                lemma_blank_line(s, e, ls, i, last);
            }
        } else if s[p] == '"' {
            let e = string_end(s, p + 1);
            if p < e <= i {
                lemma_blank_line(s, e, ls, i, Some('"'));
            }
        } else {
            lemma_blank_line(s, p + 1, ls, i, Some(s[p]));
        }
    }
}

} // verus!

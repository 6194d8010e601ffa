//! What is appended to a container of a document is read there.
use crate::config::{dut_of, host_of, member, DutView, HostView};
use crate::edit::{
    appended, blank_end, edited, last_from, last_significant, line_indent, line_start, EditView,
};
use crate::jsonc::{
    comment_close, document, is_blank, items_at, member_at, members_at, skip, string_from,
    value_at, JsonView,
};
use crate::kept::{
    dut_slots, dut_spellable, host_slots, host_spellable, kept_dut, kept_host, lemma_dut_object,
    lemma_host_object,
};
use crate::last_token::{
    comma_due, lemma_gap_before, lemma_member_before, lemma_over_gap, lemma_over_item_and_comma,
    lemma_over_member_and_comma, lemma_value_before,
};
use crate::locate::{close_at, is_number_char, line_end, open_at, SegView};
use crate::pieces::{
    at, lemma_at_char, lemma_at_split, lemma_lists_at, lemma_lists_void, lemma_skip_bounds,
    lemma_spells_at, lemma_spells_void, lemma_value_is_token, lemma_void_break, lists, next_items,
    next_members, spells, void, Members,
};
use crate::place::{
    is_scalar, json_at, lemma_items_prefix, lemma_members_prefix, lemma_values_are_found, place,
    root, tidy,
};
use crate::render::{dut_block, host_block};
use crate::slots::filled;
use crate::splice::{
    alike, lemma_comment_close_same, lemma_document_patched, lemma_line_break,
    lemma_line_end_grows, lemma_line_end_same, lemma_member_bounds, lemma_place_is_value,
    lemma_replaced_at, lemma_same_at, lemma_skip_same, lemma_string_same, lemma_value_bounds,
    lemma_value_same, replaced, same,
};
use crate::written::{is_element, lemma_dut_text, lemma_element_line, lemma_host_text};
use vstd::prelude::*;

verus! {

/// From a place before the insertion on, the way to the closing bracket leads
/// into what was inserted.
proof fn lemma_skip_into(s: Seq<char>, t: Seq<char>, c: int, i: int)
    requires
        same(s, t, 0, c, 0),
        0 <= i <= c < s.len(),
        skip(s, i) == Some(c),
        s[c] != '/',
    ensures
        skip(t, i) == skip(t, c),
    decreases c - i,
{
    if i < c {
        lemma_same_at(s, t, 0, c, 0, i);
        if is_blank(s[i]) {
            lemma_skip_bounds(s, i + 1);
            lemma_skip_into(s, t, c, i + 1);
        } else {
            assert(s[i] == '/');
            if i + 1 < c {
                lemma_same_at(s, t, 0, c, 0, i + 1);
            }
            if s[i + 1] == '/' {
                let e = line_end(s, i);
                lemma_line_end_grows(s, i);
                lemma_skip_bounds(s, e);
                lemma_line_break(s, i);
                lemma_line_end_same(s, t, 0, c, 0, i);
                lemma_skip_into(s, t, c, e);
            } else {
                let e = comment_close(s, i + 2)->0;
                lemma_skip_bounds(s, e);
                lemma_comment_close_same(s, t, 0, c, 0, i + 2);
                lemma_skip_into(s, t, c, e);
            }
        }
    }
}

proof fn lemma_two_tokens(t: Seq<char>, c: int)
    requires
        0 <= c <= t.len(),
    ensures
        skip(t, c) matches Some(k) ==> c <= k <= t.len() && (k < t.len() ==> (skip(t, k + 1) matches Some(
            n,
        ) ==> k < n <= t.len())),
{
    if let Some(k) = skip(t, c) {
        lemma_skip_bounds(t, c);
        if k < t.len() && skip(t, k + 1) is Some {
            lemma_skip_bounds(t, k + 1);
        }
    }
}

/// What comes of the members up to `c` where the next token stands behind a
/// value.
spec fn behind(t: Seq<char>, c: int, m: Members) -> Option<(Members, int)> {
    match skip(t, c) {
        Some(k) => if c <= k < t.len() {
            if t[k] == '}' {
                Some((m, k + 1))
            } else if t[k] == ',' {
                next_members(t, k + 1, m)
            } else {
                None
            }
        } else {
            None
        },
        None => None,
    }
}

/// The members of an object are the same up to what was inserted before its
/// closing brace at `c`.
#[verifier::rlimit(30)]
proof fn lemma_members_up_to(
    s: Seq<char>,
    t: Seq<char>,
    p: int,
    before: Members,
    c: int,
    last: Option<char>,
)
    requires
        !comma_due(last),
        same(s, t, 0, c, 0),
        0 <= p <= c < s.len(),
        c < t.len(),
        !is_number_char(t[c]),
        skip(s, p) matches Some(i) && (members_at(s, i, before) matches Some((_, e)) && e == c + 1),
        s[c] == '}',
    ensures
        ({
            let (m, _) = members_at(s, skip(s, p)->0, before)->0;
            let r = next_members(t, p, before);
            r == (if comma_due(last_from(s, p, c, last)) {
                behind(t, c, m)
            } else {
                next_members(t, c, m)
            })
        }),
    decreases c - p,
{
    let i = skip(s, p)->0;
    let (m, e) = members_at(s, i, before)->0;
    lemma_skip_bounds(s, p);
    lemma_members_prefix(s, i, before);
    if s[i] == '}' {
        lemma_skip_into(s, t, c, p);
        lemma_gap_before(s, p, c, last);
    } else {
        let (key, value, k) = member_at(s, i)->0;
        let more = before.push((key, value));
        lemma_member_bounds(s, i);
        let (q, q2) = string_from(s, i + 1, Seq::empty())->0;
        let l = skip(s, q2)->0;
        let v = skip(s, l + 1)->0;
        let (y, f) = value_at(s, v)->0;
        if s[k] == ',' {
            lemma_members_prefix(s, skip(s, k + 1)->0, more);
            lemma_skip_bounds(s, k + 1);
        }
        assert(k <= c);
        lemma_value_is_token(s, v);
        // The key, the colon and the value.
        lemma_skip_same(s, t, 0, c, 0, p);
        lemma_same_at(s, t, 0, c, 0, i);
        lemma_string_same(s, t, 0, c, 0, i + 1, Seq::empty());
        lemma_skip_same(s, t, 0, c, 0, q2);
        lemma_same_at(s, t, 0, c, 0, l);
        lemma_skip_same(s, t, 0, c, 0, l + 1);
        lemma_value_same(s, t, 0, c, 0, v);
        assert(member_at(t, i) == (match skip(t, f) {
            Some(z) => Some((key, value, z)),
            None => None,
        }));
        if k == c {
            lemma_skip_into(s, t, c, f);
            assert(m =~= more);
            lemma_two_tokens(t, c);
            lemma_over_gap(s, p, c, last);
            lemma_member_before(s, i, c, last);
        } else {
            lemma_skip_same(s, t, 0, c, 0, f);
            lemma_same_at(s, t, 0, c, 0, k);
            lemma_over_member_and_comma(s, p, c, last);
            lemma_members_up_to(s, t, k + 1, more, c, Some(','));
            if skip(t, k + 1) is Some {
                lemma_skip_bounds(t, k + 1);
            }
        }
    }
}

/// What comes of the elements up to `c` where the next token stands behind a
/// value.
spec fn behind_items(t: Seq<char>, c: int, v: Seq<JsonView>) -> Option<(Seq<JsonView>, int)> {
    match skip(t, c) {
        Some(k) => if c <= k < t.len() {
            if t[k] == ']' {
                Some((v, k + 1))
            } else if t[k] == ',' {
                next_items(t, k + 1, v)
            } else {
                None
            }
        } else {
            None
        },
        None => None,
    }
}

/// The elements of an array are the same up to what was inserted before its
/// closing bracket at `c`.
#[verifier::rlimit(30)]
proof fn lemma_items_up_to(
    s: Seq<char>,
    t: Seq<char>,
    p: int,
    before: Seq<JsonView>,
    c: int,
    last: Option<char>,
)
    requires
        !comma_due(last),
        same(s, t, 0, c, 0),
        0 <= p <= c < s.len(),
        c < t.len(),
        !is_number_char(t[c]),
        skip(s, p) matches Some(i) && (items_at(s, i, before) matches Some((_, e)) && e == c + 1),
        s[c] == ']',
    ensures
        ({
            let (v, _) = items_at(s, skip(s, p)->0, before)->0;
            let r = next_items(t, p, before);
            r == (if comma_due(last_from(s, p, c, last)) {
                behind_items(t, c, v)
            } else {
                next_items(t, c, v)
            })
        }),
    decreases c - p,
{
    let i = skip(s, p)->0;
    let (items, e) = items_at(s, i, before)->0;
    lemma_skip_bounds(s, p);
    lemma_items_prefix(s, i, before);
    if s[i] == ']' {
        lemma_skip_into(s, t, c, p);
        lemma_gap_before(s, p, c, last);
    } else {
        let (y, f) = value_at(s, i)->0;
        let k = skip(s, f)->0;
        let more = before.push(y);
        lemma_value_bounds(s, i);
        lemma_skip_bounds(s, f);
        if s[k] == ',' {
            lemma_items_prefix(s, skip(s, k + 1)->0, more);
            lemma_skip_bounds(s, k + 1);
        }
        assert(k <= c);
        lemma_value_is_token(s, i);
        lemma_skip_same(s, t, 0, c, 0, p);
        lemma_same_at(s, t, 0, c, 0, i);
        lemma_value_same(s, t, 0, c, 0, i);
        if k == c {
            lemma_skip_into(s, t, c, f);
            assert(items =~= more);
            lemma_two_tokens(t, c);
            lemma_over_gap(s, p, c, last);
            lemma_value_before(s, i, c, last);
        } else {
            lemma_skip_same(s, t, 0, c, 0, f);
            lemma_same_at(s, t, 0, c, 0, k);
            lemma_over_item_and_comma(s, p, c, last);
            lemma_items_up_to(s, t, k + 1, more, c, Some(','));
            if skip(t, k + 1) is Some {
                lemma_skip_bounds(t, k + 1);
            }
        }
    }
}

// ── What is inserted ─────────────────────────────────────────────────
/// The first character of a block that is no space.
pub open spec fn starts_with(block: Seq<char>, n: nat, c: char) -> bool {
    &&& n < block.len()
    &&& forall|k: int| 0 <= k < n ==> block[k] == ' '
    &&& block[n as int] == c
}

/// The three ways in which a block goes before a closing bracket: with its own
/// line before and an indent behind it, as it is, or behind a comma.
pub open spec fn is_gap(x: Seq<char>, block: Seq<char>, indent: Seq<char>) -> bool {
    ||| x == seq!['\n'] + block + seq!['\n'] + indent
    ||| x == block + seq!['\n']
    ||| x == seq![',', '\n'] + block + seq!['\n']
}

/// A text of white space.
pub open spec fn all_blank(x: Seq<char>) -> bool {
    forall|k: int| 0 <= k < x.len() ==> is_blank(#[trigger] x[k])
}

proof fn lemma_void_blanks(x: Seq<char>)
    requires
        all_blank(x),
    ensures
        void(x),
{
    assert forall|s: Seq<char>, i: int| #[trigger] at(s, i, x) implies skip(s, i) == skip(
        s,
        i + x.len(),
    ) by {
        lemma_skip_blanks(s, i, x, 0);
    }
}

proof fn lemma_skip_blanks(s: Seq<char>, i: int, x: Seq<char>, k: int)
    requires
        at(s, i, x),
        0 <= k <= x.len(),
        all_blank(x),
    ensures
        skip(s, i + k) == skip(s, i + x.len()),
    decreases x.len() - k,
{
    if k < x.len() {
        lemma_at_char(s, i, x, k);
        assert(is_blank(x[k]));
        lemma_skip_blanks(s, i, x, k + 1);
    }
}

/// The first token of a block.
proof fn lemma_block_token(t: Seq<char>, i: int, block: Seq<char>, n: nat, c: char)
    requires
        at(t, i, block),
        starts_with(block, n, c),
        !is_blank(c),
        c != '/',
    ensures
        skip(t, i) == Some(i + n),
        t[i + n] == c,
{
    let front = block.take(n as int);
    assert(front + block.skip(n as int) =~= block);
    lemma_at_split(t, i, front, block.skip(n as int));
    lemma_skip_blanks(t, i, front, 0);
    lemma_at_char(t, i, block, n as int);
}

/// The members before a closing brace with a gap before it.
#[verifier::rlimit(30)]
proof fn lemma_gap_members(
    t: Seq<char>,
    c: int,
    x: Seq<char>,
    block: Seq<char>,
    indent: Seq<char>,
    n: nat,
    m: Members,
    added: Members,
)
    requires
        is_gap(x, block, indent),
        all_blank(indent),
        starts_with(block, n, '"'),
        spells(block + seq!['\n'], added),
        at(t, c, x + seq!['}']),
    ensures
        ({
            let whole = Some((m + added, (c + x.len() + 1) as int));
            if x[0] == ',' {
                behind(t, c, m) == whole
            } else {
                next_members(t, c, m) == whole
            }
        }),
{
    lemma_at_split(t, c, x, seq!['}']);
    let z = c + x.len();
    lemma_at_char(t, z, seq!['}'], 0);
    assert(skip(t, z) == Some(z));
    let all = m + added;
    assert(next_members(t, z, all) == Some((all, z + 1)));
    let nl = seq!['\n'];
    lemma_void_break();
    lemma_spells_void(nl);
    assert(m + Seq::<(Seq<char>, JsonView)>::empty() =~= m);
    assert(all + Seq::<(Seq<char>, JsonView)>::empty() =~= all);
    let line = block + nl;
    if x == line {
        lemma_at_split(t, c, block, nl);
        lemma_spells_at(t, c, line, added, m);
        lemma_block_token(t, c, block, n, '"');
    } else if x == seq![',', '\n'] + block + nl {
        assert(x =~= seq![',', '\n'] + line);
        lemma_at_split(t, c, seq![',', '\n'], line);
        lemma_at_char(t, c, seq![',', '\n'], 0);
        lemma_at_char(t, c, seq![',', '\n'], 1);
        assert(skip(t, c) == Some(c));
        assert(skip(t, c + 1) == skip(t, c + 2));
        assert(next_members(t, c + 1, m) == next_members(t, c + 2, m));
        lemma_spells_at(t, c + 2, line, added, m);
    } else {
        assert(x =~= nl + line + indent);
        lemma_at_split(t, c, nl + line, indent);
        lemma_at_split(t, c, nl, line);
        lemma_at_split(t, c + 1, block, nl);
        lemma_spells_at(t, c, nl, Seq::empty(), m);
        lemma_spells_at(t, c + 1, line, added, m);
        lemma_void_blanks(indent);
        lemma_spells_void(indent);
        lemma_spells_at(t, c + 1 + line.len(), indent, Seq::empty(), all);
        lemma_at_char(t, c, nl, 0);
        lemma_block_token(t, c + 1, block, n, '"');
        assert(skip(t, c) == skip(t, c + 1));
    }
}

/// The elements before a closing bracket with a gap before it.
#[verifier::rlimit(30)]
proof fn lemma_gap_items(
    t: Seq<char>,
    c: int,
    x: Seq<char>,
    block: Seq<char>,
    indent: Seq<char>,
    n: nat,
    m: Seq<JsonView>,
    added: Seq<JsonView>,
    first: char,
)
    requires
        is_gap(x, block, indent),
        all_blank(indent),
        starts_with(block, n, first),
        first == '{' || first == '"',
        lists(block + seq!['\n'], added),
        at(t, c, x + seq![']']),
    ensures
        ({
            let whole = Some((m + added, (c + x.len() + 1) as int));
            if x[0] == ',' {
                behind_items(t, c, m) == whole
            } else {
                next_items(t, c, m) == whole
            }
        }),
{
    lemma_at_split(t, c, x, seq![']']);
    let z = c + x.len();
    lemma_at_char(t, z, seq![']'], 0);
    assert(skip(t, z) == Some(z));
    let all = m + added;
    assert(next_items(t, z, all) == Some((all, z + 1)));
    let nl = seq!['\n'];
    lemma_void_break();
    lemma_lists_void(nl);
    assert(m + Seq::<JsonView>::empty() =~= m);
    assert(all + Seq::<JsonView>::empty() =~= all);
    let line = block + nl;
    if x == line {
        lemma_at_split(t, c, block, nl);
        lemma_lists_at(t, c, line, added, m);
        lemma_block_token(t, c, block, n, first);
    } else if x == seq![',', '\n'] + block + nl {
        assert(x =~= seq![',', '\n'] + line);
        lemma_at_split(t, c, seq![',', '\n'], line);
        lemma_at_char(t, c, seq![',', '\n'], 0);
        lemma_at_char(t, c, seq![',', '\n'], 1);
        assert(skip(t, c) == Some(c));
        if value_at(t, c) is Some {
            lemma_value_is_token(t, c);
        }
        assert(skip(t, c + 1) == skip(t, c + 2));
        assert(next_items(t, c + 1, m) == next_items(t, c + 2, m));
        lemma_lists_at(t, c + 2, line, added, m);
    } else {
        assert(x =~= nl + line + indent);
        lemma_at_split(t, c, nl + line, indent);
        lemma_at_split(t, c, nl, line);
        lemma_at_split(t, c + 1, block, nl);
        lemma_lists_at(t, c, nl, Seq::empty(), m);
        lemma_lists_at(t, c + 1, line, added, m);
        lemma_void_blanks(indent);
        lemma_lists_void(indent);
        lemma_lists_at(t, c + 1 + line.len(), indent, Seq::empty(), all);
        lemma_at_char(t, c, nl, 0);
        lemma_block_token(t, c + 1, block, n, first);
        assert(skip(t, c) == skip(t, c + 1));
    }
}

// ── Appending ────────────────────────────────────────────────────────
proof fn lemma_blank_end(s: Seq<char>, from: int, to: int)
    requires
        0 <= from <= to <= s.len(),
    ensures
        from <= blank_end(s, from, to) <= to,
        forall|k: int| from <= k < blank_end(s, from, to) ==> is_blank(#[trigger] s[k]),
    decreases to - from,
{
    if from < to && (s[from] == ' ' || s[from] == '\t') {
        lemma_blank_end(s, from + 1, to);
    }
}

proof fn lemma_line_start(s: Seq<char>, pos: int)
    requires
        0 <= pos,
    ensures
        0 <= line_start(s, pos) <= pos,
    decreases pos,
{
    if pos > 0 && s[pos - 1] != '\n' {
        lemma_line_start(s, pos - 1);
    }
}

proof fn lemma_indent_blank(s: Seq<char>, pos: int)
    requires
        0 <= pos <= s.len(),
    ensures
        all_blank(line_indent(s, pos)),
{
    let ls = line_start(s, pos);
    lemma_line_start(s, pos);
    lemma_blank_end(s, ls, pos);
    let x = line_indent(s, pos);
    assert forall|k: int| 0 <= k < x.len() implies is_blank(#[trigger] x[k]) by {
        assert(x[k] == s[ls + k]);
    }
}

/// The text that is put before the closing bracket at `close`.
pub open spec fn gap_text(s: Seq<char>, open: int, close: int, block: Seq<char>) -> Seq<char> {
    match last_significant(s, open, close) {
        None => seq!['\n'] + block + seq!['\n'] + line_indent(s, close),
        Some(c) => if c == ',' {
            block + seq!['\n']
        } else {
            seq![',', '\n'] + block + seq!['\n']
        },
    }
}

proof fn lemma_gap(s: Seq<char>, open: int, close: int, block: Seq<char>, n: nat, first: char)
    requires
        0 <= open < close < s.len(),
        starts_with(block, n, first),
        !is_number_char(first),
        first != ',',
    ensures
        ({
            let x = gap_text(s, open, close, block);
            let t = appended(s, open, close, block);
            &&& is_gap(x, block, line_indent(s, close))
            &&& x[0] == ',' <==> comma_due(last_significant(s, open, close))
            &&& t == s.take(close) + x + s.skip(close)
            &&& same(s, t, 0, close, 0)
            &&& close < t.len()
            &&& !is_number_char(t[close])
            &&& at(t, close, x + seq![s[close]])
            &&& t == s.take(open) + (s.subrange(open, close) + x + seq![s[close]]) + s.skip(
                close + 1,
            )
        }),
{
    let x = gap_text(s, open, close, block);
    let t = appended(s, open, close, block);
    assert(t =~= s.take(close) + x + s.skip(close));
    assert(same(s, t, 0, close, 0)) by {
        reveal(alike);
        assert forall|k: int| 0 <= k < close implies t[k + 0] == #[trigger] s[k] by {}
    }
    assert(t[close] == x[0]);
    assert(x[0] == '\n' || x[0] == ',' || x[0] == block[0]);
    if n > 0 {
        assert(block[0] == ' ');
    }
    assert(t.subrange(close, close + (x + seq![s[close]]).len()) =~= x + seq![s[close]]);
    assert(t =~= s.take(open) + (s.subrange(open, close) + x + seq![s[close]]) + s.skip(close + 1));
}

/// Where a container of a document stands.
pub proof fn lemma_container_at(s: Seq<char>, path: Seq<SegView>, x: JsonView) -> (o: int)
    requires
        document(s) matches Some(j) && tidy(j) && json_at(j, path) == Some(x),
        !is_scalar(x),
    ensures
        place(s, root(s), path) == Some(o),
        ({
            let (v, e) = value_at(s, o)->0;
            &&& value_at(s, o) is Some
            &&& v == x
            &&& 0 <= o < e - 1 < s.len()
            &&& open_at(s, path) == Some(o)
            &&& close_at(s, path) == Some((e - 1) as int)
        }),
{
    let j = document(s)->0;
    let i = root(s);
    lemma_container_root(j, path);
    lemma_values_are_found(s, path);
    lemma_place_is_value(s, i, path);
    let o = place(s, i, path)->0;
    lemma_value_bounds(s, o);
    lemma_skip_bounds(s, o + 1);
    if s[o] == '{' {
        lemma_members_prefix(s, skip(s, o + 1)->0, Seq::empty());
    } else {
        lemma_items_prefix(s, skip(s, o + 1)->0, Seq::empty());
    }
    o
}

/// An object with a gap before its closing brace.
proof fn lemma_grown_object(
    s: Seq<char>,
    t: Seq<char>,
    o: int,
    c: int,
    x: Seq<char>,
    block: Seq<char>,
    indent: Seq<char>,
    n: nat,
    m: Members,
    added: Members,
)
    requires
        0 <= o < c < s.len(),
        value_at(s, o) == Some((JsonView::Object(m), c + 1)),
        same(s, t, 0, c, 0),
        c < t.len(),
        !is_number_char(t[c]),
        is_gap(x, block, indent),
        all_blank(indent),
        starts_with(block, n, '"'),
        spells(block + seq!['\n'], added),
        at(t, c, x + seq![s[c]]),
        x[0] == ',' <==> comma_due(last_significant(s, o, c)),
    ensures
        value_at(t, o) == Some((JsonView::Object(m + added), (c + x.len() + 1) as int)),
{
    lemma_value_is_token(s, o);
    assert(s[o] == '{');
    lemma_skip_bounds(s, o + 1);
    lemma_members_prefix(s, skip(s, o + 1)->0, Seq::empty());
    lemma_members_up_to(s, t, o + 1, Seq::empty(), c, None);
    lemma_gap_members(t, c, x, block, indent, n, m, added);
    lemma_same_at(s, t, 0, c, 0, o);
    if skip(t, o + 1) is Some {
        lemma_skip_bounds(t, o + 1);
    }
}

/// An array with a gap before its closing bracket.
proof fn lemma_grown_array(
    s: Seq<char>,
    t: Seq<char>,
    o: int,
    c: int,
    x: Seq<char>,
    block: Seq<char>,
    indent: Seq<char>,
    n: nat,
    items: Seq<JsonView>,
    added: Seq<JsonView>,
)
    requires
        0 <= o < c < s.len(),
        value_at(s, o) == Some((JsonView::Array(items), c + 1)),
        same(s, t, 0, c, 0),
        c < t.len(),
        !is_number_char(t[c]),
        is_gap(x, block, indent),
        all_blank(indent),
        starts_with(block, n, '{'),
        lists(block + seq!['\n'], added),
        at(t, c, x + seq![s[c]]),
        x[0] == ',' <==> comma_due(last_significant(s, o, c)),
    ensures
        value_at(t, o) == Some((JsonView::Array(items + added), (c + x.len() + 1) as int)),
{
    lemma_value_is_token(s, o);
    assert(s[o] == '[');
    lemma_skip_bounds(s, o + 1);
    lemma_items_prefix(s, skip(s, o + 1)->0, Seq::empty());
    lemma_items_up_to(s, t, o + 1, Seq::empty(), c, None);
    lemma_gap_items(t, c, x, block, indent, n, items, added, '{');
    lemma_same_at(s, t, 0, c, 0, o);
    if skip(t, o + 1) is Some {
        lemma_skip_bounds(t, o + 1);
    }
}

/// Members that are appended to an object of a document are read behind its
/// other members, and nothing else changes.
pub proof fn lemma_appended_members_are_read(
    s: Seq<char>,
    path: Seq<SegView>,
    block: Seq<char>,
    n: nat,
    m: Members,
    added: Members,
)
    requires
        document(s) matches Some(j) && tidy(j) && json_at(j, path) == Some(JsonView::Object(m)),
        starts_with(block, n, '"'),
        spells(block + seq!['\n'], added),
    ensures
        ({
            let r = edited(s, EditView::AppendBlock { path, block });
            r is Ok && document(r->Ok_0) == Some(
                replaced(document(s)->0, path, JsonView::Object(m + added)),
            )
        }),
{
    let o = lemma_container_at(s, path, JsonView::Object(m));
    let (_, e) = value_at(s, o)->0;
    let c = e - 1;
    let indent = line_indent(s, c);
    let x = gap_text(s, o, c, block);
    let t = appended(s, o, c, block);
    lemma_gap(s, o, c, block, n, '"');
    lemma_indent_blank(s, c);
    lemma_grown_object(s, t, o, c, x, block, indent, n, m, added);
    lemma_document_patched(s, path, o, c + 1, s.subrange(o, c) + x + seq![s[c]]);
}

/// Elements that are appended to an array of a document are read behind its
/// other elements, and nothing else changes.
pub proof fn lemma_appended_items_are_read(
    s: Seq<char>,
    path: Seq<SegView>,
    block: Seq<char>,
    n: nat,
    items: Seq<JsonView>,
    added: Seq<JsonView>,
)
    requires
        document(s) matches Some(j) && tidy(j) && json_at(j, path) == Some(JsonView::Array(items)),
        starts_with(block, n, '{'),
        lists(block + seq!['\n'], added),
    ensures
        ({
            let r = edited(s, EditView::AppendBlock { path, block });
            r is Ok && document(r->Ok_0) == Some(
                replaced(document(s)->0, path, JsonView::Array(items + added)),
            )
        }),
{
    let o = lemma_container_at(s, path, JsonView::Array(items));
    let (_, e) = value_at(s, o)->0;
    let c = e - 1;
    let indent = line_indent(s, c);
    let x = gap_text(s, o, c, block);
    let t = appended(s, o, c, block);
    lemma_gap(s, o, c, block, n, '{');
    lemma_indent_blank(s, c);
    lemma_grown_array(s, t, o, c, x, block, indent, n, items, added);
    lemma_document_patched(s, path, o, c + 1, s.subrange(o, c) + x + seq![s[c]]);
}

/// Only a container has something below it.
proof fn lemma_container_root(j: JsonView, path: Seq<SegView>)
    requires
        json_at(j, path) matches Some(x) && !is_scalar(x),
    ensures
        !is_scalar(j),
{
}

/// An element that was appended is read behind the others.
proof fn lemma_element_is_read(
    s: Seq<char>,
    path: Seq<SegView>,
    block: Seq<char>,
    n: nat,
    literal: Seq<char>,
    items: Seq<JsonView>,
    x: JsonView,
)
    requires
        document(s) matches Some(j) && tidy(j) && json_at(j, path) == Some(JsonView::Array(items)),
        is_element(block, n, literal, x),
    ensures
        ({
            let r = edited(s, EditView::AppendBlock { path, block });
            r is Ok && (document(r->Ok_0) matches Some(k) && json_at(
                k,
                path.push(SegView::Index(items.len())),
            ) == Some(x))
        }),
{
    let j = document(s)->0;
    lemma_element_line(n, literal, x);
    assert(starts_with(block, n, '{'));
    lemma_appended_items_are_read(s, path, block, n, items, seq![x]);
    let all = JsonView::Array(items + seq![x]);
    lemma_replaced_at(j, path, all);
    let a = SegView::Index(items.len());
    lemma_json_behind(replaced(j, path, all), path, all, a);
    assert(seq![a].drop_first() =~= Seq::empty());
    assert(json_at(x, seq![a].drop_first()) == Some(x));
    assert(json_at(all, seq![a]) == Some(x));
}

/// What stands one segment further down.
pub proof fn lemma_json_behind(j: JsonView, path: Seq<SegView>, x: JsonView, a: SegView)
    requires
        json_at(j, path) == Some(x),
    ensures
        json_at(j, path.push(a)) == json_at(x, seq![a]),
    decreases path.len(),
{
    let q = path.push(a);
    if path.len() == 0 {
        assert(q =~= seq![a]);
    } else {
        assert(q.drop_first() =~= path.drop_first().push(a));
        match (j, path[0]) {
            (JsonView::Object(m), SegView::Key(k)) => {
                lemma_json_behind(member(m, k)->0, path.drop_first(), x, a);
            },
            (JsonView::Array(v), SegView::Index(n)) => {
                lemma_json_behind(v[n as int], path.drop_first(), x, a);
            },
            _ => {},
        }
    }
}

/// A host that is appended to a list of hosts is read there, as what its text
/// keeps of it.
pub proof fn lemma_appended_host_is_read(
    s: Seq<char>,
    path: Seq<SegView>,
    items: Seq<JsonView>,
    h: HostView,
    n: nat,
)
    requires
        document(s) matches Some(j) && tidy(j) && json_at(j, path) == Some(JsonView::Array(items)),
        host_spellable(h),
    ensures
        ({
            let r = edited(s, EditView::AppendBlock { path, block: host_block(h, n) });
            r is Ok && (document(r->Ok_0) matches Some(k) && (json_at(
                k,
                path.push(SegView::Index(items.len())),
            ) matches Some(x) && host_of(x) == Some(kept_host(h))))
        }),
{
    let x = JsonView::Object(filled(host_slots(h)));
    let literal = lemma_host_text(h, n);
    lemma_element_is_read(s, path, host_block(h, n), n, literal, items, x);
    lemma_host_object(h);
}

/// A board that is appended to a list of boards is read there, as what its
/// text keeps of it.
pub proof fn lemma_appended_dut_is_read(
    s: Seq<char>,
    path: Seq<SegView>,
    items: Seq<JsonView>,
    d: DutView,
    n: nat,
)
    requires
        document(s) matches Some(j) && tidy(j) && json_at(j, path) == Some(JsonView::Array(items)),
        dut_spellable(d),
    ensures
        ({
            let r = edited(s, EditView::AppendBlock { path, block: dut_block(d, n) });
            r is Ok && (document(r->Ok_0) matches Some(k) && (json_at(
                k,
                path.push(SegView::Index(items.len())),
            ) matches Some(x) && dut_of(x) == Some(kept_dut(d))))
        }),
{
    let x = JsonView::Object(filled(dut_slots(d)));
    let literal = lemma_dut_text(d, n);
    lemma_element_is_read(s, path, dut_block(d, n), n, literal, items, x);
    lemma_dut_object(d);
}

} // verus!

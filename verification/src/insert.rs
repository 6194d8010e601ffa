//! What is put above a member of a document is read there, and a member whose
//! lines are taken out is gone.
use crate::append::lemma_container_at;
use crate::edit::{blank_end, edited, last_from, last_significant, line_start, next_line, EditView};
use crate::jsonc::{
    comment_close, document, is_blank, member_at, members_at, skip, value_at, JsonView,
};
use crate::last_token::{comma_due, lemma_blank_line, lemma_gap_before, lemma_over_member_and_comma};
use crate::locate::{key_span, lemma_value_span_bounds, line_end, open_at, value_span, SegView};
use crate::pieces::{at, lemma_skip_bounds, lemma_spells_at, next_members, spells, Members};
use crate::place::{
    entries_at, entry_from, is_scalar, json_at, key_place, keys_at, lemma_keys_are_found,
    lemma_members_prefix, lemma_name_pushed, lemma_values_are_found, member_entries, member_keys,
    member_spot, name_from, place, root, same_keys, tidy, Entries, Keys,
};
use crate::splice::{
    alike, index_of, lemma_comment_close_same, lemma_document_patched, lemma_index_at,
    lemma_index_of, lemma_line_end_grows, lemma_line_end_same, lemma_member_bounds,
    lemma_member_same, lemma_members_behind, lemma_members_same, lemma_place_is_value,
    lemma_same_at, lemma_skip_same, lemma_value_bounds, replaced, same,
};
use vstd::prelude::*;

verus! {

/// A line that holds only white space up to `i`.
spec fn own_line(s: Seq<char>, ls: int, i: int) -> bool {
    &&& 0 <= ls <= i < s.len()
    &&& ls == 0 || s[ls - 1] == '\n'
    &&& forall|k: int| ls <= k < i ==> is_blank(#[trigger] s[k])
    &&& !is_blank(s[i])
    &&& s[i] != '/'
}

proof fn lemma_line_end_before(s: Seq<char>, i: int, ls: int)
    requires
        0 <= i < ls <= s.len(),
        s[ls - 1] == '\n',
    ensures
        line_end(s, i) < ls,
    decreases ls - i,
{
    if s[i] != '\n' {
        lemma_line_end_before(s, i + 1, ls);
    }
}

/// The way to the first token of a line leads over the beginning of the line.
proof fn lemma_skip_to_line(s: Seq<char>, t: Seq<char>, p: int, ls: int, i: int)
    requires
        same(s, t, 0, ls, 0),
        own_line(s, ls, i),
        0 <= p <= ls,
        skip(s, p) == Some(i),
    ensures
        skip(t, p) == skip(t, ls),
    decreases ls - p,
{
    if p < ls {
        lemma_same_at(s, t, 0, ls, 0, p);
        if is_blank(s[p]) {
            lemma_skip_to_line(s, t, p + 1, ls, i);
        } else {
            assert(s[p] == '/');
            if p + 1 < ls {
                lemma_same_at(s, t, 0, ls, 0, p + 1);
            }
            if s[p + 1] == '/' {
                let e = line_end(s, p);
                lemma_line_end_before(s, p, ls);
                lemma_line_end_grows(s, p);
                lemma_line_end_same(s, t, 0, ls, 0, p);
                lemma_skip_to_line(s, t, e, ls, i);
            } else {
                let e = comment_close(s, p + 2)->0;
                lemma_skip_bounds(s, e);
                lemma_close_is_slash(s, p + 2);
                assert(e <= ls) by {
                    if e > ls {
                        assert(is_blank(s[e - 1]));
                    }
                }
                lemma_comment_close_same(s, t, 0, ls, 0, p + 2);
                lemma_skip_to_line(s, t, e, ls, i);
            }
        }
    }
}

proof fn lemma_close_is_slash(s: Seq<char>, i: int)
    requires
        0 <= i,
        comment_close(s, i) is Some,
    ensures
        i + 2 <= comment_close(s, i)->0 <= s.len(),
        s[comment_close(s, i)->0 - 1] == '/',
    decreases s.len() - i,
{
    if !(s[i] == '*' && s[i + 1] == '/') {
        lemma_close_is_slash(s, i + 1);
    }
}

/// The members of an object are the same up to the line of a member.
#[verifier::rlimit(30)]
proof fn lemma_members_up_to_line(
    s: Seq<char>,
    t: Seq<char>,
    p: int,
    before: Members,
    ks: Keys,
    name: Seq<char>,
    ls: int,
    i: int,
)
    requires
        same(s, t, 0, ls, 0),
        own_line(s, ls, i),
        0 <= p <= ls,
        skip(s, p) matches Some(q) && q <= i && members_at(s, q, before) is Some && name_from(
            member_keys(s, q, ks),
            name,
            0,
        ) == Some(i),
        same_keys(ks, before),
        name_from(ks, name, 0) is None,
    ensures
        ({
            let (m, e) = members_at(s, skip(s, p)->0, before)->0;
            &&& index_of(m, name, 0) matches Some(l) && next_members(t, p, before) == next_members(
                t,
                ls,
                m.take(l),
            ) && members_at(s, i, m.take(l)) == Some((m, e))
            &&& i < e
        }),
    decreases i - p,
{
    let q = skip(s, p)->0;
    let (m, e) = members_at(s, q, before)->0;
    lemma_skip_bounds(s, p);
    lemma_members_prefix(s, q, before);
    assert(s[q] == '"') by {
        if s[q] != '"' {
            assert(member_keys(s, q, ks) == ks);
        }
    }
    let (key, value, k) = member_at(s, q)->0;
    let more = before.push((key, value));
    let l = before.len() as int;
    lemma_member_bounds(s, q);
    if s[k] == ',' {
        lemma_members_prefix(s, skip(s, k + 1)->0, more);
        lemma_skip_bounds(s, k + 1);
        assert(m.take(l + 1)[l] == more[l]);
    } else {
        assert(m == more);
    }
    assert(m[l] == (key, value));
    lemma_name_pushed(ks, (key, q), name, 0);
    if key == name {
        assert(i == q) by {
            if s[k] == ',' {
                lemma_keys_prefix(s, skip(s, k + 1)->0, more, ks.push((key, q)), name);
            }
        }
        lemma_skip_to_line(s, t, p, ls, i);
        lemma_no_index(before, ks, name, 0);
        lemma_index_at(m, name, before, 0);
        assert(m.take(l) == before);
    } else {
        assert(s[k] == ',');
        let next = skip(s, k + 1)->0;
        let some = ks.push((key, q));
        lemma_key_is_later(s, next, more, some, name, i);
        assert(k < ls) by {
            if k >= ls {
                assert(is_blank(s[k]));
            }
        }
        assert forall|j: int| 0 <= j < more.len() implies (#[trigger] some[j]).0 == more[j].0 by {
            if j < l {
                assert(some[j] == ks[j]);
            }
        }
        lemma_skip_same(s, t, 0, ls, 0, p);
        lemma_same_at(s, t, 0, ls, 0, q);
        lemma_member_same(s, t, 0, ls, 0, q);
        lemma_same_at(s, t, 0, ls, 0, k);
        lemma_members_up_to_line(s, t, k + 1, more, some, name, ls, i);
        if skip(t, k + 1) is Some {
            lemma_skip_bounds(t, k + 1);
        }
    }
}

proof fn lemma_no_index(before: Members, ks: Keys, name: Seq<char>, k: int)
    requires
        same_keys(ks, before),
        0 <= k,
        name_from(ks, name, k) is None,
    ensures
        index_of(before, name, k) is None,
    decreases before.len() - k,
{
    if k < before.len() {
        assert(ks[k].0 == before[k].0);
        lemma_no_index(before, ks, name, k + 1);
    }
}

/// A key that was there stays where it is.
proof fn lemma_keys_prefix(s: Seq<char>, i: int, before: Members, ks: Keys, name: Seq<char>)
    requires
        members_at(s, i, before) is Some,
        name_from(ks, name, 0) is Some,
    ensures
        name_from(member_keys(s, i, ks), name, 0) == name_from(ks, name, 0),
    decreases s.len() - i,
{
    if s[i] == '"' {
        let (key, value, k) = member_at(s, i)->0;
        lemma_name_pushed(ks, (key, i), name, 0);
        if s[k] == ',' {
            lemma_keys_prefix(
                s,
                skip(s, k + 1)->0,
                before.push((key, value)),
                ks.push((key, i)),
                name,
            );
        }
    }
}

/// A key that was not there stands further on.
proof fn lemma_key_is_later(
    s: Seq<char>,
    i: int,
    before: Members,
    ks: Keys,
    name: Seq<char>,
    x: int,
)
    requires
        members_at(s, i, before) is Some,
        name_from(ks, name, 0) is None,
        name_from(member_keys(s, i, ks), name, 0) == Some(x),
    ensures
        i <= x,
    decreases s.len() - i,
{
    if s[i] == '"' {
        let (key, value, k) = member_at(s, i)->0;
        lemma_name_pushed(ks, (key, i), name, 0);
        if s[k] == ',' {
            let next = skip(s, k + 1)->0;
            if key == name {
                lemma_keys_prefix(s, next, before.push((key, value)), ks.push((key, i)), name);
            } else {
                lemma_key_is_later(
                    s,
                    next,
                    before.push((key, value)),
                    ks.push((key, i)),
                    name,
                    x,
                );
            }
        }
    }
}

/// The key of a member of the object at a path.
proof fn lemma_key_below(s: Seq<char>, i: int, path: Seq<SegView>, name: Seq<char>)
    ensures
        key_place(s, i, path.push(SegView::Key(name))) == (match place(s, i, path) {
            Some(o) => name_from(keys_at(s, o), name, 0),
            None => None,
        }),
    decreases path.len(),
{
    let q = path.push(SegView::Key(name));
    if path.len() > 0 {
        assert(q.drop_first() =~= path.drop_first().push(SegView::Key(name)));
        if let Some(x) = entry_from(entries_at(s, i), path[0], 0) {
            lemma_key_below(s, x, path.drop_first(), name);
        }
    }
}

// ── Inserting ────────────────────────────────────────────────────────
proof fn lemma_own_line(s: Seq<char>, i: int)
    requires
        0 <= i < s.len(),
        !is_blank(s[i]),
        s[i] != '/',
        blank_end(s, line_start(s, i), i) == i,
    ensures
        own_line(s, line_start(s, i), i),
{
    lemma_line_start_break(s, i);
    let ls = line_start(s, i);
    lemma_blank_run(s, ls, i);
}

proof fn lemma_line_start_break(s: Seq<char>, pos: int)
    requires
        0 <= pos,
    ensures
        0 <= line_start(s, pos) <= pos,
        line_start(s, pos) == 0 || s[line_start(s, pos) - 1] == '\n',
    decreases pos,
{
    if pos > 0 && s[pos - 1] != '\n' {
        lemma_line_start_break(s, pos - 1);
    }
}

proof fn lemma_blank_run(s: Seq<char>, from: int, to: int)
    requires
        0 <= from <= to <= s.len(),
    ensures
        forall|k: int| from <= k < blank_end(s, from, to) ==> is_blank(#[trigger] s[k]),
    decreases to - from,
{
    if from < to && (s[from] == ' ' || s[from] == '\t') {
        lemma_blank_run(s, from + 1, to);
    }
}

/// From the beginning of a line on, its first token comes next.
proof fn lemma_line_token(s: Seq<char>, ls: int, i: int, k: int)
    requires
        own_line(s, ls, i),
        ls <= k <= i,
    ensures
        skip(s, k) == Some(i),
    decreases i - k,
{
    if k < i {
        lemma_line_token(s, ls, i, k + 1);
    }
}

proof fn lemma_same_suffix(s: Seq<char>, t: Seq<char>, from: int, d: int)
    requires
        0 <= from <= s.len(),
        0 <= from + d,
        s.len() + d == t.len(),
        forall|k: int| from <= k < s.len() ==> t[k + d] == #[trigger] s[k],
    ensures
        same(s, t, from, s.len() as int, d),
{
    reveal(alike);
}

proof fn lemma_same_prefix(s: Seq<char>, t: Seq<char>, to: int)
    requires
        0 <= to <= s.len(),
        to <= t.len(),
        forall|k: int| 0 <= k < to ==> t[k] == #[trigger] s[k],
    ensures
        same(s, t, 0, to, 0),
{
    reveal(alike);
    assert forall|k: int| 0 <= k < to implies t[k + 0] == #[trigger] s[k] by {}
}

/// Where the key of a member of an object stands, and what comes before it.
proof fn lemma_key_line(
    s: Seq<char>,
    t: Seq<char>,
    path: Seq<SegView>,
    m: Members,
    name: Seq<char>,
    o: int,
    e: int,
    i: int,
)
    requires
        document(s) matches Some(j) && !is_scalar(j) && tidy(j),
        place(s, root(s), path) == Some(o),
        value_at(s, o) == Some((JsonView::Object(m), e)),
        key_span(s, path, name) matches Some((k, _)) && k == i,
        blank_end(s, line_start(s, i), i) == i,
        same(s, t, 0, line_start(s, i), 0),
    ensures
        ({
            let ls = line_start(s, i);
            &&& own_line(s, ls, i)
            &&& o < ls <= i < e <= s.len()
            &&& 0 <= o
            &&& s[o] == '{'
            &&& name_from(keys_at(s, o), name, 0) == Some(i)
            &&& index_of(m, name, 0) matches Some(l) && next_members(t, o + 1, Seq::empty())
                == next_members(t, ls, m.take(l)) && members_at(s, i, m.take(l)) == Some((m, e))
        }),
{
    let ls = line_start(s, i);
    lemma_keys_are_found(s, path, name);
    lemma_key_below(s, root(s), path, name);
    assert(name_from(keys_at(s, o), name, 0) == Some(i));
    lemma_value_bounds(s, o);
    assert(s[o] == '{');
    let q = skip(s, o + 1)->0;
    lemma_skip_bounds(s, o + 1);
    lemma_members_prefix(s, q, Seq::empty());
    lemma_key_is_later(s, q, Seq::empty(), Seq::empty(), name, i);
    lemma_key_quote(s, q, Seq::empty(), Seq::empty(), name, i);
    lemma_own_line(s, i);
    assert(o < ls) by {
        if o >= ls {
            assert(is_blank(s[o]));
        }
    }
    lemma_members_up_to_line(s, t, o + 1, Seq::empty(), Seq::empty(), name, ls, i);
}

/// A key begins with a quote.
proof fn lemma_key_quote(
    s: Seq<char>,
    i: int,
    before: Members,
    ks: Keys,
    name: Seq<char>,
    x: int,
)
    requires
        members_at(s, i, before) is Some,
        name_from(ks, name, 0) is None,
        name_from(member_keys(s, i, ks), name, 0) == Some(x),
    ensures
        0 <= x < s.len(),
        s[x] == '"',
    decreases s.len() - i,
{
    if s[i] == '"' {
        let (key, value, k) = member_at(s, i)->0;
        lemma_name_pushed(ks, (key, i), name, 0);
        if s[k] == ',' {
            let next = skip(s, k + 1)->0;
            if key == name {
                lemma_keys_prefix(s, next, before.push((key, value)), ks.push((key, i)), name);
            } else {
                lemma_key_quote(
                    s,
                    next,
                    before.push((key, value)),
                    ks.push((key, i)),
                    name,
                    x,
                );
            }
        }
    }
}

/// Before a key of an object stands its opening brace or a comma.
proof fn lemma_before_key(
    s: Seq<char>,
    p: int,
    before: Members,
    ks: Keys,
    name: Seq<char>,
    x: int,
    last: Option<char>,
)
    requires
        0 <= p <= s.len(),
        !comma_due(last),
        skip(s, p) matches Some(i) && members_at(s, i, before) is Some && name_from(
            member_keys(s, i, ks),
            name,
            0,
        ) == Some(x),
        name_from(ks, name, 0) is None,
    ensures
        !comma_due(last_from(s, p, x, last)),
    decreases s.len() - p,
{
    let i = skip(s, p)->0;
    lemma_skip_bounds(s, p);
    lemma_members_prefix(s, i, before);
    if s[i] == '"' {
        let (key, value, k) = member_at(s, i)->0;
        let more = before.push((key, value));
        lemma_member_bounds(s, i);
        lemma_name_pushed(ks, (key, i), name, 0);
        if key == name {
            if s[k] == ',' {
                lemma_keys_prefix(s, skip(s, k + 1)->0, more, ks.push((key, i)), name);
            }
            assert(x == i);
            lemma_gap_before(s, p, i, last);
        } else if s[k] == ',' {
            let next = skip(s, k + 1)->0;
            lemma_skip_bounds(s, k + 1);
            lemma_key_is_later(s, next, more, ks.push((key, i)), name, x);
            lemma_over_member_and_comma(s, p, x, last);
            lemma_before_key(s, k + 1, more, ks.push((key, i)), name, x, Some(','));
        }
    }
}

/// Before the line of a member stands the opening brace of its object, or a
/// comma.
pub proof fn lemma_before_line(s: Seq<char>, path: Seq<SegView>, m: Members, key: Seq<char>)
    requires
        document(s) matches Some(j) && tidy(j) && json_at(j, path) == Some(JsonView::Object(m)),
        key_span(s, path, key) matches Some((i, _)) && blank_end(s, line_start(s, i), i) == i,
    ensures
        ({
            let (i, _) = key_span(s, path, key)->0;
            !comma_due(last_significant(s, open_at(s, path)->0, line_start(s, i)))
        }),
{
    let o = lemma_container_at(s, path, JsonView::Object(m));
    let (i, _) = key_span(s, path, key)->0;
    let ls = line_start(s, i);
    lemma_key_in_text(s, path, key);
    lemma_keys_are_found(s, path, key);
    lemma_key_below(s, root(s), path, key);
    lemma_skip_bounds(s, o + 1);
    lemma_before_key(s, o + 1, Seq::empty(), Seq::empty(), key, i, None);
    lemma_key_quote(s, skip(s, o + 1)->0, Seq::empty(), Seq::empty(), key, i);
    lemma_own_line(s, i);
    lemma_blank_line(s, o + 1, ls, i, None);
}

/// Members that are put above a member of a document, on a line of its own,
/// are read before it, and nothing else changes.
pub proof fn lemma_inserted_members_are_read(
    s: Seq<char>,
    path: Seq<SegView>,
    key: Seq<char>,
    block: Seq<char>,
    m: Members,
    added: Members,
)
    requires
        document(s) matches Some(j) && tidy(j) && json_at(j, path) == Some(JsonView::Object(m)),
        spells(block + seq!['\n'], added),
        key_span(s, path, key) matches Some((i, _)) && blank_end(s, line_start(s, i), i) == i,
    ensures
        ({
            let r = edited(s, EditView::InsertBefore { path, key, block });
            let l = index_of(m, key, 0)->0;
            &&& r is Ok
            &&& index_of(m, key, 0) is Some
            &&& document(r->Ok_0) == Some(
                replaced(
                    document(s)->0,
                    path,
                    JsonView::Object(m.take(l) + added + m.skip(l)),
                ),
            )
        }),
{
    lemma_before_line(s, path, m, key);
    lemma_insert_text(s, path, key, block);
    lemma_inserted_document(s, path, key, block + seq!['\n'], m, added);
}

/// What inserting above a line makes of a text.
proof fn lemma_insert_text(s: Seq<char>, path: Seq<SegView>, key: Seq<char>, block: Seq<char>)
    requires
        key_span(s, path, key) matches Some((i, _)) && blank_end(s, line_start(s, i), i) == i && (
        last_significant(s, open_at(s, path)->0, line_start(s, i)) matches Some(c) ==> c == ','),
    ensures
        ({
            let (i, _) = key_span(s, path, key)->0;
            let ls = line_start(s, i);
            edited(s, EditView::InsertBefore { path, key, block }) == Ok::<Seq<char>, Seq<char>>(
                s.take(ls) + (block + seq!['\n']) + s.skip(ls),
            )
        }),
{
    let (i, _) = key_span(s, path, key)->0;
    let ls = line_start(s, i);
    assert(s.take(ls) + (block + seq!['\n']) + s.skip(ls) =~= s.take(ls) + block + seq!['\n']
        + s.skip(ls));
}

proof fn lemma_inserted_document(
    s: Seq<char>,
    path: Seq<SegView>,
    key: Seq<char>,
    x: Seq<char>,
    m: Members,
    added: Members,
)
    requires
        document(s) matches Some(j) && tidy(j) && json_at(j, path) == Some(JsonView::Object(m)),
        spells(x, added),
        x.len() > 0,
        key_span(s, path, key) matches Some((i, _)) && blank_end(s, line_start(s, i), i) == i,
    ensures
        ({
            let (i, _) = key_span(s, path, key)->0;
            let ls = line_start(s, i);
            let l = index_of(m, key, 0)->0;
            &&& index_of(m, key, 0) is Some
            &&& document(s.take(ls) + x + s.skip(ls)) == Some(
                replaced(
                    document(s)->0,
                    path,
                    JsonView::Object(m.take(l) + added + m.skip(l)),
                ),
            )
        }),
{
    let o = lemma_container_at(s, path, JsonView::Object(m));
    let (_, e) = value_at(s, o)->0;
    let (i, _) = key_span(s, path, key)->0;
    let ls = line_start(s, i);
    lemma_key_in_text(s, path, key);
    lemma_line_start_break(s, i);
    let t = s.take(ls) + x + s.skip(ls);
    lemma_line_patch(s, ls, ls, x);
    lemma_key_line(s, t, path, m, key, o, e, i);
    let l = index_of(m, key, 0)->0;
    lemma_index_of(m, key, 0);
    assert(m.take(l).len() == l);
    lemma_inserted_object(s, t, o, e, ls, i, x, m.take(l), m, added);
    lemma_line_text(s, o, ls, ls, e, x);
    lemma_document_patched(s, path, o, e, s.subrange(o, ls) + x + s.subrange(ls, e));
}

/// A text with other lines from `ls` to `ne`.
proof fn lemma_line_patch(s: Seq<char>, ls: int, ne: int, x: Seq<char>)
    requires
        0 <= ls <= ne <= s.len(),
    ensures
        ({
            let t = s.take(ls) + x + s.skip(ne);
            &&& same(s, t, 0, ls, 0)
            &&& same(s, t, ne, s.len() as int, x.len() - (ne - ls))
            &&& t.len() == s.len() + (x.len() - (ne - ls))
        }),
{
    let t = s.take(ls) + x + s.skip(ne);
    let d = x.len() - (ne - ls);
    assert forall|k: int| 0 <= k < ls implies t[k] == #[trigger] s[k] by {}
    lemma_same_prefix(s, t, ls);
    assert forall|k: int| ne <= k < s.len() implies t[k + d] == #[trigger] s[k] by {}
    lemma_same_suffix(s, t, ne, d);
}

proof fn lemma_line_text(s: Seq<char>, o: int, ls: int, ne: int, e: int, x: Seq<char>)
    requires
        0 <= o <= ls <= ne <= e <= s.len(),
    ensures
        s.take(ls) + x + s.skip(ne) == s.take(o) + (s.subrange(o, ls) + x + s.subrange(ne, e))
            + s.skip(e),
{
    assert(s.take(ls) + x + s.skip(ne) =~= s.take(o) + (s.subrange(o, ls) + x + s.subrange(ne, e))
        + s.skip(e));
}

/// A located key stands in the text, in an object that the pass found.
proof fn lemma_key_in_text(s: Seq<char>, path: Seq<SegView>, name: Seq<char>)
    requires
        document(s) matches Some(j) && !is_scalar(j) && tidy(j),
        key_span(s, path, name) is Some,
    ensures
        ({
            let (i, _) = key_span(s, path, name)->0;
            0 <= i < s.len()
        }),
{
    lemma_keys_are_found(s, path, name);
    lemma_key_below(s, root(s), path, name);
    lemma_place_is_value(s, root(s), path);
    let (i, _) = key_span(s, path, name)->0;
    let o = place(s, root(s), path)->0;
    lemma_value_bounds(s, o);
    let q = skip(s, o + 1)->0;
    if s[o] == '{' {
        lemma_key_quote(s, q, Seq::empty(), Seq::empty(), name, i);
    }
}

#[verifier::rlimit(30)]
proof fn lemma_inserted_object(
    s: Seq<char>,
    t: Seq<char>,
    o: int,
    e: int,
    ls: int,
    i: int,
    x: Seq<char>,
    b: Members,
    m: Members,
    added: Members,
)
    requires
        own_line(s, ls, i),
        0 <= o < ls,
        i < e <= s.len(),
        s[o] == '{',
        b.len() <= m.len(),
        same(s, t, 0, ls, 0),
        same(s, t, ls, s.len() as int, x.len() as int),
        t == s.take(ls) + x + s.skip(ls),
        spells(x, added),
        next_members(t, o + 1, Seq::empty()) == next_members(t, ls, b),
        members_at(s, i, b) == Some((m, e)),
    ensures
        value_at(t, o) == Some(
            (JsonView::Object(b + added + m.skip(b.len() as int)), (e + x.len()) as int),
        ),
{
    let d = x.len() as int;
    let end = s.len() as int;
    assert(t.subrange(ls, ls + x.len()) =~= x);
    assert(at(t, ls, x));
    lemma_spells_at(t, ls, x, added, b);
    lemma_line_token(s, ls, i, ls);
    lemma_skip_same(s, t, ls, end, d, ls);
    assert(skip(t, ls + d) == Some(i + d));
    lemma_members_same(s, t, ls, end, d, i, b);
    lemma_members_behind(t, i + d, b, b + added);
    assert(next_members(t, ls + d, b + added) == Some(
        (b + added + m.skip(b.len() as int), e + d),
    ));
    lemma_same_at(s, t, 0, ls, 0, o);
    lemma_skip_bounds(t, o + 1);
}

// ── Removing ─────────────────────────────────────────────────────────
/// A key stands before its value.
proof fn lemma_key_member(
    s: Seq<char>,
    i: int,
    before: Members,
    ks: Keys,
    name: Seq<char>,
    x: int,
)
    requires
        members_at(s, i, before) is Some,
        name_from(ks, name, 0) is None,
        name_from(member_keys(s, i, ks), name, 0) == Some(x),
    ensures
        x < member_spot(s, x),
    decreases s.len() - i,
{
    if s[i] == '"' {
        let (key, value, k) = member_at(s, i)->0;
        lemma_member_bounds(s, i);
        lemma_name_pushed(ks, (key, i), name, 0);
        if s[k] == ',' {
            let next = skip(s, k + 1)->0;
            if key == name {
                lemma_keys_prefix(s, next, before.push((key, value)), ks.push((key, i)), name);
            } else {
                lemma_key_member(
                    s,
                    next,
                    before.push((key, value)),
                    ks.push((key, i)),
                    name,
                    x,
                );
            }
        }
    }
}

/// Whether nothing but a comma and comments stands behind a value on its line.
pub open spec fn clear_behind(s: Seq<char>, end: int) -> bool {
    let ne = next_line(s, end);
    match skip(s, end) {
        Some(k) => if k < s.len() && s[k] == ',' {
            k < ne && skip(s, k + 1) == skip(s, ne)
        } else {
            skip(s, ne) == Some(k)
        },
        None => false,
    }
}

/// Whether the entries are the members whose keys these are.
spec fn of_keys(s: Seq<char>, es: Entries, ks: Keys) -> bool {
    &&& es.len() == ks.len()
    &&& forall|k: int|
        0 <= k < ks.len() ==> (#[trigger] es[k]).0 == SegView::Key(ks[k].0) && es[k].1
            == member_spot(s, ks[k].1)
}

proof fn lemma_entries_of_keys(s: Seq<char>, i: int, es: Entries, ks: Keys)
    requires
        of_keys(s, es, ks),
    ensures
        of_keys(s, member_entries(s, i, es), member_keys(s, i, ks)),
    decreases s.len() - i,
{
    if 0 <= i < s.len() && s[i] == '"' {
        if let Some((name, _, m)) = member_at(s, i) {
            if i < m < s.len() {
                let some = es.push((SegView::Key(name), member_spot(s, i)));
                let more = ks.push((name, i));
                assert forall|k: int| 0 <= k < more.len() implies (#[trigger] some[k]).0
                    == SegView::Key(more[k].0) && some[k].1 == member_spot(s, more[k].1) by {
                    if k < ks.len() {
                        assert(some[k] == es[k]);
                    }
                }
                if s[m] == ',' {
                    if let Some(n) = skip(s, m + 1) {
                        if i < n <= s.len() {
                            lemma_entries_of_keys(s, n, some, more);
                        }
                    }
                }
            }
        }
    }
}

proof fn lemma_entry_of_key(s: Seq<char>, es: Entries, ks: Keys, name: Seq<char>, k: int)
    requires
        of_keys(s, es, ks),
        0 <= k,
    ensures
        entry_from(es, SegView::Key(name), k) == (match name_from(ks, name, k) {
            Some(i) => Some(member_spot(s, i)),
            None => None,
        }),
    decreases ks.len() - k,
{
    if k < ks.len() {
        assert(es[k].0 == SegView::Key(ks[k].0));
        lemma_entry_of_key(s, es, ks, name, k + 1);
    }
}

/// The value one segment further down.
proof fn lemma_place_below(s: Seq<char>, i: int, path: Seq<SegView>, a: SegView)
    ensures
        place(s, i, path.push(a)) == (match place(s, i, path) {
            Some(o) => entry_from(entries_at(s, o), a, 0),
            None => None,
        }),
    decreases path.len(),
{
    let q = path.push(a);
    if path.len() > 0 {
        assert(q.drop_first() =~= path.drop_first().push(a));
        if let Some(x) = entry_from(entries_at(s, i), path[0], 0) {
            lemma_place_below(s, x, path.drop_first(), a);
        }
    } else {
        if let Some(x) = entry_from(entries_at(s, i), a, 0) {
            assert(place(s, x, q.drop_first()) == Some(x));
        }
    }
}

/// Where the value of a member of an object stands.
proof fn lemma_spot(s: Seq<char>, path: Seq<SegView>, name: Seq<char>, o: int, i: int)
    requires
        place(s, root(s), path) == Some(o),
        s[o] == '{',
        name_from(keys_at(s, o), name, 0) == Some(i),
    ensures
        place(s, root(s), path.push(SegView::Key(name))) == Some(member_spot(s, i)),
{
    lemma_place_below(s, root(s), path, SegView::Key(name));
    if let Some(j) = skip(s, o + 1) {
        lemma_entries_of_keys(s, j, Seq::empty(), Seq::empty());
    }
    lemma_entry_of_key(s, entries_at(s, o), keys_at(s, o), name, 0);
}

#[verifier::rlimit(30)]
proof fn lemma_removed_object(
    s: Seq<char>,
    t: Seq<char>,
    o: int,
    e: int,
    ls: int,
    i: int,
    ne: int,
    f: int,
    b: Members,
    m: Members,
)
    requires
        own_line(s, ls, i),
        0 <= o < ls,
        i < e <= s.len(),
        ls <= ne <= s.len(),
        s[o] == '{',
        s[i] == '"',
        same(s, t, 0, ls, 0),
        same(s, t, ne, s.len() as int, ls - ne),
        t.len() == s.len() + (ls - ne),
        next_members(t, o + 1, Seq::empty()) == next_members(t, ls, b),
        members_at(s, i, b) == Some((m, e)),
        value_at(s, member_spot(s, i)) matches Some((_, g)) && g == f,
        ne == next_line(s, f),
        clear_behind(s, f),
    ensures
        ne < e,
        b.len() < m.len(),
        value_at(t, o) == Some(
            (JsonView::Object(b + m.skip(b.len() as int + 1)), (e + (ls - ne)) as int),
        ),
{
    let d = ls - ne;
    let end = s.len() as int;
    let (key, value, k) = member_at(s, i)->0;
    let more = b.push((key, value));
    let l = b.len() as int;
    lemma_member_bounds(s, i);
    lemma_members_prefix(s, i, b);
    lemma_same_at(s, t, 0, ls, 0, o);
    if s[k] == ',' {
        let n = skip(s, k + 1)->0;
        assert(skip(s, ne) == Some(n));
        lemma_skip_bounds(s, ne);
        lemma_members_prefix(s, n, more);
        lemma_skip_same(s, t, ne, end, d, ne);
        lemma_members_same(s, t, ne, end, d, n, more);
        lemma_members_behind(t, n + d, more, b);
        assert(next_members(t, ls, b) == Some((b + m.skip(l + 1), e + d)));
    } else {
        assert(skip(s, ne) == Some(k));
        lemma_skip_bounds(s, ne);
        lemma_skip_same(s, t, ne, end, d, ne);
        lemma_same_at(s, t, ne, end, d, k);
        assert(m == more);
        assert(b + m.skip(l + 1) =~= b);
        assert(next_members(t, ls, b) == Some((b, k + d + 1)));
    }
    lemma_skip_bounds(t, o + 1);
}

/// A member whose lines are taken out of a document is gone, and nothing else
/// changes, where it has its lines for itself.
pub proof fn lemma_removed_member_is_gone(
    s: Seq<char>,
    path: Seq<SegView>,
    key: Seq<char>,
    m: Members,
)
    requires
        document(s) matches Some(j) && tidy(j) && json_at(j, path) == Some(JsonView::Object(m)),
        key_span(s, path, key) matches Some((i, _)) && blank_end(s, line_start(s, i), i) == i,
        value_span(s, path.push(SegView::Key(key))) matches Some((_, end)) && clear_behind(s, end),
    ensures
        ({
            let r = edited(s, EditView::RemoveKey { path, key });
            let l = index_of(m, key, 0)->0;
            &&& r is Ok
            &&& index_of(m, key, 0) is Some
            &&& document(r->Ok_0) == Some(
                replaced(document(s)->0, path, JsonView::Object(m.take(l) + m.skip(l + 1))),
            )
        }),
{
    let o = lemma_container_at(s, path, JsonView::Object(m));
    let (_, e) = value_at(s, o)->0;
    let (i, _) = key_span(s, path, key)->0;
    let (_, f) = value_span(s, path.push(SegView::Key(key)))->0;
    let ls = line_start(s, i);
    let ne = next_line(s, f);
    let none = Seq::<char>::empty();
    lemma_key_in_text(s, path, key);
    lemma_line_start_break(s, i);
    lemma_values_are_found(s, path.push(SegView::Key(key)));
    lemma_value_span_bounds(s, path.push(SegView::Key(key)));
    lemma_line_end_grows(s, f);
    assert(ls <= ne) by {
        lemma_keys_are_found(s, path, key);
        lemma_key_below(s, root(s), path, key);
        let q = skip(s, o + 1)->0;
        lemma_value_bounds(s, o);
        lemma_key_member(s, q, Seq::empty(), Seq::empty(), key, i);
        lemma_spot(s, path, key, o, i);
    }
    let t = s.take(ls) + none + s.skip(ne);
    assert(s.take(ls) + s.skip(ne) =~= t);
    lemma_line_patch(s, ls, ne, none);
    lemma_key_line(s, t, path, m, key, o, e, i);
    lemma_spot(s, path, key, o, i);
    let l = index_of(m, key, 0)->0;
    lemma_index_of(m, key, 0);
    assert(m.take(l).len() == l);
    lemma_removed_object(s, t, o, e, ls, i, ne, f, m.take(l), m);
    lemma_line_text(s, o, ls, ne, e, none);
    lemma_document_patched(s, path, o, e, s.subrange(o, ls) + none + s.subrange(ne, e));
}

/// A member that the pass finds has a key that the pass finds.
pub proof fn lemma_key_is_found(s: Seq<char>, path: Seq<SegView>, m: Members, key: Seq<char>)
    requires
        document(s) matches Some(j) && tidy(j) && json_at(j, path) == Some(JsonView::Object(m)),
        value_span(s, path.push(SegView::Key(key))) is Some || open_at(
            s,
            path.push(SegView::Key(key)),
        ) is Some,
    ensures
        key_span(s, path, key) is Some,
{
    let o = lemma_container_at(s, path, JsonView::Object(m));
    lemma_value_bounds(s, o);
    lemma_values_are_found(s, path.push(SegView::Key(key)));
    lemma_place_below(s, root(s), path, SegView::Key(key));
    if let Some(j) = skip(s, o + 1) {
        lemma_entries_of_keys(s, j, Seq::empty(), Seq::empty());
    }
    lemma_entry_of_key(s, entries_at(s, o), keys_at(s, o), key, 0);
    lemma_keys_are_found(s, path, key);
    lemma_key_below(s, root(s), path, key);
}

} // verus!

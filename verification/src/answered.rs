//! What an update writes is what the document says afterwards.
use crate::append::{
    lemma_appended_members_are_read, lemma_container_at, lemma_json_behind, starts_with,
};
use crate::config::{member, member_from};
use crate::edit::{blank_end, edited, entry_indent, line_start, EditView};
use crate::insert::{lemma_inserted_members_are_read, lemma_key_is_found};
use crate::jsonc::{document, JsonView};
use crate::locate::{key_span, value_span, SegView};
use crate::pieces::{plain, reads, spells, Members};
use crate::place::{is_scalar, json_at, lemma_member_pushed, lemma_values_are_found, root, tidy};
use crate::render::{member_line, section_block, LineView};
use crate::splice::{
    index_of, lemma_index_of, lemma_place_is_value, lemma_replace_container_is_read,
    lemma_replaced_at, lemma_set_scalar_is_read, replaced,
};
use crate::text::spaces;
use crate::update::{present, set_or_append, ScalarView};
use crate::written::{lemma_member_line, quiet};
use vstd::prelude::*;

verus! {

/// Whether an edit leaves a document that says a value at a path.
pub open spec fn says(s: Seq<char>, op: EditView, path: Seq<SegView>, w: JsonView) -> bool {
    edited(s, op) matches Ok(t) && (document(t) matches Some(k) && json_at(k, path) == Some(w))
}

/// What the pass does not find is not there.
pub proof fn lemma_absent(s: Seq<char>, container: Seq<SegView>, m: Members, key: Seq<char>)
    requires
        document(s) matches Some(j) && tidy(j) && json_at(j, container) == Some(
            JsonView::Object(m),
        ),
        !present(s, container.push(SegView::Key(key))),
    ensures
        member(m, key) is None,
{
    let j = document(s)->0;
    let path = container.push(SegView::Key(key));
    let o = lemma_container_at(s, container, JsonView::Object(m));
    lemma_values_are_found(s, path);
    lemma_place_is_value(s, root(s), path);
    lemma_json_behind(j, container, JsonView::Object(m), SegView::Key(key));
    let one = seq![SegView::Key(key)];
    if let Some(x) = member(m, key) {
        assert(json_at(x, one.drop_first()) == Some(x));
        assert(json_at(JsonView::Object(m), one) == Some(x));
    }
}

pub proof fn lemma_line_starts(n: nat, key: Seq<char>, literal: Seq<char>, comment: Option<Seq<char>>)
    ensures
        starts_with(member_line(spaces(n), key, literal, comment), n, '"'),
{
    reveal_strlit("\"");
    let line = member_line(spaces(n), key, literal, comment);
    let base = member_line(spaces(n), key, literal, None);
    assert(base.len() > n);
    assert forall|k: int| 0 <= k <= n implies line[k] == base[k] by {}
    assert(base[n as int] == '"');
}

/// A member that was appended is what the document says at its key.
proof fn lemma_appended_is_said(
    s: Seq<char>,
    container: Seq<SegView>,
    m: Members,
    block: Seq<char>,
    n: nat,
    key: Seq<char>,
    w: JsonView,
)
    requires
        document(s) matches Some(j) && tidy(j) && json_at(j, container) == Some(
            JsonView::Object(m),
        ),
        member(m, key) is None,
        starts_with(block, n, '"'),
        spells(block + seq!['\n'], seq![(key, w)]),
    ensures
        says(
            s,
            EditView::AppendBlock { path: container, block },
            container.push(SegView::Key(key)),
            w,
        ),
{
    let j = document(s)->0;
    let x = (key, w);
    lemma_appended_members_are_read(s, container, block, n, m, seq![x]);
    let all = JsonView::Object(m + seq![x]);
    lemma_replaced_at(j, container, all);
    lemma_json_behind(replaced(j, container, all), container, all, SegView::Key(key));
    lemma_member_pushed(m, x, key, 0);
    assert(m + seq![x] =~= m.push(x));
    let one = seq![SegView::Key(key)];
    assert(json_at(w, one.drop_first()) == Some(w));
    assert(json_at(all, one) == Some(w));
}

proof fn lemma_member_between(a: Members, x: (Seq<char>, JsonView), b: Members, k: int)
    requires
        0 <= k <= a.len(),
        member_from(a + b, x.0, k) is None,
    ensures
        member_from(a + seq![x] + b, x.0, k) == Some(x.1),
    decreases a.len() - k,
{
    let all = a + seq![x] + b;
    if k < a.len() {
        assert(all[k] == a[k]);
        assert((a + b)[k] == a[k]);
        lemma_member_between(a, x, b, k + 1);
    } else {
        assert(all[k] == x);
    }
}

/// A member that was put above another one is what the document says at its
/// key.
proof fn lemma_inserted_is_said(
    s: Seq<char>,
    container: Seq<SegView>,
    m: Members,
    anchor: Seq<char>,
    block: Seq<char>,
    n: nat,
    key: Seq<char>,
    w: JsonView,
)
    requires
        document(s) matches Some(j) && tidy(j) && json_at(j, container) == Some(
            JsonView::Object(m),
        ),
        member(m, key) is None,
        present(s, container.push(SegView::Key(anchor))),
        starts_with(block, n, '"'),
        spells(block + seq!['\n'], seq![(key, w)]),
    ensures
        says(
            s,
            EditView::InsertBefore { path: container, key: anchor, block },
            container.push(SegView::Key(key)),
            w,
        ),
{
    lemma_key_is_found(s, container, m, anchor);
    let (i, _) = key_span(s, container, anchor)->0;
    if blank_end(s, line_start(s, i), i) != i {
        lemma_appended_is_said(s, container, m, block, n, key, w);
    } else {
        let j = document(s)->0;
        let x = (key, w);
        lemma_inserted_members_are_read(s, container, anchor, block, m, seq![x]);
        let l = index_of(m, anchor, 0)->0;
        lemma_index_of(m, anchor, 0);
        let some = m.take(l) + seq![x] + m.skip(l);
        let all = JsonView::Object(some);
        assert(m.take(l) + m.skip(l) =~= m);
        lemma_member_between(m.take(l), x, m.skip(l), 0);
        lemma_replaced_at(j, container, all);
        lemma_json_behind(replaced(j, container, all), container, all, SegView::Key(key));
        let one = seq![SegView::Key(key)];
        assert(json_at(w, one.drop_first()) == Some(w));
        assert(json_at(all, one) == Some(w));
    }
}

/// A value that is written to an object of a document is what the document
/// says at its key afterwards, whether it was there before or not.
pub proof fn lemma_written_value_is_read(
    s: Seq<char>,
    container: Seq<SegView>,
    m: Members,
    e: ScalarView,
    w: JsonView,
)
    requires
        document(s) matches Some(j) && tidy(j) && json_at(j, container) == Some(
            JsonView::Object(m),
        ),
        plain(e.key),
        reads(e.literal, w),
        e.literal.len() > 0,
        quiet(e.comment),
        set_or_append(s, container, e) is Ok,
    ensures
        says(s, set_or_append(s, container, e)->Ok_0.op, container.push(SegView::Key(e.key)), w),
{
    let j = document(s)->0;
    let path = container.push(SegView::Key(e.key));
    let o = lemma_container_at(s, container, JsonView::Object(m));
    assert(!is_scalar(j)) by {
        lemma_values_below(j, container, m);
    }
    if present(s, path) {
        lemma_values_are_found(s, path);
        lemma_place_is_value(s, root(s), path);
        lemma_replaced_at(j, path, w);
        if value_span(s, path) is Some {
            lemma_set_scalar_is_read(s, path, e.literal, w);
        } else {
            lemma_replace_container_is_read(s, path, e.literal, w);
        }
    } else {
        lemma_absent(s, container, m, e.key);
        let n = entry_indent(s, container)->0;
        let block = member_line(spaces(n), e.key, e.literal, e.comment);
        lemma_member_line(n, e.key, e.literal, w, e.comment);
        lemma_line_starts(n, e.key, e.literal, e.comment);
        if let Some(anchor) = e.before {
            if present(s, container.push(SegView::Key(anchor))) {
                lemma_inserted_is_said(s, container, m, anchor, block, n, e.key, w);
            } else {
                lemma_appended_is_said(s, container, m, block, n, e.key, w);
            }
        } else {
            lemma_appended_is_said(s, container, m, block, n, e.key, w);
        }
    }
}

proof fn lemma_values_below(j: JsonView, container: Seq<SegView>, m: Members)
    requires
        json_at(j, container) == Some(JsonView::Object(m)),
    ensures
        !is_scalar(j),
{
}

pub proof fn lemma_block_starts(name: Seq<char>, lines: Seq<LineView>, n: nat)
    ensures
        starts_with(section_block(name, lines, n), n, '"'),
{
    reveal_strlit("\"");
    let block = section_block(name, lines, n);
    assert(block.len() > n);
    assert(block[n as int] == '"');
}

} // verus!

//! What a run of edits makes of a document: each edit makes its change, one
//! after the other, and nothing else changes.
use crate::append::{lemma_appended_items_are_read, lemma_appended_members_are_read, starts_with};
use crate::config::config_text;
use crate::edit::{blank_end, edited, edited_from, line_start, EditView};
use crate::insert::{clear_behind, lemma_inserted_members_are_read, lemma_removed_member_is_gone};
use crate::jsonc::{document, JsonView};
use crate::locate::{key_span, open_at, value_span, SegView};
use crate::pieces::{lists, reads, spells, Members};
use crate::place::{is_scalar, json_at, lemma_tidy_item, lemma_tidy_member, named, tidy};
use crate::splice::{
    index_of, lemma_index_of, lemma_replace_container_is_read, lemma_set_scalar_is_read, replaced,
};
use crate::tidy::{lemma_array_is_tidy, lemma_object_is_tidy};
use vstd::prelude::*;

verus! {

/// A change of what a document says.
pub enum ChangeView {
    /// Another value at a path.
    Value { path: Seq<SegView>, value: JsonView },
    /// More members behind those of an object.
    Members { path: Seq<SegView>, added: Members },
    /// More elements behind those of a list.
    Items { path: Seq<SegView>, added: Seq<JsonView> },
    /// More members before a member of an object.
    Above { path: Seq<SegView>, key: Seq<char>, added: Members },
    /// A member less.
    Gone { path: Seq<SegView>, key: Seq<char> },
}

/// The members with others before the one of a name.
pub open spec fn with_above(m: Members, key: Seq<char>, added: Members) -> Members {
    match index_of(m, key, 0) {
        Some(l) => m.take(l) + added + m.skip(l),
        None => m,
    }
}

/// The members without the one of a name.
pub open spec fn without(m: Members, key: Seq<char>) -> Members {
    match index_of(m, key, 0) {
        Some(l) => m.take(l) + m.skip(l + 1),
        None => m,
    }
}

/// What a document says after a change.
pub open spec fn changed(j: JsonView, c: ChangeView) -> JsonView {
    match c {
        ChangeView::Value { path, value } => replaced(j, path, value),
        ChangeView::Members { path, added } => match json_at(j, path) {
            Some(JsonView::Object(m)) => replaced(j, path, JsonView::Object(m + added)),
            _ => j,
        },
        ChangeView::Items { path, added } => match json_at(j, path) {
            Some(JsonView::Array(v)) => replaced(j, path, JsonView::Array(v + added)),
            _ => j,
        },
        ChangeView::Above { path, key, added } => match json_at(j, path) {
            Some(JsonView::Object(m)) => replaced(
                j,
                path,
                JsonView::Object(with_above(m, key, added)),
            ),
            _ => j,
        },
        ChangeView::Gone { path, key } => match json_at(j, path) {
            Some(JsonView::Object(m)) => replaced(j, path, JsonView::Object(without(m, key))),
            _ => j,
        },
    }
}

/// What a document says after the changes from `i` on.
pub open spec fn changed_from(j: JsonView, cs: Seq<ChangeView>, i: int) -> JsonView
    decreases cs.len() - i,
{
    if i < 0 || i >= cs.len() {
        j
    } else {
        changed_from(changed(j, cs[i]), cs, i + 1)
    }
}

/// Whether the values of all members are tidy.
pub open spec fn all_tidy(m: Members) -> bool {
    forall|k: int| 0 <= k < m.len() ==> tidy((#[trigger] m[k]).1)
}

/// Whether all elements are tidy.
pub open spec fn items_tidy(v: Seq<JsonView>) -> bool {
    forall|k: int| 0 <= k < v.len() ==> tidy(#[trigger] v[k])
}

/// Whether a change leaves a tidy document tidy: no name comes twice into an
/// object, and what is new is tidy.
pub open spec fn stays_tidy(j: JsonView, c: ChangeView) -> bool {
    match c {
        ChangeView::Value { path, value } => tidy(value) && (path.len() == 0 ==> !is_scalar(value)),
        ChangeView::Members { path, added } => all_tidy(added) && (json_at(j, path) matches Some(
            JsonView::Object(m),
        ) ==> named(m + added)),
        ChangeView::Items { added, .. } => items_tidy(added),
        ChangeView::Above { path, key, added } => all_tidy(added) && (json_at(j, path) matches Some(
            JsonView::Object(m),
        ) ==> named(with_above(m, key, added))),
        ChangeView::Gone { .. } => true,
    }
}

proof fn lemma_replaced_is_tidy(j: JsonView, path: Seq<SegView>, w: JsonView)
    requires
        tidy(j),
        tidy(w),
    ensures
        tidy(replaced(j, path, w)),
    decreases path.len(),
{
    if path.len() > 0 {
        let rest = path.drop_first();
        match (j, path[0]) {
            (JsonView::Object(m), SegView::Key(name)) => {
                lemma_index_of(m, name, 0);
                if let Some(n) = index_of(m, name, 0) {
                    lemma_tidy_member(m, n);
                    let x = replaced(m[n].1, rest, w);
                    lemma_replaced_is_tidy(m[n].1, rest, w);
                    let u = m.update(n, (name, x));
                    assert forall|k: int| 0 <= k < u.len() implies tidy((#[trigger] u[k]).1) by {
                        lemma_tidy_member(m, k);
                    }
                    assert forall|k: int| 0 <= k < u.len() implies (#[trigger] u[k]).0
                        == m[k].0 by {}
                    assert(named(u));
                    lemma_object_is_tidy(u);
                }
            },
            (JsonView::Array(v), SegView::Index(n)) => {
                if n < v.len() {
                    lemma_tidy_item(v, n as int);
                    lemma_replaced_is_tidy(v[n as int], rest, w);
                    let u = v.update(n as int, replaced(v[n as int], rest, w));
                    assert forall|k: int| 0 <= k < u.len() implies tidy(#[trigger] u[k]) by {
                        lemma_tidy_item(v, k);
                    }
                    lemma_array_is_tidy(u);
                }
            },
            _ => {},
        }
    }
}

/// A value below a tidy one is tidy.
proof fn lemma_below_is_tidy(j: JsonView, path: Seq<SegView>)
    requires
        tidy(j),
        json_at(j, path) is Some,
    ensures
        tidy(json_at(j, path)->0),
    decreases path.len(),
{
    if path.len() > 0 {
        match (j, path[0]) {
            (JsonView::Object(m), SegView::Key(name)) => {
                lemma_index_of(m, name, 0);
                lemma_tidy_member(m, index_of(m, name, 0)->0);
                lemma_below_is_tidy(m[index_of(m, name, 0)->0].1, path.drop_first());
            },
            (JsonView::Array(v), SegView::Index(n)) => {
                lemma_tidy_item(v, n as int);
                lemma_below_is_tidy(v[n as int], path.drop_first());
            },
            _ => {},
        }
    }
}

proof fn lemma_tidy_members(m: Members)
    requires
        tidy(JsonView::Object(m)),
    ensures
        named(m),
        all_tidy(m),
{
    let j = JsonView::Object(m);
    assert(json_at(j, Seq::empty()) == Some(j));
    assert forall|k: int| 0 <= k < m.len() implies tidy((#[trigger] m[k]).1) by {
        lemma_tidy_member(m, k);
    }
}

proof fn lemma_without_is_tidy(m: Members, key: Seq<char>)
    requires
        tidy(JsonView::Object(m)),
    ensures
        tidy(JsonView::Object(without(m, key))),
{
    lemma_tidy_members(m);
    lemma_index_of(m, key, 0);
    if let Some(l) = index_of(m, key, 0) {
        let u = without(m, key);
        assert forall|k: int| 0 <= k < u.len() implies #[trigger] u[k] == m[if k < l {
            k
        } else {
            k + 1
        }] by {}
        assert(named(u));
        assert forall|k: int| 0 <= k < u.len() implies tidy((#[trigger] u[k]).1) by {}
        lemma_object_is_tidy(u);
    }
}

/// A change that does not repeat a name leaves a tidy document tidy.
pub proof fn lemma_change_stays_tidy(j: JsonView, c: ChangeView)
    requires
        tidy(j),
        !is_scalar(j),
        stays_tidy(j, c),
    ensures
        tidy(changed(j, c)),
        !is_scalar(changed(j, c)),
{
    match c {
        ChangeView::Value { path, value } => {
            lemma_replaced_is_tidy(j, path, value);
        },
        ChangeView::Members { path, added } => {
            if let Some(JsonView::Object(m)) = json_at(j, path) {
                lemma_below_is_tidy(j, path);
                lemma_tidy_members(m);
                lemma_object_is_tidy(m + added);
                lemma_replaced_is_tidy(j, path, JsonView::Object(m + added));
            }
        },
        ChangeView::Items { path, added } => {
            if let Some(JsonView::Array(v)) = json_at(j, path) {
                lemma_below_is_tidy(j, path);
                let u = v + added;
                assert forall|k: int| 0 <= k < u.len() implies tidy(#[trigger] u[k]) by {
                    if k < v.len() {
                        lemma_tidy_item(v, k);
                    }
                }
                lemma_array_is_tidy(u);
                lemma_replaced_is_tidy(j, path, JsonView::Array(u));
            }
        },
        ChangeView::Above { path, key, added } => {
            if let Some(JsonView::Object(m)) = json_at(j, path) {
                lemma_below_is_tidy(j, path);
                lemma_tidy_members(m);
                lemma_index_of(m, key, 0);
                let u = with_above(m, key, added);
                lemma_object_is_tidy(u);
                lemma_replaced_is_tidy(j, path, JsonView::Object(u));
            }
        },
        ChangeView::Gone { path, key } => {
            if let Some(JsonView::Object(m)) = json_at(j, path) {
                lemma_below_is_tidy(j, path);
                lemma_without_is_tidy(m, key);
                lemma_replaced_is_tidy(j, path, JsonView::Object(without(m, key)));
            }
        },
    }
}

/// Whether a block begins, behind spaces, with a character.
pub open spec fn begins(block: Seq<char>, c: char) -> bool {
    exists|n: nat| starts_with(block, n, c)
}

/// Whether the key of a member stands first on its line.
pub open spec fn leads_its_line(s: Seq<char>, path: Seq<SegView>, key: Seq<char>) -> bool {
    key_span(s, path, key) matches Some((i, _)) && blank_end(s, line_start(s, i), i) == i
}

/// Whether there is an object at a path of the document that a text holds.
pub open spec fn object_at(s: Seq<char>, path: Seq<SegView>) -> bool {
    json_at(document(s)->0, path) matches Some(x) && x is Object
}

/// Whether there is a list at a path of the document that a text holds.
pub open spec fn list_at(s: Seq<char>, path: Seq<SegView>) -> bool {
    json_at(document(s)->0, path) matches Some(x) && x is Array
}

/// Whether a member has its lines for itself.
pub open spec fn stands_alone(s: Seq<char>, path: Seq<SegView>, key: Seq<char>) -> bool {
    &&& leads_its_line(s, path, key)
    &&& value_span(s, path.push(SegView::Key(key))) matches Some((_, end)) && clear_behind(s, end)
}

/// Whether an edit of a text spells a change of the document that it holds.
pub open spec fn spells_change(s: Seq<char>, op: EditView, c: ChangeView) -> bool {
    match (op, c) {
        (EditView::SetScalar { path, literal }, ChangeView::Value { path: at, value }) => {
            &&& path == at
            &&& value_span(s, path) is Some
            &&& reads(literal, value)
            &&& literal.len() > 0
        },
        (EditView::ReplaceContainer { path, literal }, ChangeView::Value { path: at, value }) => {
            &&& path == at
            &&& path.len() > 0
            &&& open_at(s, path) is Some
            &&& reads(literal, value)
            &&& literal.len() > 0
        },
        (EditView::AppendBlock { path, block }, ChangeView::Members { path: at, added }) => {
            &&& path == at
            &&& object_at(s, path)
            &&& begins(block, '"')
            &&& spells(block + seq!['\n'], added)
        },
        (EditView::AppendBlock { path, block }, ChangeView::Items { path: at, added }) => {
            &&& path == at
            &&& list_at(s, path)
            &&& begins(block, '{')
            &&& lists(block + seq!['\n'], added)
        },
        (
            EditView::InsertBefore { path, key, block },
            ChangeView::Above { path: at, key: name, added },
        ) => {
            &&& path == at
            &&& key == name
            &&& object_at(s, path)
            &&& leads_its_line(s, path, key)
            &&& spells(block + seq!['\n'], added)
        },
        (EditView::RemoveKey { path, key }, ChangeView::Gone { path: at, key: name }) => {
            &&& path == at
            &&& key == name
            &&& object_at(s, path)
            &&& stands_alone(s, path, key)
        },
        _ => false,
    }
}

/// An edit that spells a change makes it, and nothing else changes.
pub proof fn lemma_edit_makes_its_change(s: Seq<char>, op: EditView, c: ChangeView)
    requires
        document(s) matches Some(j) && tidy(j) && !is_scalar(j),
        spells_change(s, op, c),
    ensures
        edited(s, op) matches Ok(t) && document(t) == Some(changed(document(s)->0, c)),
{
    let j = document(s)->0;
    match (op, c) {
        (EditView::SetScalar { path, literal }, ChangeView::Value { path: at, value }) => {
            lemma_set_scalar_is_read(s, path, literal, value);
        },
        (EditView::ReplaceContainer { path, literal }, ChangeView::Value { path: at, value }) => {
            lemma_replace_container_is_read(s, path, literal, value);
        },
        (EditView::AppendBlock { path, block }, ChangeView::Members { path: at, added }) => {
            if let Some(JsonView::Object(m)) = json_at(j, path) {
                let n = choose|n: nat| starts_with(block, n, '"');
                lemma_appended_members_are_read(s, path, block, n, m, added);
            }
        },
        (EditView::AppendBlock { path, block }, ChangeView::Items { path: at, added }) => {
            if let Some(JsonView::Array(v)) = json_at(j, path) {
                let n = choose|n: nat| starts_with(block, n, '{');
                lemma_appended_items_are_read(s, path, block, n, v, added);
            }
        },
        (
            EditView::InsertBefore { path, key, block },
            ChangeView::Above { path: at, key: name, added },
        ) => {
            if let Some(JsonView::Object(m)) = json_at(j, path) {
                lemma_inserted_members_are_read(s, path, key, block, m, added);
            }
        },
        (EditView::RemoveKey { path, key }, ChangeView::Gone { path: at, key: name }) => {
            if let Some(JsonView::Object(m)) = json_at(j, path) {
                lemma_removed_member_is_gone(s, path, key, m);
            }
        },
        _ => {},
    }
}

/// Whether the edits from `i` on spell the changes from `i` on, each in the
/// text that those before it leave, and none of them repeats a name.
pub open spec fn all_spell(s: Seq<char>, ops: Seq<EditView>, cs: Seq<ChangeView>, i: int) -> bool
    decreases ops.len() - i,
{
    if i < 0 || i >= ops.len() {
        true
    } else {
        &&& spells_change(s, ops[i], cs[i])
        &&& stays_tidy(document(s)->0, cs[i])
        &&& edited(s, ops[i]) matches Ok(t) ==> all_spell(t, ops, cs, i + 1)
    }
}

/// Edits that were applied have made their changes, in order, and nothing else
/// of what the document says has changed.
pub proof fn lemma_edits_make_their_changes(
    s: Seq<char>,
    ops: Seq<EditView>,
    cs: Seq<ChangeView>,
    i: int,
)
    requires
        document(s) matches Some(j) && tidy(j) && !is_scalar(j),
        0 <= i <= ops.len(),
        ops.len() == cs.len(),
        all_spell(s, ops, cs, i),
        edited_from(s, ops, i) is Ok,
    ensures
        document(edited_from(s, ops, i)->Ok_0) == Some(changed_from(document(s)->0, cs, i)),
    decreases ops.len() - i,
{
    if i < ops.len() {
        let j = document(s)->0;
        lemma_edit_makes_its_change(s, ops[i], cs[i]);
        let t = edited(s, ops[i])->Ok_0;
        assert(config_text(t) is Some);
        lemma_change_stays_tidy(j, cs[i]);
        lemma_edits_make_their_changes(t, ops, cs, i + 1);
    }
}

} // verus!

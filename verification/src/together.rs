//! Edits that were planned on one text and aim at different places all take
//! effect: after the last of them the document says what each of them wrote.
use crate::append::lemma_json_behind;
use crate::changes::{
    all_tidy, changed, changed_from, leads_its_line, lemma_change_stays_tidy,
    lemma_edit_makes_its_change, object_at, spells_change, stands_alone, stays_tidy, with_above,
    without, ChangeView,
};
use crate::config::{config_text, member, member_from};
use crate::edit::{edited, edited_from, EditView};
use crate::insert::lemma_inserted_members_are_read;
use crate::jsonc::{document, JsonView};
use crate::locate::{open_at, value_span, SegView};
use crate::pieces::{spells, Members};
use crate::place::{
    is_name, is_scalar, json_at, lemma_member_back, lemma_member_unknown, lemma_values_are_found,
    named, root, tidy, under, well_named,
};
use crate::splice::{index_of, lemma_index_of, lemma_place_is_value, replaced};
use vstd::prelude::*;

verus! {

// ── What a replaced value leaves ─────────────────────────────────────
/// Whether two values have the same shape: the same names, the same number of
/// elements, or, for what is neither object nor list, the same value.
pub open spec fn same_shape(x: JsonView, y: JsonView) -> bool {
    match (x, y) {
        (JsonView::Object(m), JsonView::Object(n)) => m.len() == n.len() && forall|k: int|
            0 <= k < m.len() ==> (#[trigger] m[k]).0 == (#[trigger] n[k]).0,
        (JsonView::Array(v), JsonView::Array(w)) => v.len() == w.len(),
        _ => x == y,
    }
}

/// Whether what one value has at a step, the other has there as well.
pub open spec fn same_child(x: JsonView, y: JsonView, a: SegView) -> bool {
    match (x, y, a) {
        (JsonView::Object(m), JsonView::Object(n), SegView::Key(name)) => member(m, name) is Some
            ==> member(n, name) == member(m, name),
        (JsonView::Array(v), JsonView::Array(w), SegView::Index(k)) => k < v.len() ==> k < w.len()
            && w[k as int] == v[k as int],
        _ => true,
    }
}

/// The path that a change aims at.
pub open spec fn path_of(c: ChangeView) -> Seq<SegView> {
    match c {
        ChangeView::Value { path, .. } => path,
        ChangeView::Members { path, .. } => path,
        ChangeView::Items { path, .. } => path,
        ChangeView::Above { path, .. } => path,
        ChangeView::Gone { path, key } => path.push(SegView::Key(key)),
    }
}

pub proof fn lemma_updated_member(m: Members, n: int, x: JsonView, name: Seq<char>, k: int)
    requires
        0 <= k <= n < m.len(),
        index_of(m, m[n].0, k) == Some(n),
    ensures
        member_from(m.update(n, (m[n].0, x)), name, k) == (if name == m[n].0 {
            Some(x)
        } else {
            member_from(m, name, k)
        }),
    decreases m.len() - k,
{
    let u = m.update(n, (m[n].0, x));
    if k < n {
        assert(m[k].0 != m[n].0);
        lemma_updated_member(m, n, x, name, k + 1);
    } else {
        lemma_same_from(m, u, name, k + 1);
    }
}

proof fn lemma_same_from(m: Members, u: Members, name: Seq<char>, k: int)
    requires
        0 <= k,
        m.len() == u.len(),
        forall|i: int| k <= i < m.len() ==> #[trigger] u[i] == m[i],
    ensures
        member_from(u, name, k) == member_from(m, name, k),
    decreases m.len() - k,
{
    if k < m.len() {
        assert(u[k] == m[k]);
        lemma_same_from(m, u, name, k + 1);
    }
}

pub proof fn lemma_under_tail(q: Seq<SegView>, p: Seq<SegView>)
    requires
        q.len() > 0,
        p.len() > 0,
        q[0] == p[0],
    ensures
        under(q, p) == under(q.drop_first(), p.drop_first()),
        (q == p) == (q.drop_first() == p.drop_first()),
{
    let a = q.drop_first();
    let b = p.drop_first();
    if under(q, p) {
        assert(b.take(a.len() as int) =~= a) by {
            assert forall|k: int| 0 <= k < a.len() implies b[k] == a[k] by {
                assert(p.take(q.len() as int)[k + 1] == q[k + 1]);
            }
        }
    }
    if under(a, b) {
        assert(p.take(q.len() as int) =~= q) by {
            assert forall|k: int| 0 <= k < q.len() implies p[k] == q[k] by {
                if k > 0 {
                    assert(b.take(a.len() as int)[k - 1] == a[k - 1]);
                }
            }
        }
    }
    if a == b {
        assert(q =~= seq![q[0]] + a);
        assert(p =~= seq![p[0]] + b);
    }
}

proof fn lemma_apart_heads(p: Seq<SegView>, q: Seq<SegView>)
    requires
        p.len() > 0,
        q.len() > 0,
        p[0] != q[0],
    ensures
        !under(p, q),
        p != q,
{
    if under(p, q) {
        assert(q.take(p.len() as int)[0] == p[0]);
    }
}

/// What stays where it is when the value at `q` is replaced. Nothing changes
/// at a path that does not lead to `q`, and above `q` the shapes stay.
pub proof fn lemma_replaced_leaves(
    j: JsonView,
    q: Seq<SegView>,
    w: JsonView,
    p: Seq<SegView>,
)
    requires
        json_at(j, q) is Some,
        json_at(j, p) is Some,
        under(q, p) && q != p ==> {
            &&& is_scalar(w) == is_scalar(json_at(j, q)->0)
            &&& w is Object == json_at(j, q)->0 is Object
            &&& same_child(json_at(j, q)->0, w, p[q.len() as int])
        },
    ensures
        ({
            let y = json_at(j, p)->0;
            let z = json_at(replaced(j, q, w), p);
            &&& z is Some
            &&& p == q ==> z == Some(w)
            &&& p != q ==> same_shape(y, z->0)
            &&& !under(p, q) ==> z == Some(y)
        }),
    decreases q.len(),
{
    if q.len() == 0 {
        assert(p.take(0) =~= q);
        if p.len() == 0 {
            assert(p =~= q);
        } else {
            match (j, p[0]) {
                (JsonView::Object(m), SegView::Key(name)) => {
                    if let JsonView::Object(n) = w {
                        assert(member(n, name) == member(m, name));
                    }
                },
                (JsonView::Array(v), SegView::Index(n)) => {
                    if let JsonView::Array(u) = w {
                        assert(u[n as int] == v[n as int]);
                    }
                },
                _ => {},
            }
            assert(json_at(w, p) == json_at(j, p));
        }
    } else if p.len() == 0 {
        assert(q.take(0) =~= p);
        match (j, q[0]) {
            (JsonView::Object(m), SegView::Key(name)) => {
                lemma_index_of(m, name, 0);
            },
            _ => {},
        }
        assert(same_shape(j, replaced(j, q, w)));
    } else {
        let rest = q.drop_first();
        if under(q, p) && q != p {
            if p.len() == q.len() {
                assert(p.take(q.len() as int) =~= p);
            }
            assert(p.drop_first()[rest.len() as int] == p[q.len() as int]);
        }
        match (j, q[0]) {
            (JsonView::Object(m), SegView::Key(name)) => {
                lemma_index_of(m, name, 0);
                let n = index_of(m, name, 0)->0;
                let x = replaced(m[n].1, rest, w);
                if let SegView::Key(other) = p[0] {
                    lemma_updated_member(m, n, x, other, 0);
                }
                if p[0] == q[0] {
                    lemma_under_tail(q, p);
                    lemma_under_tail(p, q);
                    lemma_replaced_leaves(m[n].1, rest, w, p.drop_first());
                } else {
                    lemma_apart_heads(p, q);
                    assert(json_at(replaced(j, q, w), p) == json_at(j, p));
                }
            },
            (JsonView::Array(v), SegView::Index(n)) => {
                if p[0] == q[0] {
                    lemma_under_tail(q, p);
                    lemma_under_tail(p, q);
                    lemma_replaced_leaves(v[n as int], rest, w, p.drop_first());
                } else {
                    lemma_apart_heads(p, q);
                    assert(json_at(replaced(j, q, w), p) == json_at(j, p));
                }
            },
            _ => {},
        }
    }
}

// ── Changes that aim apart ───────────────────────────────────────────
/// Whether there is at the path of a change what it changes.
pub open spec fn aimed(j: JsonView, c: ChangeView) -> bool {
    match c {
        ChangeView::Value { path, .. } => path.len() > 0 && json_at(j, path) is Some,
        ChangeView::Members { path, .. } => json_at(j, path) matches Some(x) && x is Object,
        ChangeView::Items { path, .. } => json_at(j, path) matches Some(x) && x is Array,
        ChangeView::Above { path, .. } => json_at(j, path) matches Some(x) && x is Object,
        ChangeView::Gone { path, key } => json_at(j, path.push(SegView::Key(key))) is Some,
    }
}

/// Whether a change puts something else in the place of what it aims at.
pub open spec fn cuts(c: ChangeView) -> bool {
    c is Value || c is Gone
}

/// The members that a change adds to an object.
pub open spec fn added_of(c: ChangeView) -> Members {
    match c {
        ChangeView::Members { added, .. } => added,
        ChangeView::Above { added, .. } => added,
        _ => Seq::empty(),
    }
}

/// Whether no name of one list of members is a name of the other.
pub open spec fn disjoint(a: Members, b: Members) -> bool {
    forall|k: int, l: int|
        0 <= k < a.len() && 0 <= l < b.len() ==> (#[trigger] a[k]).0 != (#[trigger] b[l]).0
}

/// Whether two changes aim at different places: neither lies in what the other
/// replaces or takes out, and they do not add the same name to one object.
pub open spec fn apart(c: ChangeView, d: ChangeView) -> bool {
    &&& cuts(c) ==> !under(path_of(c), path_of(d))
    &&& cuts(d) ==> !under(path_of(d), path_of(c))
    &&& path_of(c) == path_of(d) ==> disjoint(added_of(c), added_of(d))
}

proof fn lemma_member_kept(m: Members, added: Members, name: Seq<char>, k: int)
    requires
        0 <= k,
    ensures
        member_from(m, name, k) is Some ==> member_from(m + added, name, k) == member_from(
            m,
            name,
            k,
        ),
        k <= m.len() && member_from(m, name, k) is None ==> member_from(m + added, name, k)
            == member_from(m + added, name, m.len() as int),
    decreases m.len() - k,
{
    if k < m.len() {
        assert((m + added)[k] == m[k]);
        if m[k].0 != name {
            lemma_member_kept(m, added, name, k + 1);
        }
    }
}

/// A name that members have is the name of one of them.
proof fn lemma_member_there(m: Members, name: Seq<char>, k: int) -> (n: int)
    requires
        0 <= k,
        member_from(m, name, k) is Some,
    ensures
        k <= n < m.len(),
        m[n].0 == name,
{
    lemma_index_of(m, name, k);
    index_of(m, name, k)->0
}

/// Whether a name is among those that a change adds.
pub open spec fn adds(c: ChangeView, name: Seq<char>) -> bool {
    exists|i: int| 0 <= i < added_of(c).len() && (#[trigger] added_of(c)[i]).0 == name
}

/// The object at a path after members have come or one has gone.
spec fn after_members(m: Members, c: ChangeView) -> Members {
    match c {
        ChangeView::Members { added, .. } => m + added,
        ChangeView::Above { key, added, .. } => with_above(m, key, added),
        ChangeView::Gone { key, .. } => without(m, key),
        _ => m,
    }
}

/// What an object keeps, and where its names come from.
proof fn lemma_object_change(m: Members, c: ChangeView, name: Seq<char>)
    requires
        c is Above ==> named(after_members(m, c)),
    ensures
        ({
            let n = after_members(m, c);
            &&& member(m, name) is Some && !(c matches ChangeView::Gone { key, .. } && key == name)
                ==> member(n, name) == member(m, name)
            &&& member(n, name) is Some ==> member(m, name) is Some || adds(c, name)
        }),
{
    let n = after_members(m, c);
    if member(m, name) is Some {
        let k = lemma_member_there(m, name, 0);
        lemma_index_of(m, name, 0);
        let f = index_of(m, name, 0)->0;
        match c {
            ChangeView::Members { added, .. } => {
                lemma_member_kept(m, added, name, 0);
            },
            ChangeView::Above { key, added, .. } => {
                lemma_index_of(m, key, 0);
                if let Some(l) = index_of(m, key, 0) {
                    let at = if f < l {
                        f
                    } else {
                        f + added.len()
                    };
                    assert(n[at] == m[f]);
                    lemma_member_back(n, at, 0);
                }
            },
            ChangeView::Gone { key, .. } => {
                lemma_index_of(m, key, 0);
                if let Some(l) = index_of(m, key, 0) {
                    if key != name {
                        lemma_without_keeps(m, l, name, 0);
                    }
                }
            },
            _ => {},
        }
    }
    if member(n, name) is Some {
        let k = lemma_member_there(n, name, 0);
        match c {
            ChangeView::Members { added, .. } => {
                if k < m.len() {
                    assert(m[k].0 == name);
                } else {
                    assert(added_of(c)[k - m.len()].0 == name);
                }
            },
            ChangeView::Above { key, added, .. } => {
                lemma_index_of(m, key, 0);
                if let Some(l) = index_of(m, key, 0) {
                    if k < l {
                        assert(m[k].0 == name);
                    } else if k < l + added.len() {
                        assert(added_of(c)[k - l].0 == name);
                    } else {
                        assert(m[k - added.len()].0 == name);
                    }
                }
            },
            ChangeView::Gone { key, .. } => {
                lemma_index_of(m, key, 0);
                if let Some(l) = index_of(m, key, 0) {
                    if k < l {
                        assert(m[k].0 == name);
                    } else {
                        assert(m[k + 1].0 == name);
                    }
                }
            },
            _ => {},
        }
        if !adds(c, name) && member(m, name) is None {
            lemma_unknown_everywhere(m, name);
        }
    }
}

pub proof fn lemma_without_keeps(m: Members, l: int, name: Seq<char>, k: int)
    requires
        0 <= k <= m.len(),
        0 <= l < m.len(),
        m[l].0 != name,
    ensures
        k <= l ==> member_from(m.take(l) + m.skip(l + 1), name, k) == member_from(m, name, k),
        k > l ==> member_from(m.take(l) + m.skip(l + 1), name, k - 1) == member_from(m, name, k),
    decreases m.len() - k,
{
    let n = m.take(l) + m.skip(l + 1);
    if k < m.len() {
        if k < l {
            assert(n[k] == m[k]);
        } else if k > l {
            assert(n[k - 1] == m[k]);
        }
        lemma_without_keeps(m, l, name, k + 1);
    }
}

/// A name that members do not have is the name of none of them.
proof fn lemma_unknown_everywhere(m: Members, name: Seq<char>)
    requires
        member(m, name) is None,
    ensures
        forall|k: int| 0 <= k < m.len() ==> (#[trigger] m[k]).0 != name,
{
    assert forall|k: int| 0 <= k < m.len() implies (#[trigger] m[k]).0 != name by {
        if m[k].0 == name {
            lemma_some_member(m, name, 0, k);
        }
    }
}

/// A name that one of the members has is found among them.
pub proof fn lemma_some_member(m: Members, name: Seq<char>, i: int, k: int)
    requires
        0 <= i <= k < m.len(),
        m[k].0 == name,
    ensures
        member_from(m, name, i) is Some,
    decreases k - i,
{
    if i < k && m[i].0 != name {
        lemma_some_member(m, name, i + 1, k);
    }
}

proof fn lemma_same_names(m: Members, n: Members, name: Seq<char>)
    requires
        same_shape(JsonView::Object(m), JsonView::Object(n)),
        member(n, name) is Some,
    ensures
        member(m, name) is Some,
{
    let k = lemma_member_there(n, name, 0);
    assert(m[k].0 == n[k].0);
    lemma_some_member(m, name, 0, k);
}

/// Whether one value is of the kind of another: the same scalar, an object, or
/// a list that is at least as long.
pub open spec fn same_kind(x: JsonView, y: JsonView) -> bool {
    match (x, y) {
        (JsonView::Object(_), JsonView::Object(_)) => true,
        (JsonView::Array(v), JsonView::Array(w)) => v.len() <= w.len(),
        _ => x == y,
    }
}

/// Where there is a member, there is an object around it.
pub proof fn lemma_around(j: JsonView, p: Seq<SegView>, key: Seq<char>)
    requires
        json_at(j, p.push(SegView::Key(key))) is Some,
    ensures
        json_at(j, p) matches Some(JsonView::Object(m)) && member(m, key) == json_at(
            j,
            p.push(SegView::Key(key)),
        ),
{
    let a = SegView::Key(key);
    let q = p.push(a);
    assert(q.take(p.len() as int) =~= p);
    lemma_way(j, p, q);
    let x = json_at(j, p)->0;
    lemma_json_behind(j, p, x, a);
    if let JsonView::Object(m) = x {
        if let Some(v) = member(m, key) {
            assert(json_at(v, seq![a].drop_first()) == Some(v));
        }
    }
}

/// What a change leaves: everything at the paths that do not lead to it, the
/// kinds of the values above it, and, of the names there, those it adds.
proof fn lemma_change_leaves(j: JsonView, d: ChangeView, p: Seq<SegView>)
    requires
        aimed(j, d),
        stays_tidy(j, d),
        json_at(j, p) is Some,
        cuts(d) ==> !under(path_of(d), p),
    ensures
        ({
            let y = json_at(j, p)->0;
            let z = json_at(changed(j, d), p);
            &&& z is Some
            &&& same_kind(y, z->0)
            &&& !under(p, path_of(d)) ==> z == Some(y)
            &&& match (y, z->0) {
                (JsonView::Object(m), JsonView::Object(n)) => forall|name: Seq<char>|
                    #[trigger] member(n, name) is Some ==> member(m, name) is Some || (p == path_of(d)
                        && adds(d, name)),
                _ => true,
            }
        }),
{
    let q = path_of(d);
    let y = json_at(j, p)->0;
    let r = changed(j, d);
    match d {
        ChangeView::Value { value, .. } => {
            lemma_replaced_leaves(j, q, value, p);
        },
        ChangeView::Items { added, .. } => {
            if let Some(JsonView::Array(v)) = json_at(j, q) {
                lemma_replaced_leaves(j, q, JsonView::Array(v + added), p);
            }
        },
        ChangeView::Gone { path, key } => {
            lemma_around(j, path, key);
            let m = json_at(j, path)->0->Object_0;
            if under(path, p) && path != p {
                lemma_step_aside(path, key, p);
                if let SegView::Key(name) = p[path.len() as int] {
                    lemma_object_change(m, d, name);
                }
            }
            if under(p, path) {
                assert(q.take(p.len() as int) =~= path.take(p.len() as int));
            }
            lemma_replaced_leaves(j, path, JsonView::Object(without(m, key)), p);
        },
        _ => {
            if let Some(JsonView::Object(m)) = json_at(j, q) {
                if under(q, p) && q != p {
                    if let SegView::Key(name) = p[q.len() as int] {
                        lemma_object_change(m, d, name);
                    }
                }
                lemma_replaced_leaves(j, q, JsonView::Object(after_members(m, d)), p);
            }
        },
    }
    let z = json_at(r, p)->0;
    if let JsonView::Object(m) = y {
        if let JsonView::Object(n) = z {
            assert forall|name: Seq<char>| #[trigger] member(n, name) is Some implies member(m, name) is Some
                || (p == path_of(d) && adds(d, name)) by {
                if n == after_members(m, d) && (d is Gone || p == q) {
                    lemma_object_change(m, d, name);
                } else {
                    lemma_same_names(m, n, name);
                }
            }
        }
    }
}

/// A path below an object that does not lead to a member takes another step.
proof fn lemma_step_aside(path: Seq<SegView>, key: Seq<char>, p: Seq<SegView>)
    requires
        under(path, p),
        path != p,
        !under(path.push(SegView::Key(key)), p),
    ensures
        path.len() < p.len(),
        p[path.len() as int] != SegView::Key(key),
{
    let n = path.len() as int;
    if p.len() == n {
        assert(p.take(n) =~= p);
    }
    if p.len() > n && p[n] == SegView::Key(key) {
        assert(p.take(n + 1) =~= path.push(SegView::Key(key)));
    }
}

/// A change is still aimed at something after one that aims elsewhere.
proof fn lemma_aim_stays(j: JsonView, c: ChangeView, d: ChangeView)
    requires
        aimed(j, c),
        aimed(j, d),
        stays_tidy(j, d),
        apart(c, d),
    ensures
        aimed(changed(j, d), c),
        c is Value ==> same_kind(
            json_at(j, path_of(c))->0,
            json_at(changed(j, d), path_of(c))->0,
        ),
{
    lemma_change_leaves(j, d, path_of(c));
}

/// Whether the names that a change adds are new where it adds them.
spec fn fresh(j: JsonView, c: ChangeView) -> bool {
    match c {
        ChangeView::Members { path, added } => new_names(j, path, added),
        ChangeView::Above { path, added, .. } => new_names(j, path, added),
        _ => stays_tidy(j, c),
    }
}

spec fn new_names(j: JsonView, path: Seq<SegView>, added: Members) -> bool {
    &&& all_tidy(added)
    &&& named(added)
    &&& json_at(j, path) matches Some(JsonView::Object(m)) && forall|i: int|
        0 <= i < added.len() ==> member(m, (#[trigger] added[i]).0) is None
}

pub proof fn lemma_named_join(n: Members, added: Members, key: Seq<char>)
    requires
        named(n),
        named(added),
        forall|i: int| 0 <= i < added.len() ==> member(n, (#[trigger] added[i]).0) is None,
    ensures
        named(n + added),
        named(with_above(n, key, added)),
{
    assert forall|i: int, k: int| 0 <= i < added.len() && 0 <= k < n.len() implies (#[trigger] added[i]).0
        != (#[trigger] n[k]).0 by {
        lemma_unknown_everywhere(n, added[i].0);
    }
    let a = n + added;
    assert forall|k: int| 0 <= k < a.len() implies is_name((#[trigger] a[k]).0) by {
        if k < n.len() {
            assert(a[k] == n[k]);
        } else {
            assert(a[k] == added[k - n.len()]);
        }
    }
    assert forall|k: int, l: int| 0 <= k < l < a.len() implies (#[trigger] a[k]).0 != (#[trigger] a[l]).0 by {
        if l < n.len() {
            assert(a[k] == n[k] && a[l] == n[l]);
        } else if k < n.len() {
            assert(a[k] == n[k] && a[l] == added[l - n.len()]);
        } else {
            assert(a[k] == added[k - n.len()] && a[l] == added[l - n.len()]);
        }
    }
    lemma_index_of(n, key, 0);
    if let Some(at) = index_of(n, key, 0) {
        let b = with_above(n, key, added);
        let len = added.len() as int;
        assert forall|k: int| 0 <= k < b.len() implies #[trigger] b[k] == a[if k < at {
            k
        } else if k < at + len {
            n.len() + k - at
        } else {
            k - len
        }] by {}
        assert forall|k: int| 0 <= k < b.len() implies is_name((#[trigger] b[k]).0) by {}
        assert forall|k: int, l: int| 0 <= k < l < b.len() implies (#[trigger] b[k]).0 != (
        #[trigger] b[l]).0 by {
            if k < at {
                if l >= at && l < at + len {
                    assert(b[k] == a[k] && b[l] == a[n.len() + l - at]);
                }
            } else if k < at + len && l >= at + len {
                assert(a[l - len].0 != a[n.len() + k - at].0);
            }
        }
    }
}

proof fn lemma_fresh_is_tidy(j: JsonView, c: ChangeView)
    requires
        tidy(j),
        fresh(j, c),
    ensures
        stays_tidy(j, c),
{
    match c {
        ChangeView::Members { path, added } => {
            let m = json_at(j, path)->0->Object_0;
            lemma_named_join(m, added, Seq::empty());
        },
        ChangeView::Above { path, key, added } => {
            let m = json_at(j, path)->0->Object_0;
            lemma_named_join(m, added, key);
        },
        _ => {},
    }
}

/// A change that repeats no name repeats none after one that aims elsewhere.
proof fn lemma_fresh_stays(j: JsonView, c: ChangeView, d: ChangeView)
    requires
        aimed(j, c),
        aimed(j, d),
        stays_tidy(j, d),
        apart(c, d),
        fresh(j, c),
    ensures
        fresh(changed(j, d), c),
{
    let p = path_of(c);
    let added = added_of(c);
    lemma_change_leaves(j, d, p);
    if c is Members || c is Above {
        let m = json_at(j, p)->0->Object_0;
        let n = json_at(changed(j, d), p)->0->Object_0;
        assert forall|i: int| 0 <= i < added.len() implies member(n, (#[trigger] added[i]).0) is None by {
            let name = added[i].0;
            assert(member(m, name) is None);
            if member(n, name) is Some {
                let l = choose|l: int| 0 <= l < added_of(d).len() && (#[trigger] added_of(d)[l]).0 == name;
                assert(added_of(c)[i].0 != added_of(d)[l].0);
            }
        }
    }
}

// ── What the pass finds ──────────────────────────────────────────────
/// What the pass finds for a path is the value that the document has there.
pub proof fn lemma_found_is_said(s: Seq<char>, path: Seq<SegView>)
    requires
        document(s) matches Some(j) && tidy(j) && !is_scalar(j),
    ensures
        ({
            let o = json_at(document(s)->0, path);
            &&& value_span(s, path) is Some <==> (o matches Some(x) && is_scalar(x))
            &&& open_at(s, path) is Some <==> (o matches Some(x) && !is_scalar(x))
        }),
{
    lemma_values_are_found(s, path);
    lemma_place_is_value(s, root(s), path);
}

/// Whether an edit spells a change, but for the lines around it.
pub open spec fn spells_in_words(s: Seq<char>, op: EditView, c: ChangeView) -> bool {
    match (op, c) {
        (
            EditView::InsertBefore { path, key, block },
            ChangeView::Above { path: at, key: name, added },
        ) => {
            &&& path == at
            &&& key == name
            &&& object_at(s, path)
            &&& spells(block + seq!['\n'], added)
        },
        (EditView::RemoveKey { path, key }, ChangeView::Gone { path: at, key: name }) => {
            &&& path == at
            &&& key == name
            &&& object_at(s, path)
        },
        _ => spells_change(s, op, c),
    }
}

/// Whether the lines around a change let it be made: what goes above a member
/// needs a line that the member begins, and a member that goes has its lines
/// for itself.
pub open spec fn has_its_lines(s: Seq<char>, c: ChangeView) -> bool {
    match c {
        ChangeView::Above { path, key, .. } => leads_its_line(s, path, key),
        ChangeView::Gone { path, key } => stands_alone(s, path, key),
        _ => true,
    }
}

/// Whether each change from `i` on has its lines when its turn comes.
pub open spec fn all_have_lines(s: Seq<char>, ops: Seq<EditView>, cs: Seq<ChangeView>, i: int) -> bool
    decreases cs.len() - i,
{
    if i < 0 || i >= cs.len() {
        true
    } else {
        &&& has_its_lines(s, cs[i])
        &&& edited(s, ops[i]) matches Ok(t) ==> all_have_lines(t, ops, cs, i + 1)
    }
}

/// Changes that put nothing above a member and take none out need nothing of
/// the lines around them.
pub proof fn lemma_plain_changes_have_lines(
    s: Seq<char>,
    ops: Seq<EditView>,
    cs: Seq<ChangeView>,
    i: int,
)
    requires
        0 <= i,
        forall|n: int| 0 <= n < cs.len() ==> !(#[trigger] cs[n] is Above) && !(cs[n] is Gone),
    ensures
        all_have_lines(s, ops, cs, i),
    decreases cs.len() - i,
{
    if i < cs.len() {
        assert(!(cs[i] is Above) && !(cs[i] is Gone));
        if let Ok(t) = edited(s, ops[i]) {
            lemma_plain_changes_have_lines(t, ops, cs, i + 1);
        }
    }
}

/// An edit that spells a change spells it as well in a text that another
/// change led to.
proof fn lemma_spelling_stays(
    s: Seq<char>,
    t: Seq<char>,
    op: EditView,
    c: ChangeView,
    d: ChangeView,
)
    requires
        document(s) matches Some(j) && tidy(j) && !is_scalar(j) && aimed(j, c) && aimed(j, d)
            && stays_tidy(j, d) && document(t) == Some(changed(j, d)),
        document(t) matches Some(k) && tidy(k) && !is_scalar(k),
        apart(c, d),
        spells_in_words(s, op, c),
    ensures
        spells_in_words(t, op, c),
{
    let j = document(s)->0;
    let p = path_of(c);
    lemma_aim_stays(j, c, d);
    lemma_found_is_said(s, p);
    lemma_found_is_said(t, p);
    if let ChangeView::Gone { path, key } = c {
        lemma_around(document(t)->0, path, key);
    }
}

/// An edit that spells a change is aimed at something.
proof fn lemma_spelled_is_aimed(s: Seq<char>, op: EditView, c: ChangeView)
    requires
        document(s) matches Some(j) && tidy(j) && !is_scalar(j),
        spells_in_words(s, op, c),
        known_here(document(s)->0, c),
        stays_tidy(document(s)->0, c),
    ensures
        aimed(document(s)->0, c),
        fresh(document(s)->0, c),
{
    let j = document(s)->0;
    lemma_found_is_said(s, path_of(c));
    match c {
        ChangeView::Members { path, added } => {
            let m = json_at(j, path)->0->Object_0;
            lemma_named_split(m, added);
        },
        ChangeView::Above { path, key, added } => {
            let m = json_at(j, path)->0->Object_0;
            lemma_around(j, path, key);
            lemma_index_of(m, key, 0);
            lemma_above_split(m, key, added);
        },
        _ => {},
    }
}

/// Whether the member that a change goes above, or takes out, is there.
pub open spec fn known_here(j: JsonView, c: ChangeView) -> bool {
    match c {
        ChangeView::Above { path, key, .. } => json_at(j, path.push(SegView::Key(key))) is Some,
        ChangeView::Gone { path, key } => json_at(j, path.push(SegView::Key(key))) is Some,
        _ => true,
    }
}

proof fn lemma_named_split(m: Members, added: Members)
    requires
        named(m + added),
    ensures
        named(added),
        forall|i: int| 0 <= i < added.len() ==> member(m, (#[trigger] added[i]).0) is None,
{
    let a = m + added;
    assert forall|k: int| 0 <= k < added.len() implies is_name((#[trigger] added[k]).0) by {
        assert(a[m.len() + k] == added[k]);
    }
    assert forall|k: int, l: int| 0 <= k < l < added.len() implies (#[trigger] added[k]).0 != (
    #[trigger] added[l]).0 by {
        assert(a[m.len() + k] == added[k] && a[m.len() + l] == added[l]);
    }
    assert forall|i: int| 0 <= i < added.len() implies member(m, (#[trigger] added[i]).0) is None by {
        lemma_member_in_rest(m, added, i);
    }
}

proof fn lemma_above_split(m: Members, key: Seq<char>, added: Members)
    requires
        named(with_above(m, key, added)),
        index_of(m, key, 0) is Some,
    ensures
        named(added),
        forall|i: int| 0 <= i < added.len() ==> member(m, (#[trigger] added[i]).0) is None,
        forall|i: int|
            0 <= i < added.len() ==> member(with_above(m, key, added), (#[trigger] added[i]).0)
                == Some(added[i].1),
{
    let b = with_above(m, key, added);
    let at = index_of(m, key, 0)->0;
    lemma_index_of(m, key, 0);
    assert forall|k: int| 0 <= k < added.len() implies b[at + k] == #[trigger] added[k] by {}
    assert forall|k: int| 0 <= k < m.len() implies b[if k < at {
        k
    } else {
        k + added.len()
    }] == #[trigger] m[k] by {}
    assert forall|k: int| 0 <= k < added.len() implies is_name((#[trigger] added[k]).0) by {
        assert(b[at + k] == added[k]);
    }
    assert forall|k: int, l: int| 0 <= k < l < added.len() implies (#[trigger] added[k]).0 != (
    #[trigger] added[l]).0 by {
        assert(b[at + k] == added[k] && b[at + l] == added[l]);
    }
    assert forall|i: int| 0 <= i < added.len() implies member(m, (#[trigger] added[i]).0) is None by {
        assert(b[at + i] == added[i]);
        assert forall|k: int| 0 <= k < m.len() implies (#[trigger] m[k]).0 != added[i].0 by {
            let w = if k < at {
                k
            } else {
                k + added.len()
            };
            assert(b[w] == m[k]);
            assert(b[at + i].0 != b[w].0);
        }
        lemma_member_unknown(m, added[i].0, 0);
    }
    assert forall|i: int| 0 <= i < added.len() implies member(b, (#[trigger] added[i]).0) == Some(
        added[i].1,
    ) by {
        assert(b[at + i] == added[i]);
        lemma_member_back(b, at + i, 0);
    }
}

// ── What was written stays ───────────────────────────────────────────
/// Whether a value that was not there before stands below a path now.
spec fn new_below(old: JsonView, k: JsonView, p: Seq<SegView>, a: SegView, w: JsonView) -> bool {
    json_at(old, p.push(a)) is None && json_at(k, p.push(a)) == Some(w)
}

spec fn items_below(
    old: JsonView,
    k: JsonView,
    p: Seq<SegView>,
    added: Seq<JsonView>,
    base: nat,
) -> bool {
    forall|i: int|
        0 <= i < added.len() ==> new_below(
            old,
            k,
            p,
            SegView::Index((base + i) as nat),
            #[trigger] added[i],
        )
}

/// Whether a document says what a change wrote.
pub open spec fn says_change(k: JsonView, c: ChangeView) -> bool {
    match c {
        ChangeView::Value { path, value } => json_at(k, path) == Some(value),
        ChangeView::Members { path, added } => forall|i: int|
            0 <= i < added.len() ==> json_at(k, path.push(SegView::Key((#[trigger] added[i]).0)))
                == Some(added[i].1),
        ChangeView::Items { path, added } => exists|base: nat|
            #[trigger] lists_at(k, path, added, base),
        ChangeView::Above { path, added, .. } => forall|i: int|
            0 <= i < added.len() ==> json_at(k, path.push(SegView::Key((#[trigger] added[i]).0)))
                == Some(added[i].1),
        ChangeView::Gone { path, key } => json_at(k, path.push(SegView::Key(key))) is None,
    }
}

/// Whether a document has the elements in the list at a path, from `base` on.
pub open spec fn lists_at(k: JsonView, path: Seq<SegView>, added: Seq<JsonView>, base: nat) -> bool {
    forall|i: int|
        0 <= i < added.len() ==> json_at(k, path.push(SegView::Index((base + i) as nat))) == Some(
            #[trigger] added[i],
        )
}

/// Whether a document says what a change of an earlier one wrote, in places
/// where the earlier one had nothing, unless the change set a value.
spec fn kept(old: JsonView, k: JsonView, c: ChangeView) -> bool {
    match c {
        ChangeView::Value { path, value } => json_at(k, path) == Some(value),
        ChangeView::Members { path, added } => members_below(old, k, path, added),
        ChangeView::Items { path, added } => exists|base: nat|
            #[trigger] items_below(old, k, path, added, base),
        ChangeView::Above { path, added, .. } => members_below(old, k, path, added),
        ChangeView::Gone { path, key } => json_at(k, path) matches Some(JsonView::Object(m))
            && member(m, key) is None,
    }
}

spec fn members_below(old: JsonView, k: JsonView, path: Seq<SegView>, added: Members) -> bool {
    forall|i: int|
        0 <= i < added.len() ==> new_below(
            old,
            k,
            path,
            SegView::Key((#[trigger] added[i]).0),
            added[i].1,
        )
}

proof fn lemma_members_said(old: JsonView, k: JsonView, path: Seq<SegView>, added: Members)
    requires
        members_below(old, k, path, added),
    ensures
        forall|i: int|
            0 <= i < added.len() ==> json_at(k, path.push(SegView::Key((#[trigger] added[i]).0)))
                == Some(added[i].1),
{
    assert forall|i: int| 0 <= i < added.len() implies json_at(
        k,
        path.push(SegView::Key((#[trigger] added[i]).0)),
    ) == Some(added[i].1) by {
        assert(new_below(old, k, path, SegView::Key(added[i].0), added[i].1));
    }
}

proof fn lemma_kept_is_said(old: JsonView, k: JsonView, c: ChangeView)
    requires
        kept(old, k, c),
    ensures
        says_change(k, c),
{
    match c {
        ChangeView::Members { path, added } => {
            lemma_members_said(old, k, path, added);
        },
        ChangeView::Above { path, added, .. } => {
            lemma_members_said(old, k, path, added);
        },
        ChangeView::Gone { path, key } => {
            lemma_json_behind(k, path, json_at(k, path)->0, SegView::Key(key));
        },
        ChangeView::Items { path, added } => {
            let base = choose|base: nat| #[trigger] items_below(old, k, path, added, base);
            assert forall|i: int| 0 <= i < added.len() implies json_at(
                k,
                path.push(SegView::Index((base + i) as nat)),
            ) == Some(#[trigger] added[i]) by {
                assert(new_below(old, k, path, SegView::Index((base + i) as nat), added[i]));
            }
            assert(lists_at(k, path, added, base));
        },
        _ => {},
    }
}

/// Where there is something at a path, there is something on the way.
proof fn lemma_way(j: JsonView, p: Seq<SegView>, q: Seq<SegView>)
    requires
        under(p, q),
        json_at(j, q) is Some,
    ensures
        json_at(j, p) is Some,
    decreases p.len(),
{
    if p.len() > 0 {
        assert(q.take(p.len() as int)[0] == p[0]);
        lemma_under_tail(p, q);
        match (j, p[0]) {
            (JsonView::Object(m), SegView::Key(name)) => {
                lemma_way(member(m, name)->0, p.drop_first(), q.drop_first());
            },
            (JsonView::Array(v), SegView::Index(n)) => {
                lemma_way(v[n as int], p.drop_first(), q.drop_first());
            },
            _ => {},
        }
    }
}

proof fn lemma_under_push(q: Seq<SegView>, p: Seq<SegView>, a: SegView)
    requires
        under(q, p.push(a)),
    ensures
        q == p.push(a) || under(q, p),
{
    if q.len() <= p.len() {
        assert(p.take(q.len() as int) =~= p.push(a).take(q.len() as int));
    } else {
        assert(p.push(a).take(q.len() as int) =~= p.push(a));
    }
}

/// What came in stays when a change is made that was aimed at something that
/// was there before.
proof fn lemma_new_stays(
    old: JsonView,
    k: JsonView,
    p: Seq<SegView>,
    a: SegView,
    w: JsonView,
    d: ChangeView,
)
    requires
        new_below(old, k, p, a, w),
        aimed(old, d),
        aimed(k, d),
        stays_tidy(k, d),
        cuts(d) ==> !under(path_of(d), p),
    ensures
        new_below(old, changed(k, d), p, a, w),
{
    let q = path_of(d);
    let x = p.push(a);
    if under(x, q) {
        lemma_way(old, x, q);
    }
    if under(q, x) {
        lemma_under_push(q, p, a);
    }
    lemma_change_leaves(k, d, x);
}

proof fn lemma_members_stay(old: JsonView, k: JsonView, c: ChangeView, d: ChangeView)
    requires
        c is Members || c is Above,
        members_below(old, k, path_of(c), added_of(c)),
        aimed(old, d),
        aimed(k, d),
        stays_tidy(k, d),
        apart(c, d),
    ensures
        members_below(old, changed(k, d), path_of(c), added_of(c)),
{
    let p = path_of(c);
    let added = added_of(c);
    assert forall|i: int| 0 <= i < added.len() implies new_below(
        old,
        changed(k, d),
        p,
        SegView::Key((#[trigger] added[i]).0),
        added[i].1,
    ) by {
        lemma_new_stays(old, k, p, SegView::Key(added[i].0), added[i].1, d);
    }
}

/// A member that has gone does not come back.
proof fn lemma_gone_stays(old: JsonView, k: JsonView, c: ChangeView, d: ChangeView)
    requires
        c is Gone,
        kept(old, k, c),
        aimed(old, c),
        fresh(old, d),
        aimed(k, d),
        stays_tidy(k, d),
        apart(c, d),
    ensures
        kept(old, changed(k, d), c),
{
    if let ChangeView::Gone { path, key } = c {
        let q = path_of(c);
        lemma_around(old, path, key);
        if cuts(d) && under(path_of(d), path) {
            assert(q.take(path_of(d).len() as int) =~= path.take(path_of(d).len() as int));
        }
        lemma_change_leaves(k, d, path);
        if path == path_of(d) && adds(d, key) {
            let i = choose|i: int| 0 <= i < added_of(d).len() && (#[trigger] added_of(d)[i]).0 == key;
            assert(member(json_at(old, path)->0->Object_0, added_of(d)[i].0) is None);
        }
    }
}

proof fn lemma_kept_stays(old: JsonView, k: JsonView, c: ChangeView, d: ChangeView)
    requires
        kept(old, k, c),
        aimed(old, c),
        aimed(old, d),
        fresh(old, d),
        aimed(k, d),
        stays_tidy(k, d),
        apart(c, d),
    ensures
        kept(old, changed(k, d), c),
{
    let p = path_of(c);
    match c {
        ChangeView::Value { value, .. } => {
            lemma_change_leaves(k, d, p);
        },
        ChangeView::Items { added, .. } => {
            let base = choose|base: nat| #[trigger] items_below(old, k, p, added, base);
            assert forall|i: int| 0 <= i < added.len() implies new_below(
                old,
                changed(k, d),
                p,
                SegView::Index((base + i) as nat),
                #[trigger] added[i],
            ) by {
                lemma_new_stays(old, k, p, SegView::Index((base + i) as nat), added[i], d);
            }
            assert(items_below(old, changed(k, d), p, added, base));
        },
        ChangeView::Gone { .. } => {
            lemma_gone_stays(old, k, c, d);
        },
        _ => {
            lemma_members_stay(old, k, c, d);
        },
    }
}

/// Whether nothing is lost on the way to a path: there is the same kind of
/// container, with at least as many elements.
spec fn grown(old: JsonView, k: JsonView, c: ChangeView) -> bool {
    c is Items ==> (json_at(old, path_of(c)) matches Some(JsonView::Array(v)) && json_at(
        k,
        path_of(c),
    ) matches Some(JsonView::Array(w)) && v.len() <= w.len())
}

proof fn lemma_grown_stays(old: JsonView, k: JsonView, c: ChangeView, d: ChangeView)
    requires
        grown(old, k, c),
        aimed(k, d),
        stays_tidy(k, d),
        apart(c, d),
    ensures
        grown(old, changed(k, d), c),
{
    if c is Items {
        lemma_change_leaves(k, d, path_of(c));
    }
}

proof fn lemma_member_in_rest(m: Members, added: Members, i: int)
    requires
        named(m + added),
        0 <= i < added.len(),
    ensures
        member(m + added, added[i].0) == Some(added[i].1),
        member(m, added[i].0) is None,
{
    let all = m + added;
    lemma_member_back(all, m.len() + i, 0);
    assert(all[m.len() + i] == added[i]);
    assert forall|k: int| 0 <= k < m.len() implies (#[trigger] m[k]).0 != added[i].0 by {
        assert(all[k] == m[k]);
    }
    lemma_member_unknown(m, added[i].0, 0);
}

/// Members that come into an object are there after it, and were not there
/// before.
proof fn lemma_members_come(
    old: JsonView,
    k: JsonView,
    p: Seq<SegView>,
    n: Members,
    added: Members,
)
    requires
        new_names(old, p, added),
        json_at(k, p) is Some,
        forall|i: int|
            0 <= i < added.len() ==> member(n, (#[trigger] added[i]).0) == Some(added[i].1),
    ensures
        members_below(old, replaced(k, p, JsonView::Object(n)), p, added),
{
    let r = replaced(k, p, JsonView::Object(n));
    let m = json_at(old, p)->0->Object_0;
    lemma_replaced_leaves(k, p, JsonView::Object(n), p);
    assert forall|i: int| 0 <= i < added.len() implies new_below(
        old,
        r,
        p,
        SegView::Key((#[trigger] added[i]).0),
        added[i].1,
    ) by {
        let a = SegView::Key(added[i].0);
        lemma_json_behind(old, p, JsonView::Object(m), a);
        lemma_json_behind(r, p, JsonView::Object(n), a);
        assert(json_at(added[i].1, seq![a].drop_first()) == Some(added[i].1));
    }
}

/// What a change writes is there after it, and was not there before.
proof fn lemma_change_is_kept(old: JsonView, k: JsonView, c: ChangeView)
    requires
        tidy(k),
        aimed(old, c),
        aimed(k, c),
        known_here(k, c),
        fresh(old, c),
        fresh(k, c),
        grown(old, k, c),
    ensures
        kept(old, changed(k, c), c),
{
    let p = path_of(c);
    let r = changed(k, c);
    lemma_fresh_is_tidy(k, c);
    match c {
        ChangeView::Value { value, .. } => {
            lemma_replaced_leaves(k, p, value, p);
        },
        ChangeView::Members { added, .. } => {
            let n = json_at(k, p)->0->Object_0;
            assert forall|i: int| 0 <= i < added.len() implies member(n + added, (#[trigger] added[i]).0)
                == Some(added[i].1) by {
                lemma_member_in_rest(n, added, i);
            }
            lemma_members_come(old, k, p, n + added, added);
        },
        ChangeView::Items { added, .. } => {
            let v = json_at(old, p)->0->Array_0;
            let w = json_at(k, p)->0->Array_0;
            lemma_replaced_leaves(k, p, JsonView::Array(w + added), p);
            let base = w.len();
            assert forall|i: int| 0 <= i < added.len() implies new_below(
                old,
                r,
                p,
                SegView::Index((base + i) as nat),
                #[trigger] added[i],
            ) by {
                let a = SegView::Index((base + i) as nat);
                lemma_json_behind(old, p, JsonView::Array(v), a);
                lemma_json_behind(r, p, JsonView::Array(w + added), a);
                assert((w + added)[base + i] == added[i]);
                assert(json_at(added[i], seq![a].drop_first()) == Some(added[i]));
            }
            assert(items_below(old, r, p, added, base));
        },
        ChangeView::Above { path, key, added } => {
            let n = json_at(k, p)->0->Object_0;
            lemma_around(k, path, key);
            lemma_index_of(n, key, 0);
            lemma_above_split(n, key, added);
            lemma_members_come(old, k, p, with_above(n, key, added), added);
        },
        ChangeView::Gone { path, key } => {
            lemma_around(k, path, key);
            let n = json_at(k, path)->0->Object_0;
            lemma_replaced_leaves(k, path, JsonView::Object(without(n, key)), path);
            assert(well_named(json_at(k, path)));
            lemma_index_of(n, key, 0);
            let l = index_of(n, key, 0)->0;
            let u = without(n, key);
            assert forall|i: int| 0 <= i < u.len() implies (#[trigger] u[i]).0 != key by {
                if i < l {
                    assert(u[i] == n[i]);
                } else {
                    assert(u[i] == n[i + 1]);
                }
            }
            lemma_member_unknown(u, key, 0);
        },
    }
}

proof fn lemma_apart_back(c: ChangeView, d: ChangeView)
    requires
        apart(c, d),
    ensures
        apart(d, c),
{
}

/// Whether every two of the changes aim apart.
pub open spec fn all_apart(cs: Seq<ChangeView>) -> bool {
    forall|i: int, k: int|
        0 <= i < k < cs.len() ==> apart(#[trigger] cs[i], #[trigger] cs[k])
}

/// Whether the edits spell the changes, each of them in this text, and none of
/// them repeats a name.
pub open spec fn planned_on(s: Seq<char>, ops: Seq<EditView>, cs: Seq<ChangeView>) -> bool {
    &&& ops.len() == cs.len()
    &&& forall|i: int|
        0 <= i < cs.len() ==> {
            &&& spells_in_words(s, ops[i], #[trigger] cs[i])
            &&& known_here(document(s)->0, cs[i])
            &&& stays_tidy(document(s)->0, cs[i])
        }
}

/// What holds of the changes when those before `i` have been made.
spec fn under_way(
    old: JsonView,
    s: Seq<char>,
    ops: Seq<EditView>,
    cs: Seq<ChangeView>,
    i: int,
) -> bool {
    let k = document(s)->0;
    &&& ops.len() == cs.len()
    &&& forall|n: int|
        0 <= n < cs.len() ==> aimed(old, #[trigger] cs[n]) && fresh(old, cs[n])
    &&& forall|n: int| 0 <= n < i && n < cs.len() ==> kept(old, k, #[trigger] cs[n])
    &&& forall|n: int|
        i <= n < cs.len() ==> {
            &&& spells_in_words(s, ops[n], #[trigger] cs[n])
            &&& aimed(k, cs[n])
            &&& fresh(k, cs[n])
            &&& grown(old, k, cs[n])
        }
}

/// Before the first change.
proof fn lemma_start(s: Seq<char>, ops: Seq<EditView>, cs: Seq<ChangeView>)
    requires
        document(s) matches Some(j) && tidy(j) && !is_scalar(j),
        planned_on(s, ops, cs),
    ensures
        under_way(document(s)->0, s, ops, cs, 0),
{
    let j = document(s)->0;
    assert forall|n: int| 0 <= n < cs.len() implies aimed(j, #[trigger] cs[n]) && fresh(j, cs[n])
        && spells_in_words(s, ops[n], cs[n]) && grown(j, j, cs[n]) by {
        lemma_spelled_is_aimed(s, ops[n], cs[n]);
    }
}

/// A change that has its lines is spells_in_words by its edit, and what it goes above
/// or takes out is there.
proof fn lemma_lines_spell(s: Seq<char>, op: EditView, c: ChangeView)
    requires
        document(s) matches Some(j) && tidy(j) && !is_scalar(j),
        spells_in_words(s, op, c),
        has_its_lines(s, c),
        aimed(document(s)->0, c),
    ensures
        spells_change(s, op, c),
        known_here(document(s)->0, c),
{
    if let ChangeView::Above { path, key, added } = c {
        let m = json_at(document(s)->0, path)->0->Object_0;
        if let EditView::InsertBefore { block, .. } = op {
            lemma_inserted_members_are_read(s, path, key, block, m, added);
        }
        lemma_index_of(m, key, 0);
        lemma_json_behind(document(s)->0, path, JsonView::Object(m), SegView::Key(key));
        if let Some(v) = member(m, key) {
            assert(json_at(v, seq![SegView::Key(key)].drop_first()) == Some(v));
        }
    }
}

/// One change further.
proof fn lemma_under_way(
    old: JsonView,
    s: Seq<char>,
    t: Seq<char>,
    ops: Seq<EditView>,
    cs: Seq<ChangeView>,
    i: int,
)
    requires
        document(s) matches Some(k) && tidy(k) && !is_scalar(k) && document(t) == Some(
            changed(k, cs[i]),
        ),
        0 <= i < cs.len(),
        known_here(document(s)->0, cs[i]),
        all_apart(cs),
        under_way(old, s, ops, cs, i),
    ensures
        tidy(document(t)->0),
        !is_scalar(document(t)->0),
        under_way(old, t, ops, cs, i + 1),
{
    let k = document(s)->0;
    let r = document(t)->0;
    let c = cs[i];
    lemma_fresh_is_tidy(k, c);
    lemma_change_stays_tidy(k, c);
    assert forall|n: int| 0 <= n < i + 1 && n < cs.len() implies kept(old, r, #[trigger] cs[n]) by {
        if n == i {
            lemma_change_is_kept(old, k, c);
        } else {
            lemma_kept_stays(old, k, cs[n], c);
        }
    }
    assert forall|n: int| i + 1 <= n < cs.len() implies {
        &&& spells_in_words(t, ops[n], #[trigger] cs[n])
        &&& aimed(r, cs[n])
        &&& fresh(r, cs[n])
        &&& grown(old, r, cs[n])
    } by {
        lemma_apart_back(c, cs[n]);
        lemma_aim_stays(k, cs[n], c);
        lemma_fresh_stays(k, cs[n], c);
        lemma_grown_stays(old, k, cs[n], c);
        lemma_spelling_stays(s, t, ops[n], cs[n], c);
    }
}

proof fn lemma_rest_takes_effect(
    old: JsonView,
    s: Seq<char>,
    ops: Seq<EditView>,
    cs: Seq<ChangeView>,
    i: int,
)
    requires
        document(s) matches Some(k) && tidy(k) && !is_scalar(k),
        0 <= i <= cs.len(),
        all_apart(cs),
        under_way(old, s, ops, cs, i),
        all_have_lines(s, ops, cs, i),
        edited_from(s, ops, i) is Ok,
    ensures
        ({
            let r = document(edited_from(s, ops, i)->Ok_0);
            &&& r == Some(changed_from(document(s)->0, cs, i))
            &&& forall|n: int| 0 <= n < cs.len() ==> kept(old, r->0, #[trigger] cs[n])
        }),
    decreases cs.len() - i,
{
    if i < cs.len() {
        lemma_lines_spell(s, ops[i], cs[i]);
        lemma_edit_makes_its_change(s, ops[i], cs[i]);
        let t = edited(s, ops[i])->Ok_0;
        assert(config_text(t) is Some);
        lemma_under_way(old, s, t, ops, cs, i);
        lemma_rest_takes_effect(old, t, ops, cs, i + 1);
    }
}

/// Edits that were planned on one text, and aim apart, all take effect once
/// they are applied: the document says what each of them wrote, and nothing
/// else of it has changed.
pub proof fn lemma_planned_edits_take_effect(
    s: Seq<char>,
    ops: Seq<EditView>,
    cs: Seq<ChangeView>,
)
    requires
        document(s) matches Some(j) && tidy(j) && !is_scalar(j),
        planned_on(s, ops, cs),
        all_apart(cs),
        all_have_lines(s, ops, cs, 0),
        edited_from(s, ops, 0) is Ok,
    ensures
        ({
            let r = document(edited_from(s, ops, 0)->Ok_0);
            &&& r == Some(changed_from(document(s)->0, cs, 0))
            &&& forall|n: int| 0 <= n < cs.len() ==> says_change(r->0, #[trigger] cs[n])
        }),
{
    let j = document(s)->0;
    lemma_start(s, ops, cs);
    lemma_rest_takes_effect(j, s, ops, cs, 0);
    let r = document(edited_from(s, ops, 0)->Ok_0)->0;
    assert forall|n: int| 0 <= n < cs.len() implies says_change(r, #[trigger] cs[n]) by {
        lemma_kept_is_said(j, r, cs[n]);
    }
}

/// Whether a change aims neither at a path nor above or below it, but for
/// what it adds.
pub open spec fn misses(c: ChangeView, p: Seq<SegView>) -> bool {
    &&& !under(p, path_of(c))
    &&& cuts(c) ==> !under(path_of(c), p)
}

proof fn lemma_rest_is_left(
    old: JsonView,
    s: Seq<char>,
    ops: Seq<EditView>,
    cs: Seq<ChangeView>,
    i: int,
    p: Seq<SegView>,
)
    requires
        document(s) matches Some(k) && tidy(k) && !is_scalar(k) && json_at(k, p) is Some,
        0 <= i <= cs.len(),
        all_apart(cs),
        under_way(old, s, ops, cs, i),
        all_have_lines(s, ops, cs, i),
        edited_from(s, ops, i) is Ok,
        forall|n: int| 0 <= n < cs.len() ==> misses(#[trigger] cs[n], p),
    ensures
        document(edited_from(s, ops, i)->Ok_0) matches Some(r) && json_at(r, p) == json_at(
            document(s)->0,
            p,
        ),
    decreases cs.len() - i,
{
    if i < cs.len() {
        lemma_lines_spell(s, ops[i], cs[i]);
        lemma_fresh_is_tidy(document(s)->0, cs[i]);
        assert(misses(cs[i], p));
        lemma_edit_makes_its_change(s, ops[i], cs[i]);
        let t = edited(s, ops[i])->Ok_0;
        assert(config_text(t) is Some);
        lemma_under_way(old, s, t, ops, cs, i);
        lemma_change_leaves(document(s)->0, cs[i], p);
        lemma_rest_is_left(old, t, ops, cs, i + 1, p);
    }
}

/// A value at which no edit aims is what it was, once edits that were planned
/// on one text, and aim apart, have been applied.
pub proof fn lemma_planned_edits_leave_the_rest(
    s: Seq<char>,
    ops: Seq<EditView>,
    cs: Seq<ChangeView>,
    p: Seq<SegView>,
)
    requires
        document(s) matches Some(j) && tidy(j) && !is_scalar(j) && json_at(j, p) is Some,
        planned_on(s, ops, cs),
        all_apart(cs),
        all_have_lines(s, ops, cs, 0),
        edited_from(s, ops, 0) is Ok,
        forall|n: int| 0 <= n < cs.len() ==> misses(#[trigger] cs[n], p),
    ensures
        document(edited_from(s, ops, 0)->Ok_0) matches Some(r) && json_at(r, p) == json_at(
            document(s)->0,
            p,
        ),
{
    let j = document(s)->0;
    lemma_start(s, ops, cs);
    lemma_rest_is_left(j, s, ops, cs, 0, p);
}

} // verus!

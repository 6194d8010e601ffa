//! What changes of a document spare: a path that they pass by says what it
//! said, and has nothing where it had nothing.
use crate::changes::{changed, changed_from, with_above, without, ChangeView};
use crate::config::{member, member_from};
use crate::jsonc::JsonView;
use crate::locate::SegView;
use crate::pieces::Members;
use crate::place::{json_at, under};
use crate::splice::{index_of, lemma_index_of, replaced};
use crate::together::{lemma_under_tail, lemma_updated_member, lemma_without_keeps};
use vstd::prelude::*;

verus! {

// ── Paths ────────────────────────────────────────────────────────────
/// What stands at a path stands below what stands on the way.
pub proof fn lemma_json_through(j: JsonView, p: Seq<SegView>, q: Seq<SegView>)
    requires
        under(p, q),
    ensures
        json_at(j, q) == (match json_at(j, p) {
            Some(x) => json_at(x, q.skip(p.len() as int)),
            None => None,
        }),
    decreases p.len(),
{
    if p.len() == 0 {
        assert(q.skip(0) =~= q);
    } else {
        assert(q[0] == p[0]) by {
            assert(q.take(p.len() as int)[0] == p[0]);
        }
        lemma_under_tail(p, q);
        assert(q.drop_first().skip(p.len() - 1) =~= q.skip(p.len() as int));
        match (j, p[0]) {
            (JsonView::Object(m), SegView::Key(k)) => {
                if let Some(x) = member(m, k) {
                    lemma_json_through(x, p.drop_first(), q.drop_first());
                }
            },
            (JsonView::Array(v), SegView::Index(n)) => {
                if n < v.len() {
                    lemma_json_through(v[n as int], p.drop_first(), q.drop_first());
                }
            },
            _ => {},
        }
    }
}

/// A value that is replaced is so for the paths that lead through it, and for
/// no other path but those above it.
proof fn lemma_replaced_through(j: JsonView, p: Seq<SegView>, w: JsonView, q: Seq<SegView>)
    ensures
        !under(p, q) && !under(q, p) ==> json_at(replaced(j, p, w), q) == json_at(j, q),
        under(p, q) && json_at(j, p) is Some ==> json_at(replaced(j, p, w), q) == json_at(
            w,
            q.skip(p.len() as int),
        ),
        json_at(j, p) is None ==> replaced(j, p, w) == j,
        under(q, p) && json_at(j, p) is Some ==> json_at(replaced(j, p, w), q) is Some,
    decreases p.len(),
{
    if p.len() == 0 {
        assert(q.take(0) =~= p);
        assert(q.skip(0) =~= q);
        if under(q, p) {
            assert(q =~= p);
        }
    } else if q.len() == 0 {
        assert(p.take(0) =~= q);
        if json_at(j, p) is None {
            lemma_nothing_replaced(j, p, w);
        }
    } else {
        let rest = p.drop_first();
        if p[0] == q[0] {
            lemma_under_tail(p, q);
            lemma_under_tail(q, p);
            if under(p, q) {
                assert(q.drop_first().skip(p.len() - 1) =~= q.skip(p.len() as int));
            }
        } else {
            if under(p, q) {
                assert(q.take(p.len() as int)[0] == p[0]);
            }
            if under(q, p) {
                assert(p.take(q.len() as int)[0] == q[0]);
            }
        }
        match (j, p[0]) {
            (JsonView::Object(m), SegView::Key(name)) => {
                lemma_index_of(m, name, 0);
                if let Some(n) = index_of(m, name, 0) {
                    let x = replaced(m[n].1, rest, w);
                    lemma_replaced_through(m[n].1, rest, w, q.drop_first());
                    if let SegView::Key(other) = q[0] {
                        lemma_updated_member(m, n, x, other, 0);
                    }
                }
            },
            (JsonView::Array(v), SegView::Index(n)) => {
                if n < v.len() {
                    lemma_replaced_through(v[n as int], rest, w, q.drop_first());
                }
            },
            _ => {},
        }
        if json_at(j, p) is None {
            lemma_nothing_replaced(j, p, w);
        }
    }
}

proof fn lemma_nothing_replaced(j: JsonView, p: Seq<SegView>, w: JsonView)
    requires
        json_at(j, p) is None,
    ensures
        replaced(j, p, w) == j,
    decreases p.len(),
{
    if p.len() > 0 {
        match (j, p[0]) {
            (JsonView::Object(m), SegView::Key(name)) => {
                lemma_index_of(m, name, 0);
                if let Some(n) = index_of(m, name, 0) {
                    lemma_nothing_replaced(m[n].1, p.drop_first(), w);
                    assert(m.update(n, (name, m[n].1)) =~= m);
                }
            },
            (JsonView::Array(v), SegView::Index(n)) => {
                if n < v.len() {
                    lemma_nothing_replaced(v[n as int], p.drop_first(), w);
                    assert(v.update(n as int, v[n as int]) =~= v);
                }
            },
            _ => {},
        }
    }
}

// ── Members ──────────────────────────────────────────────────────────
/// A name is looked for among the first members, then among the others.
pub proof fn lemma_member_concat(a: Members, b: Members, name: Seq<char>, k: int)
    requires
        0 <= k <= a.len(),
    ensures
        member_from(a + b, name, k) == (match member_from(a, name, k) {
            Some(x) => Some(x),
            None => member_from(b, name, 0),
        }),
    decreases a.len() - k,
{
    let all = a + b;
    if k < a.len() {
        assert(all[k] == a[k]);
        lemma_member_concat(a, b, name, k + 1);
    } else {
        lemma_member_shifted(a, b, name, 0);
    }
}

proof fn lemma_member_shifted(a: Members, b: Members, name: Seq<char>, k: int)
    requires
        0 <= k,
    ensures
        member_from(a + b, name, a.len() + k) == member_from(b, name, k),
    decreases b.len() - k,
{
    if k < b.len() {
        assert((a + b)[a.len() + k] == b[k]);
        lemma_member_shifted(a, b, name, k + 1);
    }
}

/// A member that is found is one of the members.
pub proof fn lemma_member_is_one(m: Members, name: Seq<char>, k: int) -> (n: int)
    requires
        0 <= k,
        member_from(m, name, k) is Some,
    ensures
        k <= n < m.len(),
        m[n].0 == name,
        member_from(m, name, k) == Some(m[n].1),
    decreases m.len() - k,
{
    if m[k].0 == name {
        k
    } else {
        lemma_member_is_one(m, name, k + 1)
    }
}

// ── Changes ──────────────────────────────────────────────────────────
/// Whether a change passes a path by. It neither replaces nor takes out
/// anything on the way to it or below it, and where it adds members on the way
/// there is nothing at the path among them.
pub open spec fn spares(c: ChangeView, q: Seq<SegView>) -> bool {
    match c {
        ChangeView::Value { path, .. } => !under(path, q) && !under(q, path),
        ChangeView::Gone { path, key } => !under(path.push(SegView::Key(key)), q) && !under(
            q,
            path.push(SegView::Key(key)),
        ),
        ChangeView::Members { path, added } => !under(q, path) && (under(path, q) ==> forall|i: int|
            0 <= i < added.len() && SegView::Key((#[trigger] added[i]).0) == q[path.len() as int]
                ==> json_at(added[i].1, q.skip(path.len() as int + 1)) is None),
        ChangeView::Above { path, added, .. } => !under(q, path) && (under(path, q) ==> forall|
            i: int,
        |
            0 <= i < added.len() ==> SegView::Key((#[trigger] added[i]).0) != q[path.len() as int]),
        ChangeView::Items { path, .. } => !under(q, path),
    }
}

/// Whether a change leaves what stands at a path there, whatever becomes of it.
pub open spec fn leaves_there(c: ChangeView, b: Seq<SegView>) -> bool {
    match c {
        ChangeView::Value { path, .. } => !under(path, b),
        ChangeView::Gone { path, key } => !under(path.push(SegView::Key(key)), b),
        ChangeView::Above { path, added, .. } => under(path, b) && path != b ==> forall|i: int|
            0 <= i < added.len() ==> SegView::Key((#[trigger] added[i]).0) != b[path.len() as int],
        _ => true,
    }
}

/// What the members of an object say below the first step of a path, when
/// others come behind them.
proof fn lemma_members_behind(m: Members, added: Members, r: Seq<SegView>)
    requires
        r.len() > 0,
    ensures
        json_at(JsonView::Object(m), r) is Some ==> json_at(JsonView::Object(m + added), r)
            == json_at(JsonView::Object(m), r),
        (forall|i: int|
            0 <= i < added.len() && SegView::Key((#[trigger] added[i]).0) == r[0] ==> json_at(
                added[i].1,
                r.drop_first(),
            ) is None) ==> json_at(JsonView::Object(m + added), r) == json_at(
            JsonView::Object(m),
            r,
        ),
{
    if let SegView::Key(name) = r[0] {
        lemma_member_concat(m, added, name, 0);
        if member(m, name) is None && member(added, name) is Some {
            let n = lemma_member_is_one(added, name, 0);
            assert(SegView::Key(added[n].0) == r[0]);
        }
    }
}

/// What the members of an object say below the first step of a path, when
/// others come before one of them.
proof fn lemma_members_above(m: Members, key: Seq<char>, added: Members, r: Seq<SegView>)
    requires
        r.len() > 0,
        forall|i: int| 0 <= i < added.len() ==> SegView::Key((#[trigger] added[i]).0) != r[0],
    ensures
        json_at(JsonView::Object(with_above(m, key, added)), r) == json_at(JsonView::Object(m), r),
{
    lemma_index_of(m, key, 0);
    if let SegView::Key(name) = r[0] {
        if let Some(l) = index_of(m, key, 0) {
            let (a, b) = (m.take(l), m.skip(l));
            lemma_member_concat(a + added, b, name, 0);
            lemma_member_concat(a, added, name, 0);
            lemma_member_concat(a, b, name, 0);
            assert(a + b =~= m);
            if member(added, name) is Some {
                let n = lemma_member_is_one(added, name, 0);
                assert(SegView::Key(added[n].0) == r[0]);
            }
        }
    }
}

/// What the members of an object say below the first step of a path, when
/// another one is taken out.
proof fn lemma_members_less(m: Members, key: Seq<char>, r: Seq<SegView>)
    requires
        r.len() > 0,
        r[0] != SegView::Key(key),
    ensures
        json_at(JsonView::Object(without(m, key)), r) == json_at(JsonView::Object(m), r),
{
    lemma_index_of(m, key, 0);
    if let SegView::Key(name) = r[0] {
        if let Some(l) = index_of(m, key, 0) {
            lemma_without_keeps(m, l, name, 0);
        }
    }
}

proof fn lemma_longer(p: Seq<SegView>, q: Seq<SegView>)
    requires
        under(p, q),
        p != q,
    ensures
        p.len() < q.len(),
        q.skip(p.len() as int).len() > 0,
        q.skip(p.len() as int)[0] == q[p.len() as int],
        q.skip(p.len() as int).drop_first() == q.skip(p.len() as int + 1),
{
    if p.len() == q.len() {
        assert(q.take(p.len() as int) =~= q);
    }
    assert(q.skip(p.len() as int).drop_first() =~= q.skip(p.len() as int + 1));
}

proof fn lemma_itself(q: Seq<SegView>)
    ensures
        under(q, q),
{
    assert(q.take(q.len() as int) =~= q);
}

/// Paths that part at a member of an object part before it or at it.
proof fn lemma_part_at_member(path: Seq<SegView>, key: Seq<char>, q: Seq<SegView>)
    requires
        !under(path.push(SegView::Key(key)), q),
        !under(q, path.push(SegView::Key(key))),
    ensures
        under(path, q) ==> path != q && q[path.len() as int] != SegView::Key(key),
        !under(q, path),
{
    let p = path.push(SegView::Key(key));
    let n = path.len() as int;
    if under(q, path) {
        assert(p.take(q.len() as int) =~= path.take(q.len() as int));
    }
    if under(path, q) {
        lemma_itself(q);
        if path == q {
            assert(under(q, path));
        } else {
            lemma_longer(path, q);
            if q[n] == SegView::Key(key) {
                assert(q.take(n + 1) =~= p);
            }
        }
    }
}

/// A change that passes a path by leaves what is said there, and adds nothing
/// there. Of what the path leads through, `b` is there.
pub proof fn lemma_spared(j: JsonView, c: ChangeView, q: Seq<SegView>, b: Seq<SegView>)
    requires
        spares(c, q),
        c is Items && under(crate::together::path_of(c), q) ==> {
            let n = crate::together::path_of(c).len();
            n < b.len() && under(b, q) && json_at(j, b) is Some
        },
    ensures
        json_at(changed(j, c), q) == json_at(j, q),
{
    lemma_itself(q);
    match c {
        ChangeView::Value { path, value } => {
            lemma_replaced_through(j, path, value, q);
        },
        ChangeView::Members { path, added } => {
            if let Some(JsonView::Object(m)) = json_at(j, path) {
                lemma_replaced_through(j, path, JsonView::Object(m + added), q);
                if under(path, q) {
                    lemma_longer(path, q);
                    lemma_json_through(j, path, q);
                    lemma_members_behind(m, added, q.skip(path.len() as int));
                }
            }
        },
        ChangeView::Above { path, key, added } => {
            if let Some(JsonView::Object(m)) = json_at(j, path) {
                lemma_replaced_through(j, path, JsonView::Object(with_above(m, key, added)), q);
                if under(path, q) {
                    lemma_longer(path, q);
                    lemma_json_through(j, path, q);
                    lemma_members_above(m, key, added, q.skip(path.len() as int));
                }
            }
        },
        ChangeView::Gone { path, key } => {
            lemma_part_at_member(path, key, q);
            if let Some(JsonView::Object(m)) = json_at(j, path) {
                lemma_replaced_through(j, path, JsonView::Object(without(m, key)), q);
                if under(path, q) {
                    lemma_longer(path, q);
                    lemma_json_through(j, path, q);
                    lemma_members_less(m, key, q.skip(path.len() as int));
                }
            }
        },
        ChangeView::Items { path, added } => {
            if let Some(JsonView::Array(v)) = json_at(j, path) {
                lemma_replaced_through(j, path, JsonView::Array(v + added), q);
                if under(path, q) {
                    lemma_longer(path, q);
                    lemma_json_through(j, path, q);
                    assert(under(path, b)) by {
                        assert(b.take(path.len() as int) =~= q.take(path.len() as int));
                    }
                    lemma_json_through(j, path, b);
                    let r = q.skip(path.len() as int);
                    let n = b.skip(path.len() as int);
                    assert(n[0] == b[path.len() as int]);
                    assert(b[path.len() as int] == q.take(b.len() as int)[path.len() as int]);
                    assert(r[0] == n[0]);
                    if let SegView::Index(i) = r[0] {
                        assert((v + added)[i as int] == v[i as int]);
                    }
                }
            }
        },
    }
}

/// A change that leaves what stands at a path there does.
pub proof fn lemma_left_there(j: JsonView, c: ChangeView, b: Seq<SegView>)
    requires
        leaves_there(c, b),
        json_at(j, b) is Some,
    ensures
        json_at(changed(j, c), b) is Some,
{
    lemma_itself(b);
    match c {
        ChangeView::Value { path, value } => {
            lemma_replaced_through(j, path, value, b);
        },
        ChangeView::Members { path, added } => {
            if let Some(JsonView::Object(m)) = json_at(j, path) {
                lemma_replaced_through(j, path, JsonView::Object(m + added), b);
                if under(path, b) && path != b {
                    lemma_longer(path, b);
                    lemma_json_through(j, path, b);
                    lemma_members_behind(m, added, b.skip(path.len() as int));
                }
            }
        },
        ChangeView::Above { path, key, added } => {
            if let Some(JsonView::Object(m)) = json_at(j, path) {
                lemma_replaced_through(j, path, JsonView::Object(with_above(m, key, added)), b);
                if under(path, b) && path != b {
                    lemma_longer(path, b);
                    lemma_json_through(j, path, b);
                    lemma_members_above(m, key, added, b.skip(path.len() as int));
                }
            }
        },
        ChangeView::Gone { path, key } => {
            if let Some(JsonView::Object(m)) = json_at(j, path) {
                lemma_replaced_through(j, path, JsonView::Object(without(m, key)), b);
                if under(path, b) && path != b {
                    lemma_longer(path, b);
                    if b[path.len() as int] == SegView::Key(key) {
                        assert(b.take(path.len() as int + 1) =~= path.push(SegView::Key(key)));
                    }
                    lemma_json_through(j, path, b);
                    lemma_members_less(m, key, b.skip(path.len() as int));
                }
            }
        },
        ChangeView::Items { path, added } => {
            if let Some(JsonView::Array(v)) = json_at(j, path) {
                lemma_replaced_through(j, path, JsonView::Array(v + added), b);
                if under(path, b) && path != b {
                    lemma_longer(path, b);
                    lemma_json_through(j, path, b);
                    let r = b.skip(path.len() as int);
                    if let SegView::Index(i) = r[0] {
                        assert((v + added)[i as int] == v[i as int]);
                    }
                }
            }
        },
    }
}

/// Whether a change passes `q` by and leaves `b`, on the way there, in place.
pub open spec fn passes(c: ChangeView, q: Seq<SegView>, b: Seq<SegView>) -> bool {
    &&& spares(c, q)
    &&& leaves_there(c, b)
    &&& c is Items && under(crate::together::path_of(c), q) ==> crate::together::path_of(c).len()
        < b.len()
}

/// Changes that all pass a path by leave what is said there, and add nothing
/// there.
pub proof fn lemma_all_spared(
    j: JsonView,
    cs: Seq<ChangeView>,
    i: int,
    q: Seq<SegView>,
    b: Seq<SegView>,
)
    requires
        0 <= i <= cs.len(),
        under(b, q),
        json_at(j, b) is Some,
        forall|n: int| 0 <= n < cs.len() ==> passes(#[trigger] cs[n], q, b),
    ensures
        json_at(changed_from(j, cs, i), q) == json_at(j, q),
        json_at(changed_from(j, cs, i), b) is Some,
    decreases cs.len() - i,
{
    if i < cs.len() {
        assert(passes(cs[i], q, b));
        lemma_spared(j, cs[i], q, b);
        lemma_left_there(j, cs[i], b);
        lemma_all_spared(changed(j, cs[i]), cs, i + 1, q, b);
    }
}

} // verus!

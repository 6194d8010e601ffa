//! Objects as they are written from a fixed row of names, each with a value
//! or left out.
use crate::config::{member, member_from, only};
use crate::jsonc::JsonView;
use crate::pieces::Members;
use vstd::prelude::*;

verus! {

/// A name, and its value where it has one.
pub type Slot = (Seq<char>, Option<JsonView>);

/// The member of a slot that has a value.
pub open spec fn slot_member(s: Slot) -> Members {
    match s.1 {
        Some(j) => seq![(s.0, j)],
        None => Seq::empty(),
    }
}

/// The members of the slots that have values.
pub open spec fn filled(slots: Seq<Slot>) -> Members
    decreases slots.len(),
{
    if slots.len() == 0 {
        Seq::empty()
    } else {
        filled(slots.drop_last()) + slot_member(slots.last())
    }
}

pub proof fn lemma_filled_push(slots: Seq<Slot>, s: Slot)
    ensures
        filled(slots.push(s)) == filled(slots) + slot_member(s),
{
    assert(slots.push(s).drop_last() =~= slots);
}

proof fn lemma_member_grows(m: Members, x: (Seq<char>, JsonView), name: Seq<char>, i: int)
    requires
        0 <= i <= m.len(),
    ensures
        member_from(m + seq![x], name, i) == (match member_from(m, name, i) {
            Some(j) => Some(j),
            None => if x.0 == name {
                Some(x.1)
            } else {
                None
            },
        }),
    decreases m.len() - i,
{
    let n = m + seq![x];
    if i < m.len() {
        assert(n[i] == m[i]);
        lemma_member_grows(m, x, name, i + 1);
    } else {
        assert(n[i] == x);
        assert(member_from(n, name, i + 1) is None);
    }
}

/// Whether no slot has this name.
pub open spec fn free_of(slots: Seq<Slot>, name: Seq<char>) -> bool {
    forall|i: int| 0 <= i < slots.len() ==> (#[trigger] slots[i]).0 != name
}

/// Whether no two slots have the same name.
pub open spec fn slots_differ(slots: Seq<Slot>) -> bool {
    forall|i: int, j: int|
        0 <= i < j < slots.len() ==> (#[trigger] slots[i]).0 != (#[trigger] slots[j]).0
}

proof fn lemma_unfilled(slots: Seq<Slot>, name: Seq<char>)
    requires
        free_of(slots, name),
    ensures
        member(filled(slots), name) is None,
        forall|k: int| 0 <= k < filled(slots).len() ==> (#[trigger] filled(slots)[k]).0 != name,
    decreases slots.len(),
{
    if slots.len() > 0 {
        let rest = slots.drop_last();
        let s = slots.last();
        assert(slots[slots.len() - 1].0 != name);
        assert(free_of(rest, name)) by {
            assert forall|i: int| 0 <= i < rest.len() implies (#[trigger] rest[i]).0 != name by {
                assert(rest[i] == slots[i]);
            }
        }
        lemma_unfilled(rest, name);
        match s.1 {
            Some(j) => {
                lemma_member_grows(filled(rest), (s.0, j), name, 0);
            },
            None => {
                assert(filled(slots) =~= filled(rest));
            },
        }
    }
}

/// Every slot is found under its name, and no other member is there.
proof fn lemma_slot_found(slots: Seq<Slot>, i: int)
    requires
        slots_differ(slots),
        0 <= i < slots.len(),
    ensures
        member(filled(slots), slots[i].0) == slots[i].1,
    decreases slots.len(),
{
    let rest = slots.drop_last();
    let s = slots.last();
    let name = slots[i].0;
    assert(slots_differ(rest)) by {
        assert forall|a: int, b: int| 0 <= a < b < rest.len() implies (#[trigger] rest[a]).0 != (
        #[trigger] rest[b]).0 by {
            assert(rest[a] == slots[a] && rest[b] == slots[b]);
        }
    }
    if i < rest.len() {
        assert(rest[i] == slots[i]);
        lemma_slot_found(rest, i);
        assert(slots[slots.len() - 1].0 != name);
    } else {
        assert(free_of(rest, name)) by {
            assert forall|k: int| 0 <= k < rest.len() implies (#[trigger] rest[k]).0 != name by {
                assert(rest[k] == slots[k]);
            }
        }
        lemma_unfilled(rest, name);
    }
    match s.1 {
        Some(j) => {
            lemma_member_grows(filled(rest), (s.0, j), name, 0);
        },
        None => {
            assert(filled(slots) =~= filled(rest));
        },
    }
}

proof fn lemma_filled_only(slots: Seq<Slot>, names: Seq<Seq<char>>)
    requires
        slots_differ(slots),
        forall|i: int| 0 <= i < slots.len() ==> names.contains((#[trigger] slots[i]).0),
    ensures
        only(filled(slots), names),
    decreases slots.len(),
{
    let m = filled(slots);
    if slots.len() > 0 {
        let rest = slots.drop_last();
        let s = slots.last();
        assert forall|i: int| 0 <= i < rest.len() implies #[trigger] rest[i] == slots[i] by {}
        assert(slots_differ(rest));
        lemma_filled_only(rest, names);
        assert(free_of(rest, s.0)) by {
            assert forall|k: int| 0 <= k < rest.len() implies (#[trigger] rest[k]).0 != s.0 by {
                assert(slots[slots.len() - 1] == s);
                assert(rest[k] == slots[k]);
            }
        }
        lemma_unfilled(rest, s.0);
        let f = filled(rest);
        assert(slots[slots.len() - 1] == s);
        assert forall|k: int| 0 <= k < m.len() implies names.contains((#[trigger] m[k]).0) by {
            if k < f.len() {
                assert(m[k] == f[k]);
            } else {
                assert(m[k].0 == s.0);
            }
        }
        assert forall|a: int, b: int| 0 <= a < b < m.len() implies (#[trigger] m[a]).0 != (
        #[trigger] m[b]).0 by {
            assert(m[a] == f[a]);
            if b < f.len() {
                assert(m[b] == f[b]);
            } else {
                assert(m[b].0 == s.0);
            }
        }
    }
}

/// Whether name `k` is none of the first `n`.
pub open spec fn apart(names: Seq<Seq<char>>, k: int, n: int) -> bool
    decreases n,
{
    n <= 0 || (apart(names, k, n - 1) && names[k] != names[n - 1])
}

/// Whether the first `n` names are all different.
pub open spec fn apart_before(names: Seq<Seq<char>>, n: int) -> bool
    decreases n,
{
    n <= 0 || (apart_before(names, n - 1) && apart(names, n - 1, n - 1))
}

proof fn lemma_apart(names: Seq<Seq<char>>, k: int, n: int, i: int)
    requires
        apart(names, k, n),
        0 <= i < n,
    ensures
        names[k] != names[i],
    decreases n,
{
    if i < n - 1 {
        lemma_apart(names, k, n - 1, i);
    }
}

proof fn lemma_apart_before(names: Seq<Seq<char>>, n: int, i: int, j: int)
    requires
        apart_before(names, n),
        0 <= i < j < n,
    ensures
        names[i] != names[j],
    decreases n,
{
    if j < n - 1 {
        lemma_apart_before(names, n - 1, i, j);
    } else {
        lemma_apart(names, n - 1, n - 1, i);
    }
}

/// An object that is written from a row of different names: it holds no other
/// members, and each name finds its own value.
pub proof fn lemma_filled(slots: Seq<Slot>, names: Seq<Seq<char>>)
    requires
        slots.len() == names.len(),
        forall|i: int| 0 <= i < names.len() ==> (#[trigger] slots[i]).0 == names[i],
        apart_before(names, names.len() as int),
    ensures
        only(filled(slots), names),
        forall|i: int|
            0 <= i < slots.len() ==> member(filled(slots), (#[trigger] slots[i]).0) == slots[i].1,
{
    assert forall|i: int, j: int| 0 <= i < j < slots.len() implies (#[trigger] slots[i]).0 != (
    #[trigger] slots[j]).0 by {
        lemma_apart_before(names, names.len() as int, i, j);
    }
    assert forall|i: int| 0 <= i < slots.len() implies names.contains((#[trigger] slots[i]).0) by {
        assert(names[i] == slots[i].0);
    }
    lemma_filled_only(slots, names);
    assert forall|i: int| 0 <= i < slots.len() implies member(
        filled(slots),
        (#[trigger] slots[i]).0,
    ) == slots[i].1 by {
        lemma_slot_found(slots, i);
    }
}

} // verus!

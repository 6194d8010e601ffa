//! No two boards get the same name, whichever way the names are found.
use crate::answers::{DutAnswersView, HostAnswersView};
use crate::ask::asked_name;
use crate::config::{ConfigView, HostView};
use crate::defaults::{
    default_answers, default_duts, default_host, default_hosts, default_name, dut_or_unknown,
    host_or_unknown,
};
use crate::fields::{at_least_one, materialized};
use crate::form::{
    dut_group_of, host_count_group_of, host_group_of, typed_from, typed_names, typed_value,
    KeyView, Typed,
};
use crate::naming::{lemma_next_free, next_free, numbered};
use crate::options::InitOptions;
use crate::prompt::{Talk, TalkView};
use crate::resolve::{
    cleaned, counted_or, name_collides, resolved, resolved_dut, resolved_duts, resolved_host,
    resolved_hosts, resolved_name, start_of, times, with_names, NamePolicy, ProgressView,
};
use crate::schema::{all_dut_names, dut_names, schema_of, SchemaView};
use crate::text::{or_empty, trimmed};
use crate::walk::{talking, walked, walked_dut, walked_duts, walked_host, walked_hosts, WalkView};
use vstd::prelude::*;

verus! {

/// Whether there is a board `d` on host `h`.
pub open spec fn is_board(hosts: Seq<HostAnswersView>, h: int, d: int) -> bool {
    0 <= h < hosts.len() && 0 <= d < hosts[h].duts.len()
}

/// The name of board `d` of host `h`.
pub open spec fn board_name(hosts: Seq<HostAnswersView>, h: int, d: int) -> Seq<char> {
    hosts[h].duts[d].dut_name
}

/// Every board has a name, and no two have the same.
pub open spec fn names_differ(hosts: Seq<HostAnswersView>) -> bool {
    &&& forall|h: int, d: int|
        is_board(hosts, h, d) ==> (#[trigger] board_name(hosts, h, d)).len() > 0
    &&& forall|h: int, d: int, i: int, e: int|
        is_board(hosts, h, d) && is_board(hosts, i, e) && #[trigger] board_name(hosts, h, d)
            == #[trigger] board_name(hosts, i, e) ==> h == i && d == e
}

/// The name of board `d` of host `h` in a configuration.
pub open spec fn configured_name(hosts: Seq<HostView>, h: int, d: int) -> Seq<char> {
    hosts[h].duts[d].dut_name
}

/// No two boards of a configuration have the same name; some may have none.
pub open spec fn configured_names_differ(hosts: Seq<HostView>) -> bool {
    forall|h: int, d: int, i: int, e: int|
        0 <= h < hosts.len() && 0 <= d < hosts[h].duts.len() && 0 <= i < hosts.len() && 0 <= e
            < hosts[i].duts.len() && configured_name(hosts, h, d).len() > 0
            && #[trigger] configured_name(hosts, h, d) == #[trigger] configured_name(hosts, i, e)
            ==> h == i && d == e
}

// ── Where a name comes from ──────────────────────────────────────────
/// The name that a board has already; empty if it has none.
pub open spec fn own_name(s: SchemaView, h: int, d: int) -> Seq<char> {
    or_empty(dut_or_unknown(host_or_unknown(s, h), d).dut_name)
}

/// Whether a board has this name already.
pub open spec fn is_owned(s: SchemaView, n: Seq<char>) -> bool {
    exists|h: int, d: int| #[trigger] own_name(s, h, d) == n
}

/// What was typed as the name of a board.
pub open spec fn typed_name(v: Typed, h: int, d: int) -> Seq<char> {
    cleaned(typed_value(v, KeyView::DutName(h as usize, d as usize)))
}

/// Whether this was typed as the name of a board.
pub open spec fn is_typed(v: Typed, n: Seq<char>) -> bool {
    typed_names(v, v.len() as int).contains(n)
}

/// A name is the board's own, or it was typed for this board and no board owns
/// it, or it is new.
pub open spec fn has_origin(s: SchemaView, v: Typed, n: Seq<char>, h: int, d: int) -> bool {
    ||| n == own_name(s, h, d)
    ||| n == typed_name(v, h, d) && is_typed(v, n) && !is_owned(s, n)
    ||| !is_owned(s, n) && !is_typed(v, n)
}

/// No two boards own the same name.
pub open spec fn owned_once(s: SchemaView) -> bool {
    forall|h: int, d: int, i: int, e: int|
        (#[trigger] own_name(s, h, d)).len() > 0 && own_name(s, h, d) == #[trigger] own_name(
            s,
            i,
            e,
        ) ==> h == i && d == e
}

/// The names that are owned and those that were typed are taken.
pub open spec fn all_taken(s: SchemaView, v: Typed, taken: Seq<Seq<char>>) -> bool {
    &&& forall|h: int, d: int|
        (#[trigger] own_name(s, h, d)).len() > 0 ==> taken.contains(own_name(s, h, d))
    &&& forall|n: Seq<char>| n.len() > 0 && #[trigger] is_typed(v, n) ==> taken.contains(n)
}

/// The boards so far have names of their own, all of them taken.
pub open spec fn named_well(
    s: SchemaView,
    v: Typed,
    hosts: Seq<HostAnswersView>,
    taken: Seq<Seq<char>>,
) -> bool {
    &&& names_differ(hosts)
    &&& forall|h: int, d: int|
        is_board(hosts, h, d) ==> taken.contains(#[trigger] board_name(hosts, h, d)) && has_origin(
            s,
            v,
            board_name(hosts, h, d),
            h,
            d,
        )
}

/// Every name that is taken before is taken after.
pub open spec fn still_taken(before: Seq<Seq<char>>, after: Seq<Seq<char>>) -> bool {
    forall|n: Seq<char>| before.contains(n) ==> #[trigger] after.contains(n)
}

/// The hosts so far, with the boards so far of one more.
pub open spec fn with_boards(hosts: Seq<HostAnswersView>, duts: Seq<DutAnswersView>) -> Seq<
    HostAnswersView,
> {
    hosts.push(
        HostAnswersView {
            ip: Seq::empty(),
            user: Seq::empty(),
            pass: Seq::empty(),
            host_name: Seq::empty(),
            duts,
        },
    )
}

proof fn lemma_pushed<A>(v: Seq<A>, x: A)
    ensures
        v.push(x).contains(x),
        forall|y: A| v.contains(y) ==> #[trigger] v.push(x).contains(y),
{
    assert(v.push(x)[v.len() as int] == x);
    assert forall|y: A| v.contains(y) implies #[trigger] v.push(x).contains(y) by {
        let i = choose|i: int| 0 <= i < v.len() && v[i] == y;
        assert(v.push(x)[i] == y);
    }
}

/// One more board.
proof fn lemma_one_more(
    s: SchemaView,
    v: Typed,
    hosts: Seq<HostAnswersView>,
    duts: Seq<DutAnswersView>,
    taken: Seq<Seq<char>>,
    a: DutAnswersView,
    after: Seq<Seq<char>>,
)
    requires
        named_well(s, v, with_boards(hosts, duts), taken),
        owned_once(s),
        all_taken(s, v, taken),
        still_taken(taken, after),
        after.contains(a.dut_name),
        a.dut_name.len() > 0,
        ({
            let (n, h, d) = (a.dut_name, hosts.len() as int, duts.len() as int);
            ||| n == own_name(s, h, d)
            ||| n == typed_name(v, h, d) && is_typed(v, n) && !is_owned(s, n) && forall|
                i: int,
                e: int,
            |
                is_board(with_boards(hosts, duts), i, e) ==> #[trigger] typed_name(v, i, e) != n
            ||| !taken.contains(n)
        }),
    ensures
        named_well(s, v, with_boards(hosts, duts.push(a)), after),
        all_taken(s, v, after),
{
    let (n, h, d) = (a.dut_name, hosts.len() as int, duts.len() as int);
    let old_hosts = with_boards(hosts, duts);
    let new_hosts = with_boards(hosts, duts.push(a));
    assert forall|i: int, e: int| is_board(new_hosts, i, e) && !(i == h && e == d) implies is_board(
        old_hosts,
        i,
        e,
    ) && #[trigger] board_name(new_hosts, i, e) == board_name(old_hosts, i, e) by {}
    assert(board_name(new_hosts, h, d) == n);
    if !taken.contains(n) {
        if is_owned(s, n) {
            let (i, e) = choose|i: int, e: int| #[trigger] own_name(s, i, e) == n;
            assert(own_name(s, i, e).len() > 0);
        }
        assert(!is_owned(s, n) && !is_typed(v, n));
    }
    assert(has_origin(s, v, n, h, d));
    assert forall|i: int, e: int| is_board(old_hosts, i, e) implies #[trigger] board_name(
        old_hosts,
        i,
        e,
    ) != n by {
        let m = board_name(old_hosts, i, e);
        assert(taken.contains(m) && has_origin(s, v, m, i, e));
        if m == n {
            if n == own_name(s, h, d) {
                assert(is_owned(s, n));
                assert(n == own_name(s, i, e));
            } else if n == typed_name(v, h, d) && is_typed(v, n) && !is_owned(s, n) && taken.contains(n) {
                if n == own_name(s, i, e) {
                    assert(is_owned(s, n));
                }
                assert(typed_name(v, i, e) == n);
            }
        }
    }
    assert(names_differ(new_hosts));
    assert forall|i: int, e: int| is_board(new_hosts, i, e) implies after.contains(
        #[trigger] board_name(new_hosts, i, e),
    ) && has_origin(s, v, board_name(new_hosts, i, e), i, e) by {
        if !(i == h && e == d) {
            assert(board_name(new_hosts, i, e) == board_name(old_hosts, i, e));
        }
    }
}

proof fn lemma_no_boards(s: SchemaView, v: Typed, hosts: Seq<HostAnswersView>, taken: Seq<Seq<char>>)
    requires
        named_well(s, v, hosts, taken),
    ensures
        named_well(s, v, with_boards(hosts, Seq::empty()), taken),
{
    let more = with_boards(hosts, Seq::empty());
    assert forall|h: int, d: int| is_board(more, h, d) implies is_board(hosts, h, d)
        && #[trigger] board_name(more, h, d) == board_name(hosts, h, d) by {}
    assert(names_differ(more));
}

proof fn lemma_same_boards(
    s: SchemaView,
    v: Typed,
    hosts: Seq<HostAnswersView>,
    a: HostAnswersView,
    taken: Seq<Seq<char>>,
)
    requires
        named_well(s, v, with_boards(hosts, a.duts), taken),
    ensures
        named_well(s, v, hosts.push(a), taken),
{
    let one = with_boards(hosts, a.duts);
    let other = hosts.push(a);
    assert forall|h: int, d: int| is_board(other, h, d) implies is_board(one, h, d)
        && #[trigger] board_name(other, h, d) == board_name(one, h, d) by {}
    assert(names_differ(other));
}

proof fn lemma_free(taken: Seq<Seq<char>>)
    ensures
        !taken.contains(next_free("dut"@, taken)),
        next_free("dut"@, taken).len() > 0,
{
    lemma_next_free("dut"@, taken);
    reveal_strlit("dut");
    let n = choose|n: nat| next_free("dut"@, taken) == #[trigger] numbered("dut"@, n);
}

proof fn lemma_with_name(taken: Seq<Seq<char>>, n: Seq<char>)
    ensures
        crate::defaults::with_name(taken, n).contains(n),
        still_taken(taken, crate::defaults::with_name(taken, n)),
{
    lemma_pushed(taken, n);
}

// ── Default answers ──────────────────────────────────────────────────
proof fn lemma_default_duts(
    s: SchemaView,
    hosts: Seq<HostAnswersView>,
    taken: Seq<Seq<char>>,
    d: int,
    n: int,
    before: Seq<DutAnswersView>,
)
    requires
        d == before.len(),
        owned_once(s),
        all_taken(s, Seq::empty(), taken),
        named_well(s, Seq::empty(), with_boards(hosts, before), taken),
    ensures
        ({
            let r = default_duts(host_or_unknown(s, hosts.len() as int), taken, d, n, before);
            &&& named_well(s, Seq::empty(), with_boards(hosts, r.0), r.1)
            &&& all_taken(s, Seq::empty(), r.1)
        }),
    decreases n - d,
{
    if d < n {
        let h = host_or_unknown(s, hosts.len() as int);
        let known = dut_or_unknown(h, d);
        let name = default_name(known, taken);
        let a = crate::defaults::default_dut(known, name);
        let after = crate::defaults::with_name(taken, name);
        lemma_free(taken);
        lemma_with_name(taken, name);
        lemma_one_more(s, Seq::empty(), hosts, before, taken, a, after);
        lemma_default_duts(s, hosts, after, d + 1, n, before.push(a));
    }
}

proof fn lemma_default_hosts(
    s: SchemaView,
    taken: Seq<Seq<char>>,
    h: int,
    n: int,
    before: Seq<HostAnswersView>,
)
    requires
        h == before.len(),
        owned_once(s),
        all_taken(s, Seq::empty(), taken),
        named_well(s, Seq::empty(), before, taken),
    ensures
        names_differ(default_hosts(s, taken, h, n, before)),
    decreases n - h,
{
    if h < n {
        let known = host_or_unknown(s, h);
        let k = at_least_one(known.dut_count) as int;
        lemma_no_boards(s, Seq::empty(), before, taken);
        lemma_default_duts(s, before, taken, 0, k, Seq::empty());
        let (duts, after) = default_duts(known, taken, 0, k, Seq::empty());
        let a = default_host(known, duts);
        lemma_same_boards(s, Seq::empty(), before, a, after);
        lemma_default_hosts(s, after, h + 1, n, before.push(a));
    }
}

// ── Configurations ───────────────────────────────────────────────────
proof fn lemma_dut_names(hosts: Seq<HostView>, n: int, h: int, d: int)
    requires
        0 <= h < n <= hosts.len(),
        0 <= d < hosts[h].duts.len(),
    ensures
        all_dut_names(hosts, n).contains(configured_name(hosts, h, d)),
    decreases n,
{
    let name = configured_name(hosts, h, d);
    let duts = hosts[n - 1].duts;
    let front = all_dut_names(hosts, n - 1);
    let back = dut_names(duts, duts.len() as int);
    if h == n - 1 {
        lemma_names_in_order(duts, duts.len() as int);
        assert((front + back)[front.len() + d] == name);
    } else {
        lemma_dut_names(hosts, n - 1, h, d);
        let i = choose|i: int| 0 <= i < front.len() && front[i] == name;
        assert((front + back)[i] == name);
    }
}

proof fn lemma_names_in_order(duts: Seq<crate::config::DutView>, n: int)
    requires
        0 <= n <= duts.len(),
    ensures
        dut_names(duts, n).len() == n,
        forall|i: int| 0 <= i < n ==> #[trigger] dut_names(duts, n)[i] == duts[i].dut_name,
    decreases n,
{
    if n > 0 {
        lemma_names_in_order(duts, n - 1);
    }
}

proof fn lemma_form_of_configuration(existing: Option<ConfigView>, o: InitOptions)
    requires
        existing matches Some(c) ==> configured_names_differ(c.dev_hosts),
    ensures
        owned_once(schema_of(existing, o)),
        all_taken(schema_of(existing, o), Seq::empty(), schema_of(existing, o).taken_duts),
{
    let s = schema_of(existing, o);
    match existing {
        Some(c) => {
            let hosts = c.dev_hosts;
            assert forall|h: int, d: int| (#[trigger] own_name(s, h, d)).len() > 0 implies 0 <= h
                < hosts.len() && 0 <= d < hosts[h].duts.len() && own_name(s, h, d)
                == configured_name(hosts, h, d) && s.taken_duts.contains(own_name(s, h, d)) by {
                lemma_dut_names(hosts, hosts.len() as int, h, d);
            }
        },
        None => {},
    }
}

/// The default answers give every board a name, and no two the same, unless the
/// configuration did already.
pub proof fn lemma_default_names_differ(existing: Option<ConfigView>, o: InitOptions)
    requires
        existing matches Some(c) ==> configured_names_differ(c.dev_hosts),
    ensures
        names_differ(default_answers(schema_of(existing, o)).hosts),
{
    let s = schema_of(existing, o);
    lemma_form_of_configuration(existing, o);
    lemma_default_hosts(
        s,
        s.taken_duts,
        0,
        at_least_one(s.host_count_default) as int,
        Seq::empty(),
    );
}

// ── Answers to questions ─────────────────────────────────────────────
/// A form like another, but for the names that are taken.
pub open spec fn same_boards(s: SchemaView, t: SchemaView) -> bool {
    s.host_defaults == t.host_defaults
}

proof fn lemma_walked_dut(
    s: SchemaView,
    hosts: Seq<HostAnswersView>,
    before: Seq<DutAnswersView>,
    w: WalkView,
)
    requires
        hosts.len() <= usize::MAX,
        before.len() <= usize::MAX,
        same_boards(s, w.form),
        owned_once(s),
        all_taken(s, Seq::empty(), w.form.taken_duts),
        named_well(s, Seq::empty(), with_boards(hosts, before), w.form.taken_duts),
        walked_dut(w, hosts.len() as usize, before.len() as usize).1.talk.1 is None,
    ensures
        ({
            let (a, x) = walked_dut(w, hosts.len() as usize, before.len() as usize);
            &&& same_boards(s, x.form)
            &&& all_taken(s, Seq::empty(), x.form.taken_duts)
            &&& named_well(
                s,
                Seq::empty(),
                with_boards(hosts, before.push(a)),
                x.form.taken_duts,
            )
        }),
{
    let (h, d) = (hosts.len() as usize, before.len() as usize);
    let taken = w.form.taken_duts;
    let (a, x) = walked_dut(w, h, d);
    let f = materialized(w.form, dut_group_of(), h, d);
    let n = asked_name(w.talk, f[0].label, f[0].default, taken);
    assert(n.talk.1 is None);
    lemma_free(taken);
    lemma_pushed(taken, n.name);
    lemma_with_name(taken, n.name);
    lemma_one_more(s, Seq::empty(), hosts, before, taken, a, x.form.taken_duts);
}

proof fn lemma_walked_duts(
    s: SchemaView,
    hosts: Seq<HostAnswersView>,
    before: Seq<DutAnswersView>,
    w: WalkView,
    d: int,
    n: int,
)
    requires
        d == before.len(),
        n <= usize::MAX,
        hosts.len() <= usize::MAX,
        same_boards(s, w.form),
        owned_once(s),
        all_taken(s, Seq::empty(), w.form.taken_duts),
        named_well(s, Seq::empty(), with_boards(hosts, before), w.form.taken_duts),
        walked_duts(before, w, hosts.len() as usize, d, n).1.talk.1 is None,
    ensures
        ({
            let (duts, x) = walked_duts(before, w, hosts.len() as usize, d, n);
            &&& same_boards(s, x.form)
            &&& all_taken(s, Seq::empty(), x.form.taken_duts)
            &&& named_well(s, Seq::empty(), with_boards(hosts, duts), x.form.taken_duts)
        }),
    decreases n - d,
{
    if d < n && w.talk.1 is None {
        let (a, x) = walked_dut(w, hosts.len() as usize, d as usize);
        if x.talk.1 is Some {
            assert(walked_duts(before.push(a), x, hosts.len() as usize, d + 1, n).1 == x);
        }
        lemma_walked_dut(s, hosts, before, w);
        lemma_walked_duts(s, hosts, before.push(a), x, d + 1, n);
    }
}

proof fn lemma_walked_hosts(
    s: SchemaView,
    before: Seq<HostAnswersView>,
    w: WalkView,
    h: int,
    n: int,
)
    requires
        h == before.len(),
        n <= usize::MAX,
        same_boards(s, w.form),
        owned_once(s),
        all_taken(s, Seq::empty(), w.form.taken_duts),
        named_well(s, Seq::empty(), before, w.form.taken_duts),
        walked_hosts(before, w, h, n).1.talk.1 is None,
    ensures
        names_differ(walked_hosts(before, w, h, n).0),
    decreases n - h,
{
    if h < n && w.talk.1 is None {
        let (a, x) = walked_host(w, h as usize);
        if x.talk.1 is Some {
            assert(walked_hosts(before.push(a), x, h + 1, n).1 == x);
        }
        let f = materialized(w.form, host_group_of(), h as usize, 0);
        let k = crate::ask::asked_count(
            crate::ask::asked_optional(
                crate::ask::asked_optional(
                    crate::ask::asked_optional(
                        crate::ask::asked_required(w.talk, f[0].label, or_empty(f[0].default)).1,
                        f[1].label,
                        or_empty(f[1].default),
                    ).1,
                    f[2].label,
                    or_empty(f[2].default),
                ).1,
                f[3].label,
                or_empty(f[3].default),
            ).1,
            f[4].label,
            crate::walk::spelled_count(f[4].default),
        );
        lemma_no_boards(s, Seq::empty(), before, w.form.taken_duts);
        lemma_walked_duts(s, before, Seq::empty(), talking(w, k.1), 0, k.0 as int);
        lemma_same_boards(s, Seq::empty(), before, a, x.form.taken_duts);
        lemma_walked_hosts(s, before.push(a), x, h + 1, n);
    }
}

/// The answers to the questions give every board a name, and no two the same,
/// unless the configuration did already.
pub proof fn lemma_walked_names_differ(existing: Option<ConfigView>, o: InitOptions, t: TalkView)
    requires
        existing matches Some(c) ==> configured_names_differ(c.dev_hosts),
        walked(schema_of(existing, o), t).1.talk.1 is None,
    ensures
        names_differ(walked(schema_of(existing, o), t).0.hosts),
{
    let s = schema_of(existing, o);
    lemma_form_of_configuration(existing, o);
    let f = materialized(s, host_count_group_of(), 0, 0);
    let (n, k) = crate::ask::asked_count((t, None), f[0].label, s.host_count_default);
    let w = WalkView { form: s, announcements: Seq::empty(), talk: k };
    let x = walked_hosts(Seq::empty(), w, 0, n as int).1;
    if x.talk.1 is Some {
        lemma_keys_after_the_end(x.talk, s);
    }
    lemma_walked_hosts(s, Seq::empty(), w, 0, n as int);
}

proof fn lemma_keys_after_the_end(k: Talk, s: SchemaView)
    requires
        k.1 is Some,
    ensures
        crate::walk::gated(k, s.advanced_gate).1 == k,
        crate::walk::walked_keys(
            crate::text_map::Pairs::empty(),
            k,
            s.advanced_current,
            crate::advanced::advanced_table(),
            0,
        ).1 == k,
{
}

// ── Answers typed into a form ────────────────────────────────────────
proof fn lemma_typed_at(v: Typed, key: KeyView, i: int) -> (j: int)
    requires
        0 <= i,
        typed_from(v, key, i) is Some,
    ensures
        i <= j < v.len(),
        v[j].0 == key,
        typed_from(v, key, i) == Some(v[j].1),
    decreases v.len() - i,
{
    if v[i].0 == key {
        i
    } else {
        lemma_typed_at(v, key, i + 1)
    }
}

proof fn lemma_times_prefix(names: Seq<Seq<char>>, x: Seq<char>, t: Seq<char>, n: int)
    requires
        0 <= n <= names.len(),
    ensures
        times(names.push(x), t, n) == times(names, t, n),
    decreases n,
{
    if n > 0 {
        lemma_times_prefix(names, x, t, n - 1);
    }
}

/// A name that was typed is among the names; one typed in two places is there
/// twice.
proof fn lemma_typed_names(v: Typed, n: int, i: int, j: int)
    requires
        0 <= i <= j < n <= v.len(),
        v[i].0 is DutName,
        v[j].0 is DutName,
        trimmed(v[i].1) == trimmed(v[j].1),
    ensures
        typed_names(v, n).contains(trimmed(v[i].1)),
        times(typed_names(v, n), trimmed(v[i].1), typed_names(v, n).len() as int) >= (if i == j {
            1nat
        } else {
            2nat
        }),
    decreases n,
{
    let t = trimmed(v[i].1);
    let front = typed_names(v, n - 1);
    if v[n - 1].0 is DutName {
        let x = trimmed(v[n - 1].1);
        lemma_times_prefix(front, x, t, front.len() as int);
        lemma_pushed(front, x);
    }
    if j < n - 1 {
        lemma_typed_names(v, n - 1, i, j);
    } else if i < j {
        lemma_typed_names(v, n - 1, i, i);
    }
}

proof fn lemma_with_names(taken: Seq<Seq<char>>, names: Seq<Seq<char>>, n: int)
    requires
        0 <= n <= names.len(),
    ensures
        still_taken(taken, with_names(taken, names, n)),
        forall|i: int|
            0 <= i < n && (#[trigger] names[i]).len() > 0 ==> with_names(taken, names, n).contains(
                names[i],
            ),
    decreases n,
{
    if n > 0 {
        lemma_with_names(taken, names, n - 1);
        lemma_pushed(with_names(taken, names, n - 1), names[n - 1]);
    }
}

/// What follows the name of a board takes no name and mends nothing.
pub open spec fn goes_on(p: ProgressView, q: ProgressView) -> bool {
    q.taken == p.taken && p.errors.len() <= q.errors.len()
}

proof fn lemma_dut_keys_go_on(
    map: crate::text_map::Pairs,
    p: ProgressView,
    s: SchemaView,
    v: Typed,
    h: usize,
    d: usize,
    fields: Seq<crate::form::FieldView>,
    i: int,
)
    ensures
        goes_on(p, crate::resolve::resolved_dut_keys(map, p, s, v, h, d, fields, i).1),
    decreases fields.len() - i,
{
    if 0 <= i < fields.len() {
        match fields[i].key {
            crate::form::FragView::DutAdvanced(k) => {
                let (m, q) = crate::resolve::resolved_dut_key(
                    map,
                    p,
                    s,
                    v,
                    h,
                    d,
                    k,
                    fields[i].empty,
                );
                lemma_dut_keys_go_on(m, q, s, v, h, d, fields, i + 1);
            },
            _ => lemma_dut_keys_go_on(map, p, s, v, h, d, fields, i + 1),
        }
    }
}

proof fn lemma_keys_go_on(
    map: crate::text_map::Pairs,
    p: ProgressView,
    s: SchemaView,
    v: Typed,
    table: Seq<crate::advanced::AdvFieldView>,
    i: int,
)
    ensures
        goes_on(p, crate::resolve::resolved_keys(map, p, s, v, table, i).1),
    decreases table.len() - i,
{
    if 0 <= i < table.len() {
        let (m, q) = crate::resolve::resolved_key(map, p, s, v, table[i]);
        lemma_keys_go_on(m, q, s, v, table, i + 1);
        lemma_keys_go_on(map, p, s, v, table, i + 1);
    }
}

proof fn lemma_relay_goes_on(
    p: ProgressView,
    v: Typed,
    h: usize,
    d: usize,
    known: crate::schema::DutDefaultsView,
)
    ensures
        goes_on(p, crate::resolve::resolved_relay(p, v, h, d, known).1),
{
}

/// What is named before, as far as typed names are concerned: the positions can
/// be told apart.
pub open spec fn in_reach(hosts: Seq<HostAnswersView>) -> bool {
    &&& hosts.len() <= usize::MAX
    &&& forall|h: int| 0 <= h < hosts.len() ==> (#[trigger] hosts[h]).duts.len() <= usize::MAX
}

proof fn lemma_resolved_dut(
    s: SchemaView,
    v: Typed,
    policy: NamePolicy,
    hosts: Seq<HostAnswersView>,
    before: Seq<DutAnswersView>,
    p: ProgressView,
)
    requires
        hosts.len() < usize::MAX,
        before.len() < usize::MAX,
        in_reach(with_boards(hosts, before)),
        owned_once(s),
        all_taken(s, Seq::empty(), s.taken_duts),
        all_taken(s, v, p.taken),
        named_well(s, v, with_boards(hosts, before), p.taken),
    ensures
        ({
            let (h, d) = (hosts.len() as usize, before.len() as usize);
            let known = dut_or_unknown(host_or_unknown(s, h as int), d as int);
            let (a, q) = resolved_dut(p, s, v, policy, h, d, known);
            &&& p.errors.len() <= q.errors.len()
            &&& q.errors.len() == 0 ==> all_taken(s, v, q.taken) && named_well(
                s,
                v,
                with_boards(hosts, before.push(a)),
                q.taken,
            )
        }),
{
    let (h, d) = (hosts.len() as usize, before.len() as usize);
    let known = dut_or_unknown(host_or_unknown(s, h as int), d as int);
    let (a, q) = resolved_dut(p, s, v, policy, h, d, known);
    let key = KeyView::DutName(h, d);
    let raw = typed_value(v, key);
    let names = typed_names(v, v.len() as int);
    let (name, p1) = resolved_name(p, key, raw, known.dut_name, names, s.taken_duts, policy);
    let (port, p2) = crate::resolve::port_of(
        p1,
        KeyView::DutPort(h, d),
        typed_value(v, KeyView::DutPort(h, d)),
        known.serial_port,
    );
    let (gate, p3) = crate::resolve::relay_gate_of(
        p2,
        KeyView::DutRelayGate(h, d),
        typed_value(v, KeyView::DutRelayGate(h, d)),
        known.relay_gate,
    );
    lemma_relay_goes_on(p3, v, h, d, known);
    let p4 = if gate {
        crate::resolve::resolved_relay(p3, v, h, d, known).1
    } else {
        p3
    };
    lemma_dut_keys_go_on(
        crate::text_map::Pairs::empty(),
        p4,
        s,
        v,
        h,
        d,
        crate::form::dut_advanced_group_of().fields,
        0,
    );
    assert(goes_on(p1, q));
    assert(a.dut_name == name);
    lemma_free(p.taken);
    lemma_pushed(p.taken, name);
    lemma_with_name(p.taken, name);
    let t = cleaned(raw);
    if q.errors.len() == 0 {
        if t.len() > 0 && !name_collides(names, s.taken_duts, known.dut_name, t) {
            assert(t == typed_name(v, h as int, d as int));
            assert(raw is Some) by {
                if raw is None {
                    assert(trimmed(Seq::<char>::empty()).len() == 0);
                }
            }
            let j = lemma_typed_at(v, key, 0);
            lemma_typed_names(v, v.len() as int, j, j);
            if own_name(s, h as int, d as int) != t {
                if is_owned(s, t) {
                    let (i, e) = choose|i: int, e: int| #[trigger] own_name(s, i, e) == t;
                    assert(own_name(s, i, e).len() > 0);
                }
                let all = with_boards(hosts, before);
                assert forall|i: int, e: int| is_board(all, i, e) implies #[trigger] typed_name(
                    v,
                    i,
                    e,
                ) != t by {
                    if typed_name(v, i, e) == t {
                        assert(all[i].duts.len() <= usize::MAX);
                        let other = KeyView::DutName(i as usize, e as usize);
                        assert(typed_value(v, other) is Some) by {
                            if typed_value(v, other) is None {
                                assert(trimmed(Seq::<char>::empty()).len() == 0);
                            }
                        }
                        let k = lemma_typed_at(v, other, 0);
                        assert(other != key);
                        if j < k {
                            lemma_typed_names(v, v.len() as int, j, k);
                        } else {
                            lemma_typed_names(v, v.len() as int, k, j);
                        }
                    }
                }
            }
        }
        lemma_one_more(s, v, hosts, before, p.taken, a, q.taken);
    }
}

proof fn lemma_resolved_duts(
    s: SchemaView,
    v: Typed,
    policy: NamePolicy,
    hosts: Seq<HostAnswersView>,
    before: Seq<DutAnswersView>,
    p: ProgressView,
    d: int,
    n: int,
)
    requires
        d == before.len(),
        d <= n <= usize::MAX,
        hosts.len() < usize::MAX,
        in_reach(hosts),
        owned_once(s),
        all_taken(s, Seq::empty(), s.taken_duts),
        p.errors.len() == 0 ==> all_taken(s, v, p.taken) && named_well(
            s,
            v,
            with_boards(hosts, before),
            p.taken,
        ),
    ensures
        ({
            let h = hosts.len() as usize;
            let known = host_or_unknown(s, h as int);
            let (duts, q) = resolved_duts(before, p, s, v, policy, h, known, d, n);
            &&& p.errors.len() <= q.errors.len()
            &&& duts.len() == n
            &&& q.errors.len() == 0 ==> all_taken(s, v, q.taken) && named_well(
                s,
                v,
                with_boards(hosts, duts),
                q.taken,
            )
        }),
    decreases n - d,
{
    let h = hosts.len() as usize;
    let known = host_or_unknown(s, h as int);
    if d < n {
        let (a, q) = resolved_dut(p, s, v, policy, h, d as usize, dut_or_unknown(known, d));
        lemma_errors_stay(p, s, v, policy, h, d as usize, dut_or_unknown(known, d));
        if p.errors.len() == 0 {
            let all = with_boards(hosts, before);
            assert forall|i: int| 0 <= i < all.len() implies (#[trigger] all[i]).duts.len()
                <= usize::MAX by {}
            lemma_resolved_dut(s, v, policy, hosts, before, p);
        }
        lemma_resolved_duts(s, v, policy, hosts, before.push(a), q, d + 1, n);
    }
}

proof fn lemma_errors_stay(
    p: ProgressView,
    s: SchemaView,
    v: Typed,
    policy: NamePolicy,
    h: usize,
    d: usize,
    known: crate::schema::DutDefaultsView,
)
    ensures
        p.errors.len() <= resolved_dut(p, s, v, policy, h, d, known).1.errors.len(),
{
    let key = KeyView::DutName(h, d);
    let names = typed_names(v, v.len() as int);
    let (name, p1) = resolved_name(
        p,
        key,
        typed_value(v, key),
        known.dut_name,
        names,
        s.taken_duts,
        policy,
    );
    let (port, p2) = crate::resolve::port_of(
        p1,
        KeyView::DutPort(h, d),
        typed_value(v, KeyView::DutPort(h, d)),
        known.serial_port,
    );
    let (gate, p3) = crate::resolve::relay_gate_of(
        p2,
        KeyView::DutRelayGate(h, d),
        typed_value(v, KeyView::DutRelayGate(h, d)),
        known.relay_gate,
    );
    lemma_relay_goes_on(p3, v, h, d, known);
    let p4 = if gate {
        crate::resolve::resolved_relay(p3, v, h, d, known).1
    } else {
        p3
    };
    lemma_dut_keys_go_on(
        crate::text_map::Pairs::empty(),
        p4,
        s,
        v,
        h,
        d,
        crate::form::dut_advanced_group_of().fields,
        0,
    );
}

proof fn lemma_resolved_hosts(
    s: SchemaView,
    v: Typed,
    policy: NamePolicy,
    before: Seq<HostAnswersView>,
    p: ProgressView,
    h: int,
    n: int,
)
    requires
        h == before.len(),
        h <= n <= usize::MAX,
        in_reach(before),
        owned_once(s),
        all_taken(s, Seq::empty(), s.taken_duts),
        p.errors.len() == 0 ==> all_taken(s, v, p.taken) && named_well(s, v, before, p.taken),
    ensures
        ({
            let (hosts, q) = resolved_hosts(before, p, s, v, policy, h, n);
            &&& p.errors.len() <= q.errors.len()
            &&& q.errors.len() == 0 ==> names_differ(hosts)
        }),
    decreases n - h,
{
    if h < n {
        let known = host_or_unknown(s, h);
        let (ip, p1) = crate::resolve::required_of(
            p,
            KeyView::HostIp(h as usize),
            typed_value(v, KeyView::HostIp(h as usize)),
            known.ip,
        );
        let (k, p2) = counted_or(
            p1,
            KeyView::DutCount(h as usize),
            typed_value(v, KeyView::DutCount(h as usize)),
            at_least_one(known.dut_count),
        );
        if p2.errors.len() == 0 {
            lemma_no_boards(s, v, before, p.taken);
        }
        lemma_resolved_duts(s, v, policy, before, Seq::empty(), p2, 0, k as int);
        let (a, q) = resolved_host(p, s, v, policy, h as usize);
        if q.errors.len() == 0 {
            lemma_same_boards(s, v, before, a, q.taken);
        }
        lemma_resolved_hosts(s, v, policy, before.push(a), q, h + 1, n);
    }
}

/// The answers typed into a form, where nothing is wrong with them, give every
/// board a name, and no two the same, unless the configuration did already.
pub proof fn lemma_resolved_names_differ(
    existing: Option<ConfigView>,
    o: InitOptions,
    v: Typed,
    gate: bool,
    policy: NamePolicy,
)
    requires
        existing matches Some(c) ==> configured_names_differ(c.dev_hosts),
        resolved(schema_of(existing, o), v, gate, policy).1.len() == 0,
    ensures
        names_differ(resolved(schema_of(existing, o), v, gate, policy).0.hosts),
{
    let s = schema_of(existing, o);
    lemma_form_of_configuration(existing, o);
    let names = typed_names(v, v.len() as int);
    let p = start_of(s, v);
    lemma_with_names(s.taken_duts, names, names.len() as int);
    assert forall|n: Seq<char>| n.len() > 0 && #[trigger] is_typed(v, n) implies p.taken.contains(
        n,
    ) by {
        let i = choose|i: int| 0 <= i < names.len() && names[i] == n;
        assert(names[i].len() > 0);
    }
    assert(all_taken(s, v, p.taken));
    let (n, p1) = counted_or(
        p,
        KeyView::HostCount,
        typed_value(v, KeyView::HostCount),
        s.host_count_default,
    );
    lemma_resolved_hosts(s, v, policy, Seq::empty(), p1, 0, n as int);
    let p2 = resolved_hosts(Seq::empty(), p1, s, v, policy, 0, n as int).1;
    lemma_keys_go_on(
        crate::text_map::Pairs::empty(),
        p2,
        s,
        v,
        crate::advanced::advanced_table(),
        0,
    );
}

} // verus!

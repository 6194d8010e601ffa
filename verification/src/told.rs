//! A name that is taken is never taken silently: it is refused, or another one
//! is taken and that is told.
use crate::advanced::{
    advanced_table, dut_owned, literal_of, natural_default, AdvFieldView, EmptyMeans,
};
use crate::answers::{DutAnswersView, HostAnswersView};
use crate::ask::{
    asked_advanced, asked_count, asked_dut_key, asked_name, asked_optional, asked_port,
    asked_relay, asked_required, not_zero_port,
};
use crate::defaults::{dut_or_unknown, host_or_unknown, text_or};
use crate::fields::{at_least_one, dut_current_value, dut_default_of, materialized, InstanceView};
use crate::form::{
    dut_advanced_group_of, dut_group_of, host_count_group_of, host_group_of, typed_names,
    typed_value, FieldView, FragView, KeyView, Typed,
};
use crate::naming::{lemma_next_free, next_free};
use crate::number::{decimal, unsigned};
use crate::prompt::{asked, confirmed, noted, NoteKind, Shown, Talk, TalkView};
use crate::resolve::{
    check_pattern, cleaned, counted_or, name_collides, no_relay_answers, not_a_count, port_of,
    relay_gate_of, required_of, resolved, resolved_dut, resolved_dut_key, resolved_dut_keys,
    resolved_duts, resolved_host, resolved_hosts, resolved_key, resolved_keys, resolved_name,
    resolved_relay, start_of, NamePolicy, ProgressView,
};
use crate::schema::{DutDefaultsView, HostDefaultsView, SchemaView};
use crate::text::{or_empty, trimmed};
use crate::text_map::{lookup, Pairs};
use crate::walk::{
    announced, gated, key_applies, put_unless_empty, relay_question, spelled_count, talking,
    walked, walked_dut, walked_dut_keys, walked_duts, walked_host, walked_hosts, walked_keys,
    walked_number, walked_relay, WalkView,
};
use vstd::prelude::*;

verus! {

// ── Questions ────────────────────────────────────────────────────────
/// Whether a conversation goes on: what was put to the user before was put
/// before.
pub open spec fn goes_on(k: Talk, l: Talk) -> bool {
    k.0.shown.is_prefix_of(l.0.shown)
}

proof fn lemma_goes_on_twice(k: Talk, l: Talk, m: Talk)
    requires
        goes_on(k, l),
        goes_on(l, m),
    ensures
        goes_on(k, m),
{
    assert forall|i: int| 0 <= i < k.0.shown.len() implies k.0.shown[i] == m.0.shown[i] by {
        assert(k.0.shown[i] == l.0.shown[i]);
    }
}

proof fn lemma_asked(k: Talk, prompt: Seq<char>, default: Option<Seq<char>>)
    ensures
        goes_on(k, asked(k, prompt, default).1),
{
}

proof fn lemma_noted(k: Talk, kind: NoteKind, msg: Seq<char>)
    ensures
        goes_on(k, noted(k, kind, msg)),
{
}

proof fn lemma_confirmed(k: Talk, prompt: Seq<char>, default: bool)
    ensures
        goes_on(k, confirmed(k, prompt, default).1),
{
}

proof fn lemma_count(k: Talk, prompt: Seq<char>, default: usize)
    ensures
        goes_on(k, asked_count(k, prompt, default).1),
    decreases k.0.lines.len(),
{
    let (raw, k1) = asked(k, prompt, Some(decimal(default as nat)));
    lemma_asked(k, prompt, Some(decimal(default as nat)));
    if k1.1 is None && trimmed(raw).len() > 0 && unsigned(trimmed(raw), usize::MAX as nat) is None {
        let k2 = noted(k1, NoteKind::Error, not_a_count(trimmed(raw)));
        lemma_count(k2, prompt, default);
        lemma_goes_on_twice(k, k1, k2);
        lemma_goes_on_twice(k, k2, asked_count(k2, prompt, default).1);
    }
}

proof fn lemma_required(k: Talk, prompt: Seq<char>, default: Seq<char>)
    ensures
        goes_on(k, asked_required(k, prompt, default).1),
    decreases k.0.lines.len(),
{
    let (raw, k1) = asked(k, prompt + " (required)"@, Some(default));
    lemma_asked(k, prompt + " (required)"@, Some(default));
    if k1.1 is None && trimmed(raw).len() == 0 && default.len() == 0 {
        let k2 = noted(k1, NoteKind::Error, "value is required"@);
        lemma_required(k2, prompt, default);
        lemma_goes_on_twice(k, k1, k2);
        lemma_goes_on_twice(k, k2, asked_required(k2, prompt, default).1);
    }
}

proof fn lemma_relay_number(
    k: Talk,
    label: Seq<char>,
    default: Option<Seq<char>>,
    empty: EmptyMeans,
    key: Seq<char>,
)
    ensures
        goes_on(k, asked_relay(k, label, default, empty, key).1),
    decreases k.0.lines.len(),
{
    let (raw, k1) = asked(k, label, default);
    lemma_asked(k, label, default);
    if k1.1 is None && trimmed(raw).len() > 0 {
        if let Err(e) = literal_of(key, trimmed(raw)) {
            let k2 = noted(k1, NoteKind::Error, e);
            lemma_relay_number(k2, label, default, empty, key);
            lemma_goes_on_twice(k, k1, k2);
            lemma_goes_on_twice(k, k2, asked_relay(k2, label, default, empty, key).1);
        }
    }
}

proof fn lemma_board_key(
    k: Talk,
    label: Seq<char>,
    hint: Seq<char>,
    now: Option<Seq<char>>,
    empty: EmptyMeans,
    key: Seq<char>,
)
    ensures
        goes_on(k, asked_dut_key(k, label, hint, now, empty, key).1),
    decreases k.0.lines.len(),
{
    let (raw, k1) = asked(k, label, Some(hint));
    let t = trimmed(raw);
    lemma_asked(k, label, Some(hint));
    if k1.1 is None {
        let again = if t.len() > 0 {
            match literal_of(key, t) {
                Ok(_) => None,
                Err(e) => Some(e),
            }
        } else if key != "serial.baudrate"@ && key == "uboot.pattern"@ {
            Some("uboot.pattern is required for pattern strategy"@)
        } else {
            None
        };
        if let Some(e) = again {
            let k2 = noted(k1, NoteKind::Error, e);
            lemma_board_key(k2, label, hint, now, empty, key);
            lemma_goes_on_twice(k, k1, k2);
            lemma_goes_on_twice(k, k2, asked_dut_key(k2, label, hint, now, empty, key).1);
        }
    }
}

proof fn lemma_advanced(
    k: Talk,
    label: Seq<char>,
    empty: EmptyMeans,
    key: Seq<char>,
    default: Seq<char>,
)
    ensures
        goes_on(k, asked_advanced(k, label, empty, key, default).1),
    decreases k.0.lines.len(),
{
    let (raw, k1) = asked(k, label, Some(default));
    lemma_asked(k, label, Some(default));
    if k1.1 is None && trimmed(raw).len() > 0 {
        if let Err(e) = literal_of(key, trimmed(raw)) {
            let k2 = noted(k1, NoteKind::Error, e);
            lemma_advanced(k2, label, empty, key, default);
            lemma_goes_on_twice(k, k1, k2);
            lemma_goes_on_twice(k, k2, asked_advanced(k2, label, empty, key, default).1);
        }
    }
}

/// A name that was typed and is taken gives way to the first free one, and that
/// is told.
pub proof fn lemma_taken_name_gives_way(
    k: Talk,
    prompt: Seq<char>,
    default: Option<Seq<char>>,
    taken: Seq<Seq<char>>,
)
    ensures
        ({
            let free = next_free("dut"@, taken);
            let def = match default {
                Some(d) => d,
                None => free,
            };
            let (raw, k1) = asked(k, prompt, Some(def));
            let t = trimmed(raw);
            let n = asked_name(k, prompt, default, taken);
            k1.1 is None && t.len() > 0 && t != def && taken.contains(t) ==> {
                &&& n.name == free
                &&& !taken.contains(n.name)
                &&& n.note == Some("dut name '"@ + t + "' already taken — using '"@ + free + "'"@)
                &&& n.taken == taken.push(free)
                &&& n.talk.0.shown.last() == Shown::Note(NoteKind::Info, n.note->0)
            }
        }),
{
    lemma_next_free("dut"@, taken);
}

// ── All questions ────────────────────────────────────────────────────
/// Whether everything that was announced was told, and every name is among
/// those that are taken.
pub open spec fn all_told(w: WalkView) -> bool {
    forall|i: int|
        0 <= i < w.announcements.len() ==> w.talk.0.shown.contains(
            Shown::Note(NoteKind::Info, #[trigger] w.announcements[i]),
        )
}

proof fn lemma_still_told(w: WalkView, x: WalkView)
    requires
        all_told(w),
        goes_on(w.talk, x.talk),
        w.announcements == x.announcements,
    ensures
        all_told(x),
{
    assert forall|i: int| 0 <= i < x.announcements.len() implies x.talk.0.shown.contains(
        Shown::Note(NoteKind::Info, #[trigger] x.announcements[i]),
    ) by {
        let note = Shown::Note(NoteKind::Info, w.announcements[i]);
        assert(w.talk.0.shown.contains(note));
        let j = choose|j: int| 0 <= j < w.talk.0.shown.len() && w.talk.0.shown[j] == note;
        assert(x.talk.0.shown[j] == note);
    }
}

proof fn lemma_port(k: Talk, prompt: Seq<char>, default: Seq<char>)
    ensures
        goes_on(k, asked_port(k, prompt, default).1),
{
    let (port, k1) = asked_required(k, prompt, default);
    lemma_required(k, prompt, default);
    lemma_not_zero(k1, port);
    lemma_goes_on_twice(k, k1, not_zero_port(k1, port).1);
}

proof fn lemma_not_zero(k: Talk, port: Seq<char>)
    ensures
        goes_on(k, not_zero_port(k, port).1),
    decreases k.0.lines.len(),
{
    if k.1 is None && trimmed(port) == "0"@ {
        let k1 = noted(k, NoteKind::Error, "serial.port cannot be 0"@);
        let prompt = "Serial port must be non-zero"@;
        let (again, k2) = asked_required(k1, prompt, Seq::empty());
        lemma_required(k1, prompt, Seq::empty());
        lemma_goes_on_twice(k, k1, k2);
        if k2.0.lines.len() < k.0.lines.len() {
            lemma_not_zero(k2, again);
            lemma_goes_on_twice(k, k2, not_zero_port(k2, again).1);
        }
    }
}

proof fn lemma_optional(k: Talk, prompt: Seq<char>, default: Seq<char>)
    ensures
        goes_on(k, asked_optional(k, prompt, default).1),
{
    lemma_asked(k, prompt, Some(default));
}

proof fn lemma_relay_questions(k: Talk, f: Seq<InstanceView>)
    ensures
        goes_on(k, walked_relay(k, f).1),
{
    let (_, k1) = asked_optional(k, f[4].label, or_empty(f[4].default));
    lemma_optional(k, f[4].label, or_empty(f[4].default));
    let (_, k2) = walked_number(k1, f[5], "relay.port"@);
    lemma_relay_number(k1, f[5].label, f[5].default, f[5].empty, "relay.port"@);
    lemma_goes_on_twice(k, k1, k2);
    let (_, k3) = walked_number(k2, f[6], "relay.reset_ch"@);
    lemma_relay_number(k2, f[6].label, f[6].default, f[6].empty, "relay.reset_ch"@);
    lemma_goes_on_twice(k, k2, k3);
    let (_, k4) = walked_number(k3, f[7], "relay.download_ch"@);
    lemma_relay_number(k3, f[7].label, f[7].default, f[7].empty, "relay.download_ch"@);
    lemma_goes_on_twice(k, k3, k4);
    let (_, k5) = walked_number(k4, f[8], "relay.power_ch"@);
    lemma_relay_number(k4, f[8].label, f[8].default, f[8].empty, "relay.power_ch"@);
    lemma_goes_on_twice(k, k4, k5);
    let (_, k6) = walked_number(k5, f[9], "relay.reset_time_ms"@);
    lemma_relay_number(k5, f[9].label, f[9].default, f[9].empty, "relay.reset_time_ms"@);
    lemma_goes_on_twice(k, k5, k6);
    let (_, k7) = walked_number(k6, f[10], "relay.power_off_time_ms"@);
    lemma_relay_number(k6, f[10].label, f[10].default, f[10].empty, "relay.power_off_time_ms"@);
    lemma_goes_on_twice(k, k6, k7);
}

proof fn lemma_board_keys(
    map: Pairs,
    k: Talk,
    s: SchemaView,
    h: usize,
    d: usize,
    name: Seq<char>,
    fields: Seq<FieldView>,
    i: int,
)
    requires
        0 <= i,
    ensures
        goes_on(k, walked_dut_keys(map, k, s, h, d, name, fields, i).1),
    decreases fields.len() - i,
{
    if i < fields.len() && k.1 is None {
        match fields[i].key {
            FragView::DutAdvanced(key) => {
                if key_applies(map, s, h, d, key) {
                    let hint = dut_default_of(s, h, d, key, Some(name));
                    let now = dut_current_value(s, h, d, key);
                    let (v, k1) = asked_dut_key(k, fields[i].label, hint, now, fields[i].empty, key);
                    lemma_board_key(k, fields[i].label, hint, now, fields[i].empty, key);
                    let next = if k1.1 is Some {
                        map
                    } else {
                        put_unless_empty(map, key, v)
                    };
                    lemma_board_keys(next, k1, s, h, d, name, fields, i + 1);
                    lemma_goes_on_twice(
                        k,
                        k1,
                        walked_dut_keys(next, k1, s, h, d, name, fields, i + 1).1,
                    );
                } else {
                    lemma_board_keys(map, k, s, h, d, name, fields, i + 1);
                }
            },
            _ => {
                lemma_board_keys(map, k, s, h, d, name, fields, i + 1);
            },
        }
    }
}

/// Whether the names that were taken still are.
pub open spec fn keeps_names(w: WalkView, x: WalkView) -> bool {
    w.form.taken_duts.is_prefix_of(x.form.taken_duts)
}

proof fn lemma_board(w: WalkView, h: usize, d: usize)
    requires
        all_told(w),
        w.talk.1 is None,
    ensures
        ({
            let (a, x) = walked_dut(w, h, d);
            &&& all_told(x)
            &&& keeps_names(w, x)
            &&& x.talk.1 is None ==> x.form.taken_duts.contains(a.dut_name)
        }),
{
    let f = materialized(w.form, dut_group_of(), h, d);
    let n = asked_name(w.talk, f[0].label, f[0].default, w.form.taken_duts);
    let free = next_free("dut"@, w.form.taken_duts);
    let def = match f[0].default {
        Some(x) => x,
        None => free,
    };
    let (raw, k0) = asked(w.talk, f[0].label, Some(def));
    lemma_asked(w.talk, f[0].label, Some(def));
    let form = SchemaView { taken_duts: n.taken, ..w.form };
    let named = WalkView { form, announcements: announced(w.announcements, n.note), talk: n.talk };
    assert(all_told(named)) by {
        lemma_still_told(w, talking(w, k0));
        if let Some(note) = n.note {
            lemma_noted(k0, NoteKind::Info, note);
            lemma_still_told(talking(w, k0), talking(w, n.talk));
            let told = Shown::Note(NoteKind::Info, note);
            assert(n.talk.0.shown.last() == told);
            assert(n.talk.0.shown.contains(told));
            assert forall|i: int|
                0 <= i < named.announcements.len() implies named.talk.0.shown.contains(
                Shown::Note(NoteKind::Info, #[trigger] named.announcements[i]),
            ) by {
                if i < w.announcements.len() {
                    let before = talking(w, n.talk);
                    assert(before.talk.0.shown.contains(
                        Shown::Note(NoteKind::Info, before.announcements[i]),
                    ));
                }
            }
        }
    }
    assert(n.talk.1 is None ==> n.taken.contains(n.name)) by {
        if n.talk.1 is None {
            let t = trimmed(raw);
            if t.len() == 0 || t == def {
                if def.len() > 0 && !w.form.taken_duts.contains(def) {
                    assert(n.taken.last() == def);
                }
            }
            assert(n.taken == w.form.taken_duts || n.taken.last() == n.name);
        }
    }
    let (_, k1) = asked_port(n.talk, f[1].label, or_empty(f[1].default));
    lemma_port(n.talk, f[1].label, or_empty(f[1].default));
    let (_, k2) = asked_optional(k1, f[2].label, or_empty(f[2].default));
    lemma_optional(k1, f[2].label, or_empty(f[2].default));
    lemma_goes_on_twice(n.talk, k1, k2);
    let (gate, k3) = confirmed(k2, relay_question(n.name), f[3].default == Some("yes"@));
    lemma_confirmed(k2, relay_question(n.name), f[3].default == Some("yes"@));
    lemma_goes_on_twice(n.talk, k2, k3);
    let (_, k4) = if gate {
        walked_relay(k3, f)
    } else {
        (no_relay_answers(), k3)
    };
    lemma_relay_questions(k3, f);
    lemma_goes_on_twice(n.talk, k3, k4);
    let fields = dut_advanced_group_of().fields;
    lemma_board_keys(Pairs::empty(), k4, form, h, d, n.name, fields, 0);
    let k5 = walked_dut_keys(Pairs::empty(), k4, form, h, d, n.name, fields, 0).1;
    lemma_goes_on_twice(n.talk, k4, k5);
    lemma_still_told(named, talking(named, k5));
    if n.talk.1 is Some {
        lemma_ended(n.talk, k5, w, h, d);
    }
}

/// A conversation that has ended stays ended.
proof fn lemma_ended(k: Talk, l: Talk, w: WalkView, h: usize, d: usize)
    requires
        k.1 is Some,
        ({
            let f = materialized(w.form, dut_group_of(), h, d);
            let n = asked_name(w.talk, f[0].label, f[0].default, w.form.taken_duts);
            n.talk == k && l == walked_dut(w, h, d).1.talk
        }),
    ensures
        l.1 is Some,
{
}

/// Whether all names of some boards are taken.
pub open spec fn names_taken(a: Seq<DutAnswersView>, w: WalkView) -> bool {
    forall|i: int| 0 <= i < a.len() ==> w.form.taken_duts.contains(#[trigger] a[i].dut_name)
}

proof fn lemma_names_still_taken(a: Seq<DutAnswersView>, w: WalkView, x: WalkView)
    requires
        names_taken(a, w),
        keeps_names(w, x),
    ensures
        names_taken(a, x),
{
    assert forall|i: int| 0 <= i < a.len() implies x.form.taken_duts.contains(
        #[trigger] a[i].dut_name,
    ) by {
        let n = a[i].dut_name;
        assert(w.form.taken_duts.contains(n));
        let j = choose|j: int| 0 <= j < w.form.taken_duts.len() && w.form.taken_duts[j] == n;
        assert(x.form.taken_duts[j] == n);
    }
}

proof fn lemma_keeps_twice(w: WalkView, x: WalkView, y: WalkView)
    requires
        keeps_names(w, x),
        keeps_names(x, y),
    ensures
        keeps_names(w, y),
{
    let a = w.form.taken_duts;
    assert forall|i: int| 0 <= i < a.len() implies a[i] == y.form.taken_duts[i] by {
        assert(a[i] == x.form.taken_duts[i]);
    }
}

proof fn lemma_boards(before: Seq<DutAnswersView>, w: WalkView, h: usize, d: int, n: int)
    requires
        all_told(w),
        w.talk.1 is None ==> names_taken(before, w),
    ensures
        ({
            let (a, x) = walked_duts(before, w, h, d, n);
            &&& all_told(x)
            &&& keeps_names(w, x)
            &&& x.talk.1 is None ==> names_taken(a, x)
        }),
    decreases n - d,
{
    if d < n && w.talk.1 is None {
        lemma_board(w, h, d as usize);
        let (a, x) = walked_dut(w, h, d as usize);
        lemma_names_still_taken(before, w, x);
        lemma_boards(before.push(a), x, h, d + 1, n);
        lemma_keeps_twice(w, x, walked_duts(before.push(a), x, h, d + 1, n).1);
    }
}

/// Whether all names of the boards of some hosts are taken.
pub open spec fn all_names_taken(a: Seq<HostAnswersView>, w: WalkView) -> bool {
    forall|i: int| 0 <= i < a.len() ==> names_taken(#[trigger] a[i].duts, w)
}

proof fn lemma_host(w: WalkView, h: usize)
    requires
        all_told(w),
    ensures
        ({
            let (a, x) = walked_host(w, h);
            &&& all_told(x)
            &&& keeps_names(w, x)
            &&& x.talk.1 is None ==> names_taken(a.duts, x)
        }),
{
    let f = materialized(w.form, host_group_of(), h, 0);
    let (_, k1) = asked_required(w.talk, f[0].label, or_empty(f[0].default));
    lemma_required(w.talk, f[0].label, or_empty(f[0].default));
    let (_, k2) = asked_optional(k1, f[1].label, or_empty(f[1].default));
    lemma_optional(k1, f[1].label, or_empty(f[1].default));
    lemma_goes_on_twice(w.talk, k1, k2);
    let (_, k3) = asked_optional(k2, f[2].label, or_empty(f[2].default));
    lemma_optional(k2, f[2].label, or_empty(f[2].default));
    lemma_goes_on_twice(w.talk, k2, k3);
    let (_, k4) = asked_optional(k3, f[3].label, or_empty(f[3].default));
    lemma_optional(k3, f[3].label, or_empty(f[3].default));
    lemma_goes_on_twice(w.talk, k3, k4);
    let (n, k5) = asked_count(k4, f[4].label, spelled_count(f[4].default));
    lemma_count(k4, f[4].label, spelled_count(f[4].default));
    lemma_goes_on_twice(w.talk, k4, k5);
    lemma_still_told(w, talking(w, k5));
    lemma_boards(Seq::empty(), talking(w, k5), h, 0, n as int);
}

proof fn lemma_hosts(before: Seq<HostAnswersView>, w: WalkView, h: int, n: int)
    requires
        all_told(w),
        w.talk.1 is None ==> all_names_taken(before, w),
    ensures
        ({
            let (a, x) = walked_hosts(before, w, h, n);
            &&& all_told(x)
            &&& keeps_names(w, x)
            &&& x.talk.1 is None ==> all_names_taken(a, x)
        }),
    decreases n - h,
{
    if h < n && w.talk.1 is None {
        lemma_host(w, h as usize);
        let (a, x) = walked_host(w, h as usize);
        assert forall|i: int| 0 <= i < before.len() implies names_taken(#[trigger] before[i].duts, x) by {
            lemma_names_still_taken(before[i].duts, w, x);
        }
        lemma_hosts(before.push(a), x, h + 1, n);
        lemma_keeps_twice(w, x, walked_hosts(before.push(a), x, h + 1, n).1);
    }
}

proof fn lemma_keys(map: Pairs, k: Talk, current: Pairs, table: Seq<AdvFieldView>, i: int)
    requires
        0 <= i,
    ensures
        goes_on(k, walked_keys(map, k, current, table, i).1),
    decreases table.len() - i,
{
    if i < table.len() && k.1 is None {
        if dut_owned(table[i].key) {
            lemma_keys(map, k, current, table, i + 1);
        } else {
            let f = table[i];
            let default = text_or(lookup(current, f.key), natural_default(f.key));
            let (v, k1) = asked_advanced(k, f.label, f.empty, f.key, default);
            lemma_advanced(k, f.label, f.empty, f.key, default);
            let next = if k1.1 is Some {
                map
            } else {
                put_unless_empty(map, f.key, v)
            };
            lemma_keys(next, k1, current, table, i + 1);
            lemma_goes_on_twice(k, k1, walked_keys(next, k1, current, table, i + 1).1);
        }
    }
}

/// Whatever is announced was told to the user, the names that were taken still
/// are, and so are the names of all boards.
pub proof fn lemma_walk_tells_what_it_announces(s: SchemaView, t: TalkView)
    ensures
        ({
            let (a, w) = walked(s, t);
            &&& forall|i: int|
                0 <= i < a.announcements.len() ==> w.talk.0.shown.contains(
                    Shown::Note(NoteKind::Info, #[trigger] a.announcements[i]),
                )
            &&& s.taken_duts.is_prefix_of(w.form.taken_duts)
            &&& w.talk.1 is None ==> all_names_taken(a.hosts, w)
        }),
{
    let f = materialized(s, host_count_group_of(), 0, 0);
    let (n, k1) = asked_count((t, None), f[0].label, s.host_count_default);
    let w0 = WalkView { form: s, announcements: Seq::empty(), talk: k1 };
    lemma_hosts(Seq::empty(), w0, 0, n as int);
    let (hosts, w1) = walked_hosts(Seq::empty(), w0, 0, n as int);
    let (ask, k2) = gated(w1.talk, s.advanced_gate);
    let none = Pairs::empty();
    lemma_keys(none, k2, s.advanced_current, advanced_table(), 0);
    let (_, k3) = if ask {
        walked_keys(none, k2, s.advanced_current, advanced_table(), 0)
    } else {
        (none, k2)
    };
    lemma_goes_on_twice(w1.talk, k2, k3);
    lemma_still_told(w1, talking(w1, k3));
    let w = talking(w1, k3);
    if k3.1 is None && w1.talk.1 is None {
        assert forall|i: int| 0 <= i < hosts.len() implies names_taken(#[trigger] hosts[i].duts, w) by {
            assert(names_taken(hosts[i].duts, w1));
        }
    }
}

// ── Answers typed into a form ────────────────────────────────────────
/// Whether nothing that was announced or found wrong is forgotten.
pub open spec fn remembers(p: ProgressView, q: ProgressView) -> bool {
    p.announcements.is_prefix_of(q.announcements) && p.errors.is_prefix_of(q.errors)
}

proof fn lemma_remembers_twice(p: ProgressView, q: ProgressView, r: ProgressView)
    requires
        remembers(p, q),
        remembers(q, r),
    ensures
        remembers(p, r),
{
    assert forall|i: int| 0 <= i < p.announcements.len() implies p.announcements[i]
        == r.announcements[i] by {
        assert(p.announcements[i] == q.announcements[i]);
    }
    assert forall|i: int| 0 <= i < p.errors.len() implies p.errors[i] == r.errors[i] by {
        assert(p.errors[i] == q.errors[i]);
    }
}

/// Whether a board was dealt with as it was typed: a name that is free is
/// taken, and one that is taken is refused, or another is taken and announced.
pub open spec fn dealt_with(
    s: SchemaView,
    v: Typed,
    policy: NamePolicy,
    h: usize,
    d: usize,
    own: Option<Seq<char>>,
    name: Seq<char>,
    p: ProgressView,
) -> bool {
    let t = cleaned(typed_value(v, KeyView::DutName(h, d)));
    t.len() > 0 ==> if !name_collides(typed_names(v, v.len() as int), s.taken_duts, own, t) {
        name == t
    } else if policy == NamePolicy::AutoAdvance {
        p.announcements.contains("dut name '"@ + t + "' already taken — using '"@ + name + "'"@)
    } else {
        exists|i: int| 0 <= i < p.errors.len() && (#[trigger] p.errors[i]).0 == KeyView::DutName(h, d)
    }
}

proof fn lemma_still_dealt_with(
    s: SchemaView,
    v: Typed,
    policy: NamePolicy,
    h: usize,
    d: usize,
    own: Option<Seq<char>>,
    name: Seq<char>,
    p: ProgressView,
    q: ProgressView,
)
    requires
        dealt_with(s, v, policy, h, d, own, name, p),
        remembers(p, q),
    ensures
        dealt_with(s, v, policy, h, d, own, name, q),
{
    let t = cleaned(typed_value(v, KeyView::DutName(h, d)));
    let note = "dut name '"@ + t + "' already taken — using '"@ + name + "'"@;
    if p.announcements.contains(note) {
        let i = choose|i: int| 0 <= i < p.announcements.len() && p.announcements[i] == note;
        assert(q.announcements[i] == note);
    }
    if exists|i: int| 0 <= i < p.errors.len() && (#[trigger] p.errors[i]).0 == KeyView::DutName(h, d) {
        let i = choose|i: int|
            0 <= i < p.errors.len() && (#[trigger] p.errors[i]).0 == KeyView::DutName(h, d);
        assert(q.errors[i] == p.errors[i]);
    }
}

proof fn lemma_typed_keys(
    map: Pairs,
    p: ProgressView,
    s: SchemaView,
    v: Typed,
    h: usize,
    d: usize,
    fields: Seq<FieldView>,
    i: int,
)
    requires
        0 <= i,
    ensures
        remembers(p, resolved_dut_keys(map, p, s, v, h, d, fields, i).1),
    decreases fields.len() - i,
{
    if i < fields.len() {
        match fields[i].key {
            FragView::DutAdvanced(k) => {
                let (m, q) = resolved_dut_key(map, p, s, v, h, d, k, fields[i].empty);
                assert(remembers(p, q));
                lemma_typed_keys(m, q, s, v, h, d, fields, i + 1);
                lemma_remembers_twice(
                    p,
                    q,
                    resolved_dut_keys(m, q, s, v, h, d, fields, i + 1).1,
                );
            },
            _ => {
                lemma_typed_keys(map, p, s, v, h, d, fields, i + 1);
            },
        }
    }
}

proof fn lemma_typed_relay(p: ProgressView, v: Typed, h: usize, d: usize, known: DutDefaultsView)
    ensures
        remembers(p, resolved_relay(p, v, h, d, known).1),
{
}

proof fn lemma_typed_board(
    p: ProgressView,
    s: SchemaView,
    v: Typed,
    policy: NamePolicy,
    h: usize,
    d: usize,
    known: DutDefaultsView,
)
    ensures
        ({
            let (a, q) = resolved_dut(p, s, v, policy, h, d, known);
            &&& remembers(p, q)
            &&& dealt_with(s, v, policy, h, d, known.dut_name, a.dut_name, q)
        }),
{
    let names = typed_names(v, v.len() as int);
    let k1 = KeyView::DutName(h, d);
    let (name, p1) = resolved_name(
        p,
        k1,
        typed_value(v, k1),
        known.dut_name,
        names,
        s.taken_duts,
        policy,
    );
    assert(dealt_with(s, v, policy, h, d, known.dut_name, name, p1)) by {
        let t = cleaned(typed_value(v, k1));
        if t.len() > 0 && name_collides(names, s.taken_duts, known.dut_name, t) {
            if policy == NamePolicy::AutoAdvance {
                let note = "dut name '"@ + t + "' already taken — using '"@ + name + "'"@;
                assert(p1.announcements.last() == note);
                assert(p1.announcements.contains(note));
            } else {
                let last = p1.errors.len() - 1;
                assert(p1.errors[last].0 == k1);
            }
        }
    }
    assert(remembers(p, p1));
    let k2 = KeyView::DutPort(h, d);
    let (_, p2) = port_of(p1, k2, typed_value(v, k2), known.serial_port);
    assert(remembers(p1, p2));
    let k3 = KeyView::DutRelayGate(h, d);
    let (gate, p3) = relay_gate_of(p2, k3, typed_value(v, k3), known.relay_gate);
    assert(remembers(p2, p3));
    let (_, p4) = if gate {
        resolved_relay(p3, v, h, d, known)
    } else {
        (no_relay_answers(), p3)
    };
    lemma_typed_relay(p3, v, h, d, known);
    let none = Pairs::empty();
    let fields = dut_advanced_group_of().fields;
    lemma_typed_keys(none, p4, s, v, h, d, fields, 0);
    let (map, p5) = resolved_dut_keys(none, p4, s, v, h, d, fields, 0);
    let q = check_pattern(map, p5, s, h, d);
    assert(remembers(p5, q));
    lemma_remembers_twice(p1, p2, p3);
    lemma_remembers_twice(p1, p3, p4);
    lemma_remembers_twice(p1, p4, p5);
    lemma_remembers_twice(p1, p5, q);
    lemma_remembers_twice(p, p1, q);
    lemma_still_dealt_with(s, v, policy, h, d, known.dut_name, name, p1, q);
}

/// Whether the boards of a host were dealt with as they were typed.
pub open spec fn boards_dealt_with(
    s: SchemaView,
    v: Typed,
    policy: NamePolicy,
    h: usize,
    known: HostDefaultsView,
    a: Seq<DutAnswersView>,
    p: ProgressView,
) -> bool {
    forall|d: int|
        0 <= d < a.len() ==> dealt_with(
            s,
            v,
            policy,
            h,
            d as usize,
            dut_or_unknown(known, d).dut_name,
            #[trigger] a[d].dut_name,
            p,
        )
}

proof fn lemma_boards_still_dealt_with(
    s: SchemaView,
    v: Typed,
    policy: NamePolicy,
    h: usize,
    known: HostDefaultsView,
    a: Seq<DutAnswersView>,
    p: ProgressView,
    q: ProgressView,
)
    requires
        boards_dealt_with(s, v, policy, h, known, a, p),
        remembers(p, q),
    ensures
        boards_dealt_with(s, v, policy, h, known, a, q),
{
    assert forall|d: int| 0 <= d < a.len() implies dealt_with(
        s,
        v,
        policy,
        h,
        d as usize,
        dut_or_unknown(known, d).dut_name,
        #[trigger] a[d].dut_name,
        q,
    ) by {
        let own = dut_or_unknown(known, d).dut_name;
        lemma_still_dealt_with(s, v, policy, h, d as usize, own, a[d].dut_name, p, q);
    }
}

proof fn lemma_typed_boards(
    before: Seq<DutAnswersView>,
    p: ProgressView,
    s: SchemaView,
    v: Typed,
    policy: NamePolicy,
    h: usize,
    known: HostDefaultsView,
    d: int,
    n: int,
)
    requires
        before.len() == d,
        boards_dealt_with(s, v, policy, h, known, before, p),
    ensures
        ({
            let (a, q) = resolved_duts(before, p, s, v, policy, h, known, d, n);
            remembers(p, q) && boards_dealt_with(s, v, policy, h, known, a, q)
        }),
    decreases n - d,
{
    if d < n {
        let k = dut_or_unknown(known, d);
        lemma_typed_board(p, s, v, policy, h, d as usize, k);
        let (a, q) = resolved_dut(p, s, v, policy, h, d as usize, k);
        lemma_boards_still_dealt_with(s, v, policy, h, known, before, p, q);
        let more = before.push(a);
        assert forall|i: int| 0 <= i < more.len() implies dealt_with(
            s,
            v,
            policy,
            h,
            i as usize,
            dut_or_unknown(known, i).dut_name,
            #[trigger] more[i].dut_name,
            q,
        ) by {
            if i < d {
                assert(more[i] == before[i]);
                assert(before[i].dut_name == more[i].dut_name);
            }
        }
        lemma_typed_boards(more, q, s, v, policy, h, known, d + 1, n);
        lemma_remembers_twice(
            p,
            q,
            resolved_duts(more, q, s, v, policy, h, known, d + 1, n).1,
        );
    }
}

/// Whether the boards of all hosts were dealt with as they were typed.
pub open spec fn hosts_dealt_with(
    s: SchemaView,
    v: Typed,
    policy: NamePolicy,
    a: Seq<HostAnswersView>,
    p: ProgressView,
) -> bool {
    forall|h: int|
        0 <= h < a.len() ==> boards_dealt_with(
            s,
            v,
            policy,
            h as usize,
            host_or_unknown(s, h),
            #[trigger] a[h].duts,
            p,
        )
}

proof fn lemma_typed_hosts(
    before: Seq<HostAnswersView>,
    p: ProgressView,
    s: SchemaView,
    v: Typed,
    policy: NamePolicy,
    h: int,
    n: int,
)
    requires
        before.len() == h,
        n <= usize::MAX,
        hosts_dealt_with(s, v, policy, before, p),
    ensures
        ({
            let (a, q) = resolved_hosts(before, p, s, v, policy, h, n);
            remembers(p, q) && hosts_dealt_with(s, v, policy, a, q)
        }),
    decreases n - h,
{
    if h < n {
        let i = h as usize;
        let known = host_or_unknown(s, h);
        let (_, p1) = required_of(
            p,
            KeyView::HostIp(i),
            typed_value(v, KeyView::HostIp(i)),
            known.ip,
        );
        assert(remembers(p, p1));
        let key = KeyView::DutCount(i);
        let (m, p2) = counted_or(p1, key, typed_value(v, key), at_least_one(known.dut_count));
        assert(remembers(p1, p2));
        let none = Seq::<DutAnswersView>::empty();
        lemma_typed_boards(none, p2, s, v, policy, i, known, 0, m as int);
        let (a, q) = resolved_host(p, s, v, policy, i);
        lemma_remembers_twice(p, p1, p2);
        lemma_remembers_twice(p, p2, q);
        let more = before.push(a);
        assert forall|k: int| 0 <= k < more.len() implies boards_dealt_with(
            s,
            v,
            policy,
            k as usize,
            host_or_unknown(s, k),
            #[trigger] more[k].duts,
            q,
        ) by {
            if k < h {
                assert(more[k] == before[k]);
                assert(before[k].duts == more[k].duts);
                lemma_boards_still_dealt_with(
                    s,
                    v,
                    policy,
                    k as usize,
                    host_or_unknown(s, k),
                    before[k].duts,
                    p,
                    q,
                );
            }
        }
        lemma_typed_hosts(more, q, s, v, policy, h + 1, n);
        lemma_remembers_twice(p, q, resolved_hosts(more, q, s, v, policy, h + 1, n).1);
    }
}

proof fn lemma_typed_top_keys(
    map: Pairs,
    p: ProgressView,
    s: SchemaView,
    v: Typed,
    table: Seq<AdvFieldView>,
    i: int,
)
    requires
        0 <= i,
    ensures
        remembers(p, resolved_keys(map, p, s, v, table, i).1),
    decreases table.len() - i,
{
    if i < table.len() {
        if dut_owned(table[i].key) {
            lemma_typed_top_keys(map, p, s, v, table, i + 1);
        } else {
            let (m, q) = resolved_key(map, p, s, v, table[i]);
            assert(remembers(p, q));
            lemma_typed_top_keys(m, q, s, v, table, i + 1);
            lemma_remembers_twice(p, q, resolved_keys(m, q, s, v, table, i + 1).1);
        }
    }
}

/// A name that was typed into a form is taken where it is free. Where it is
/// taken already, it is an error of its field, or another name is taken and
/// that is announced.
pub proof fn lemma_typed_names_are_dealt_with(
    s: SchemaView,
    v: Typed,
    gate: bool,
    policy: NamePolicy,
)
    ensures
        ({
            let (a, errors) = resolved(s, v, gate, policy);
            hosts_dealt_with(
                s,
                v,
                policy,
                a.hosts,
                ProgressView { errors, taken: Seq::empty(), announcements: a.announcements },
            )
        }),
{
    let key = KeyView::HostCount;
    let (n, p1) = counted_or(start_of(s, v), key, typed_value(v, key), s.host_count_default);
    let none = Seq::<HostAnswersView>::empty();
    lemma_typed_hosts(none, p1, s, v, policy, 0, n as int);
    let (hosts, p2) = resolved_hosts(none, p1, s, v, policy, 0, n as int);
    lemma_typed_top_keys(Pairs::empty(), p2, s, v, advanced_table(), 0);
    let (a, errors) = resolved(s, v, gate, policy);
    let q = ProgressView { errors, taken: Seq::empty(), announcements: a.announcements };
    assert(remembers(p2, q));
    assert forall|h: int| 0 <= h < a.hosts.len() implies boards_dealt_with(
        s,
        v,
        policy,
        h as usize,
        host_or_unknown(s, h),
        #[trigger] a.hosts[h].duts,
        q,
    ) by {
        assert(a.hosts == hosts);
        assert(hosts[h].duts == a.hosts[h].duts);
        lemma_boards_still_dealt_with(
            s,
            v,
            policy,
            h as usize,
            host_or_unknown(s, h),
            hosts[h].duts,
            p2,
            q,
        );
    }
}

} // verus!

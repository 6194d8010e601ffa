//! The edits of the top-level sections. They are read once they are applied,
//! together with the edits of hosts and boards.
use crate::advanced::{comment_of, field_of, literal_of, section_of};
use crate::append::lemma_json_behind;
use crate::board::{
    lemma_member_change_within, lemma_removal_spells, member_change, on_track, within,
};
use crate::board_fields::{
    board_track, json_spells, key_spot, lemma_brackets_go_together, lemma_comment_quiet,
    lemma_section_track, lemma_set_spells, lemma_spot_pushed, section_change, set_edit, set_fits,
    sets_differ, spelled, spot_clear, spot_name, spots_apart, Spot,
};
use crate::changes::ChangeView;
use crate::config::{config_of, member, ConfigView};
use crate::edit::EditView;
use crate::jsonc::{document, JsonView};
use crate::locate::{close_at, value_span, SegView};
use crate::pieces::Members;
use crate::place::{is_scalar, json_at, tidy};
use crate::text_map::{distinct_keys, lookup, Pairs};
use crate::together::lemma_found_is_said;
use crate::top_keys::{
    lemma_other_names, lemma_top_key, lemma_top_section, lemma_written_key, top_keys, top_parts,
    top_sections,
};
use crate::update::{set_or_append, OpView, Plan};
use crate::update_config::{
    key_desc, key_step, section_keys_from, section_path, section_seen, section_sets_from,
    section_step, sections_from, top_section,
};
use crate::update_dut::{new_section, SetView};
use vstd::prelude::*;

verus! {

/// The path of the document itself.
pub open spec fn top() -> Seq<SegView> {
    Seq::empty()
}

/// The spot of the hosts.
pub open spec fn hosts_spot() -> Spot {
    (Seq::empty(), "dev_hosts"@)
}

/// Whether no top-level section is `null`.
pub open spec fn no_null_top(m: Members) -> bool {
    &&& member(m, "serial"@) != Some(JsonView::Null)
    &&& member(m, "target"@) != Some(JsonView::Null)
    &&& member(m, "uboot"@) != Some(JsonView::Null)
    &&& member(m, "relay"@) != Some(JsonView::Null)
    &&& member(m, "monitor"@) != Some(JsonView::Null)
    &&& member(m, "flash"@) != Some(JsonView::Null)
    &&& member(m, "control"@) != Some(JsonView::Null)
}

/// Whether a text is a tidy document that holds a configuration none of whose
/// top-level sections is `null`.
#[verifier::opaque]
pub open spec fn top_there(s: Seq<char>, ex: ConfigView) -> bool {
    document(s) matches Some(j) && tidy(j) && !is_scalar(j) && config_of(j) == Some(ex)
        && no_null_top(j->Object_0)
}

proof fn lemma_top_object(m: Members, ex: ConfigView, section: Seq<char>)
    requires
        config_of(JsonView::Object(m)) == Some(ex),
        no_null_top(m),
        top_sections().contains(section),
    ensures
        member(m, section) matches Some(x) ==> x is Object,
{
    let i = choose|i: int| 0 <= i < top_sections().len() && top_sections()[i] == section;
    assert(i == 0 || i == 1 || i == 2 || i == 3 || i == 4 || i == 5 || i == 6);
}

/// What the document has where it has a top-level section.
proof fn lemma_top_section_there(s: Seq<char>, ex: ConfigView, section: Seq<char>)
    requires
        top_there(s, ex),
        section.len() == 0 || top_sections().contains(section),
    ensures
        document(s) matches Some(j) && tidy(j) && !is_scalar(j),
        json_at(document(s)->0, top()) == document(s),
        document(s)->0 is Object,
        section.len() == 0 ==> json_at(document(s)->0, section_path(section)) == document(s),
        section.len() > 0 ==> section_path(section) == top().push(SegView::Key(section)),
        section.len() > 0 && close_at(s, section_path(section)) is Some ==> (json_at(
            document(s)->0,
            section_path(section),
        ) matches Some(v) && v is Object),
        section.len() > 0 && close_at(s, section_path(section)) is None ==> member(
            document(s)->0->Object_0,
            section,
        ) is None,
{
    reveal(top_there);
    let j = document(s)->0;
    if section.len() > 0 {
        let key = SegView::Key(section);
        let path = section_path(section);
        lemma_found_is_said(s, path);
        lemma_brackets_go_together(s, path);
        lemma_json_behind(j, top(), j, key);
        if let JsonView::Object(m) = j {
            lemma_top_object(m, ex, section);
            if let Some(v) = member(m, section) {
                assert(json_at(v, seq![key].drop_first()) == Some(v));
            }
        }
    }
}

// ── Spots ────────────────────────────────────────────────────────────
/// Whether a spot is one of a known section, or of a key without section.
spec fn top_spot(x: Spot) -> bool {
    if x.0.len() > 0 {
        top_sections().contains(x.0)
    } else {
        x.1 == "loader"@ || x.1 == "lock_dir"@
    }
}

spec fn section_among(section: Seq<char>, answers: Pairs, n: int) -> bool {
    exists|l: int| 0 <= l < n && l < answers.len() && section_of((#[trigger] answers[l]).0) == section
}

/// Whether a spot is that of a key among the first `n` answers.
spec fn key_among(x: Spot, answers: Pairs, n: int) -> bool {
    exists|l: int|
        0 <= l < n && l < answers.len() && x == key_spot((#[trigger] answers[l]).0)
            && top_keys().contains(answers[l].0)
}

/// Whether the spots are of the hosts, or of sections of the first `n`
/// answers.
spec fn sections_used(used: Seq<Spot>, answers: Pairs, n: int) -> bool {
    forall|k: int|
        0 <= k < used.len() ==> (#[trigger] used[k]) == hosts_spot() || (top_spot(used[k])
            && section_among(used[k].0, answers, n))
}

/// Whether the spots are of the hosts, of other sections of the first `n`
/// answers, or of keys of this section among the first `j`.
spec fn keys_so_far(used: Seq<Spot>, answers: Pairs, n: int, section: Seq<char>, j: int) -> bool {
    forall|k: int|
        0 <= k < used.len() ==> {
            ||| (#[trigger] used[k]) == hosts_spot()
            ||| top_spot(used[k]) && used[k].0 != section && section_among(used[k].0, answers, n)
            ||| top_spot(used[k]) && used[k].0 == section && key_among(used[k], answers, j)
        }
}

/// Spots of different sections are in different members.
proof fn lemma_names_differ(x: Spot, y: Spot)
    requires
        x == hosts_spot() || (top_spot(x) && x.0 != y.0),
        top_spot(y),
    ensures
        spot_name(x) != spot_name(y),
{
    lemma_other_names();
    if x.0.len() > 0 {
        lemma_top_section(x.0);
    }
    if y.0.len() > 0 {
        lemma_top_section(y.0);
    } else if x.0.len() == 0 {
        assert(x.0 =~= y.0);
    }
}

/// The spot of a key whose section is there is clear of those before it.
proof fn lemma_top_key_clear(
    s: Seq<char>,
    used: Seq<Spot>,
    answers: Pairs,
    n: int,
    section: Seq<char>,
    j: int,
)
    requires
        0 <= j < answers.len(),
        distinct_keys(answers),
        keys_so_far(used, answers, n, section, j),
        section_of(answers[j].0) == section,
        top_keys().contains(answers[j].0),
        section.len() == 0 || close_at(s, top().push(SegView::Key(section))) is Some,
    ensures
        spot_clear(s, top(), used, key_spot(answers[j].0)),
        top_spot(key_spot(answers[j].0)),
{
    let key = answers[j].0;
    let y = key_spot(key);
    lemma_top_key(key);
    assert forall|k: int| 0 <= k < used.len() implies spots_apart(
        s,
        top(),
        #[trigger] used[k],
        y,
    ) by {
        let x = used[k];
        if x == hosts_spot() || x.0 != section {
            lemma_names_differ(x, y);
        } else {
            assert(key_among(x, answers, j) || x == hosts_spot());
            let l = choose|l: int|
                0 <= l < j && l < answers.len() && x == key_spot((#[trigger] answers[l]).0)
                    && top_keys().contains(answers[l].0);
            lemma_top_key(answers[l].0);
            assert(answers[l].0 != key);
            assert(x.1 != y.1);
        }
    }
}

// ── A section that is there ──────────────────────────────────────────
/// Whether an answer to a top-level key asks for a value.
pub open spec fn asks_value(current: Pairs, key: Seq<char>, value: Seq<char>) -> bool {
    literal_of(key, value) matches Ok(Some(_)) && lookup(current, key) != Some(value)
}

/// Whether an answer to a top-level key takes a value out of its section.
pub open spec fn asks_removal(
    s: Seq<char>,
    section: Seq<char>,
    current: Pairs,
    key: Seq<char>,
    value: Seq<char>,
) -> bool {
    &&& literal_of(key, value) matches Ok(None)
    &&& lookup(current, key) != Some(value)
    &&& value_span(s, section_path(section).push(SegView::Key(field_of(key)))) is Some
}

/// Whether the answers to the top-level keys can be read back: none is answered
/// twice, and each that takes a value out is to a key that there is.
pub open spec fn top_asks(s: Seq<char>, answers: Pairs) -> bool {
    &&& distinct_keys(answers)
    &&& forall|k: int| 0 <= k < answers.len() ==> top_answer_fits(s, #[trigger] answers[k])
}

/// Whether an answer to a top-level key can be read back.
pub open spec fn top_answer_fits(s: Seq<char>, x: (Seq<char>, Seq<char>)) -> bool {
    match literal_of(x.0, x.1) {
        Ok(Some(literal)) => json_spells(literal),
        Ok(None) => top_keys().contains(x.0) || value_span(
            s,
            section_path(section_of(x.0)).push(SegView::Key(field_of(x.0))),
        ) is None,
        Err(_) => true,
    }
}

/// How the answer to a top-level key is written.
pub open spec fn top_set(key: Seq<char>, value: Seq<char>) -> SetView {
    SetView {
        key: field_of(key),
        literal: literal_of(key, value)->Ok_0->0,
        comment: comment_of(key),
        desc: key_desc(key, value),
    }
}

/// The changes for the keys of a section that is there, from answer `j` on.
#[verifier::opaque]
pub open spec fn top_key_changes(
    s: Seq<char>,
    section: Seq<char>,
    current: Pairs,
    answers: Pairs,
    j: int,
) -> Seq<ChangeView>
    decreases answers.len() - j,
{
    if j < 0 || j >= answers.len() {
        Seq::empty()
    } else {
        let (key, value) = answers[j];
        let rest = top_key_changes(s, section, current, answers, j + 1);
        if section_of(key) == section && asks_value(current, key, value) {
            let x = top_set(key, value);
            seq![member_change(s, section_path(section), x.key, spelled(x.literal))] + rest
        } else if section_of(key) == section && asks_removal(s, section, current, key, value) {
            seq![ChangeView::Gone { path: section_path(section), key: field_of(key) }] + rest
        } else {
            rest
        }
    }
}

/// The edit that takes a value out of a top-level section.
pub open spec fn top_removal(section: Seq<char>, key: Seq<char>) -> OpView {
    OpView {
        op: EditView::RemoveKey { path: section_path(section), key: field_of(key) },
        desc: "unset "@ + key + " (inherit)"@,
    }
}

proof fn lemma_top_set_fits(s: Seq<char>, key: Seq<char>, value: Seq<char>)
    requires
        literal_of(key, value) matches Ok(Some(_)),
        top_answer_fits(s, (key, value)),
    ensures
        set_fits(top_set(key, value)),
        top_keys().contains(key),
        top_parts(key),
{
    lemma_written_key(key, value);
    lemma_top_key(key);
    lemma_comment_quiet(key);
}

/// The plan with the keys of a section from answer `j` on.
#[verifier::opaque]
spec fn top_keys_plan(
    p: Plan,
    s: Seq<char>,
    section: Seq<char>,
    current: Pairs,
    answers: Pairs,
    j: int,
) -> Plan {
    section_keys_from(p, s, section_path(section), section, current, answers, j)
}

proof fn lemma_top_keys_step(
    p: Plan,
    s: Seq<char>,
    section: Seq<char>,
    current: Pairs,
    answers: Pairs,
    j: int,
)
    requires
        p.1 is None,
        0 <= j < answers.len(),
        top_answer_fits(s, answers[j]),
        top_keys_plan(p, s, section, current, answers, j).1 is None,
    ensures
        ({
            let (key, value) = answers[j];
            let rest = top_key_changes(s, section, current, answers, j + 1);
            let x = top_set(key, value);
            if section_of(key) == section && asks_value(current, key, value) {
                let r = set_or_append(s, section_path(section), set_edit(x));
                &&& r is Ok
                &&& top_keys_plan(p, s, section, current, answers, j) == top_keys_plan(
                    (p.0.push(r->Ok_0), None),
                    s,
                    section,
                    current,
                    answers,
                    j + 1,
                )
                &&& top_key_changes(s, section, current, answers, j) == seq![
                    member_change(s, section_path(section), x.key, spelled(x.literal)),
                ] + rest
            } else if section_of(key) == section && asks_removal(s, section, current, key, value) {
                &&& top_keys_plan(p, s, section, current, answers, j) == top_keys_plan(
                    (p.0.push(top_removal(section, key)), None),
                    s,
                    section,
                    current,
                    answers,
                    j + 1,
                )
                &&& top_key_changes(s, section, current, answers, j) == seq![
                    ChangeView::Gone { path: section_path(section), key: field_of(key) },
                ] + rest
            } else {
                &&& top_keys_plan(p, s, section, current, answers, j) == top_keys_plan(
                    p,
                    s,
                    section,
                    current,
                    answers,
                    j + 1,
                )
                &&& top_key_changes(s, section, current, answers, j) == rest
            }
        }),
{
    reveal(top_keys_plan);
    reveal_with_fuel(top_key_changes, 2);
    let (key, value) = answers[j];
    let container = section_path(section);
    if section_of(key) == section {
        let q = key_step(p, s, container, current, key, value);
        if q.1 is Some {
            assert(section_keys_from(q, s, container, section, current, answers, j + 1) == q);
        }
        assert(p == (p.0, None::<Seq<char>>));
    }
}

proof fn lemma_top_keys_ended(
    p: Plan,
    s: Seq<char>,
    section: Seq<char>,
    current: Pairs,
    answers: Pairs,
    j: int,
)
    requires
        j >= answers.len(),
    ensures
        top_keys_plan(p, s, section, current, answers, j) == p,
        top_key_changes(s, section, current, answers, j) == Seq::<ChangeView>::empty(),
{
    reveal(top_keys_plan);
    reveal(top_key_changes);
}

proof fn lemma_keys_later(
    used: Seq<Spot>,
    answers: Pairs,
    n: int,
    section: Seq<char>,
    j: int,
)
    requires
        keys_so_far(used, answers, n, section, j),
    ensures
        keys_so_far(used, answers, n, section, j + 1),
{
    assert forall|k: int| 0 <= k < used.len() implies {
        ||| (#[trigger] used[k]) == hosts_spot()
        ||| top_spot(used[k]) && used[k].0 != section && section_among(used[k].0, answers, n)
        ||| top_spot(used[k]) && used[k].0 == section && key_among(used[k], answers, j + 1)
    } by {
        if used[k] != hosts_spot() && used[k].0 == section {
            assert(key_among(used[k], answers, j));
        }
    }
}

/// One key that is written.
proof fn lemma_top_key_track(
    s: Seq<char>,
    ops: Seq<OpView>,
    cs: Seq<ChangeView>,
    used: Seq<Spot>,
    ex: ConfigView,
    answers: Pairs,
    n: int,
    section: Seq<char>,
    j: int,
)
    requires
        board_track(s, ops, cs, 0, top(), used),
        top_there(s, ex),
        distinct_keys(answers),
        0 <= j < answers.len(),
        keys_so_far(used, answers, n, section, j),
        section_of(answers[j].0) == section,
        literal_of(answers[j].0, answers[j].1) matches Ok(Some(_)),
        top_answer_fits(s, answers[j]),
        section.len() == 0 || close_at(s, section_path(section)) is Some,
        set_or_append(
            s,
            section_path(section),
            set_edit(top_set(answers[j].0, answers[j].1)),
        ) is Ok,
    ensures
        ({
            let x = top_set(answers[j].0, answers[j].1);
            let more = used.push(key_spot(answers[j].0));
            &&& board_track(
                s,
                ops.push(set_or_append(s, section_path(section), set_edit(x))->Ok_0),
                cs.push(member_change(s, section_path(section), x.key, spelled(x.literal))),
                0,
                top(),
                more,
            )
            &&& keys_so_far(more, answers, n, section, j + 1)
        }),
{
    let key = answers[j].0;
    let x = top_set(key, answers[j].1);
    let y = key_spot(key);
    let container = section_path(section);
    lemma_top_set_fits(s, key, answers[j].1);
    lemma_top_section_there(s, ex, section);
    lemma_set_spells(s, container, x);
    lemma_member_change_within(s, container, x.key, spelled(x.literal));
    lemma_top_key_clear(s, used, answers, n, section, j);
    let c = member_change(s, container, x.key, spelled(x.literal));
    let op = set_or_append(s, container, set_edit(x))->Ok_0;
    lemma_spot_pushed(s, ops, cs, 0, top(), used, op, c, y);
    lemma_spot_used(used, answers, n, section, j);
}

/// The spot of a key that is written or taken out is used.
proof fn lemma_spot_used(used: Seq<Spot>, answers: Pairs, n: int, section: Seq<char>, j: int)
    requires
        0 <= j < answers.len(),
        keys_so_far(used, answers, n, section, j),
        section_of(answers[j].0) == section,
        top_keys().contains(answers[j].0),
        top_spot(key_spot(answers[j].0)),
    ensures
        keys_so_far(used.push(key_spot(answers[j].0)), answers, n, section, j + 1),
{
    let y = key_spot(answers[j].0);
    lemma_keys_later(used, answers, n, section, j);
    let more = used.push(y);
    assert(key_among(y, answers, j + 1)) by {
        assert(y == key_spot(answers[j].0));
    }
    assert forall|k: int| 0 <= k < more.len() implies {
        ||| (#[trigger] more[k]) == hosts_spot()
        ||| top_spot(more[k]) && more[k].0 != section && section_among(more[k].0, answers, n)
        ||| top_spot(more[k]) && more[k].0 == section && key_among(more[k], answers, j + 1)
    } by {
        if k < used.len() {
            assert(more[k] == used[k]);
        }
    }
}

/// One key that is taken out.
proof fn lemma_top_key_removed(
    s: Seq<char>,
    ops: Seq<OpView>,
    cs: Seq<ChangeView>,
    used: Seq<Spot>,
    ex: ConfigView,
    current: Pairs,
    answers: Pairs,
    n: int,
    section: Seq<char>,
    j: int,
)
    requires
        board_track(s, ops, cs, 0, top(), used),
        top_there(s, ex),
        distinct_keys(answers),
        0 <= j < answers.len(),
        keys_so_far(used, answers, n, section, j),
        section_of(answers[j].0) == section,
        asks_removal(s, section, current, answers[j].0, answers[j].1),
        top_answer_fits(s, answers[j]),
        section.len() == 0 || close_at(s, section_path(section)) is Some,
    ensures
        ({
            let key = answers[j].0;
            let c = ChangeView::Gone { path: section_path(section), key: field_of(key) };
            let more = used.push(key_spot(key));
            &&& board_track(s, ops.push(top_removal(section, key)), cs.push(c), 0, top(), more)
            &&& keys_so_far(more, answers, n, section, j + 1)
        }),
{
    reveal(top_there);
    let key = answers[j].0;
    let y = key_spot(key);
    let container = section_path(section);
    let c = ChangeView::Gone { path: container, key: field_of(key) };
    lemma_removal_spells(s, container, field_of(key));
    lemma_top_key_clear(s, used, answers, n, section, j);
    lemma_spot_pushed(s, ops, cs, 0, top(), used, top_removal(section, key), c, y);
    lemma_spot_used(used, answers, n, section, j);
}

/// The keys of a section that is there.
proof fn lemma_top_keys_track(
    s: Seq<char>,
    p: Plan,
    cs: Seq<ChangeView>,
    used: Seq<Spot>,
    ex: ConfigView,
    current: Pairs,
    answers: Pairs,
    n: int,
    section: Seq<char>,
    j: int,
) -> (all: Seq<Spot>)
    requires
        p.1 is None,
        board_track(s, p.0, cs, 0, top(), used),
        top_there(s, ex),
        top_asks(s, answers),
        0 <= j <= answers.len(),
        keys_so_far(used, answers, n, section, j),
        section.len() == 0 || close_at(s, section_path(section)) is Some,
        top_keys_plan(p, s, section, current, answers, j).1 is None,
    ensures
        board_track(
            s,
            top_keys_plan(p, s, section, current, answers, j).0,
            cs + top_key_changes(s, section, current, answers, j),
            0,
            top(),
            all,
        ),
        keys_so_far(all, answers, n, section, answers.len() as int),
    decreases answers.len() - j,
{
    if j < answers.len() {
        let (key, value) = answers[j];
        let rest = top_key_changes(s, section, current, answers, j + 1);
        assert(top_answer_fits(s, answers[j]));
        lemma_top_keys_step(p, s, section, current, answers, j);
        if section_of(key) == section && asks_value(current, key, value) {
            let x = top_set(key, value);
            let op = set_or_append(s, section_path(section), set_edit(x))->Ok_0;
            let c = member_change(s, section_path(section), x.key, spelled(x.literal));
            lemma_top_key_track(s, p.0, cs, used, ex, answers, n, section, j);
            let next: Plan = (p.0.push(op), None);
            let more = used.push(key_spot(key));
            let all = lemma_top_keys_track(
                s,
                next,
                cs.push(c),
                more,
                ex,
                current,
                answers,
                n,
                section,
                j + 1,
            );
            assert(cs.push(c) + rest =~= cs + (seq![c] + rest));
            all
        } else if section_of(key) == section && asks_removal(s, section, current, key, value) {
            let c = ChangeView::Gone { path: section_path(section), key: field_of(key) };
            lemma_top_key_removed(s, p.0, cs, used, ex, current, answers, n, section, j);
            let next: Plan = (p.0.push(top_removal(section, key)), None);
            let all = lemma_top_keys_track(
                s,
                next,
                cs.push(c),
                used.push(key_spot(key)),
                ex,
                current,
                answers,
                n,
                section,
                j + 1,
            );
            assert(cs.push(c) + rest =~= cs + (seq![c] + rest));
            all
        } else {
            lemma_keys_later(used, answers, n, section, j);
            lemma_top_keys_track(s, p, cs, used, ex, current, answers, n, section, j + 1)
        }
    } else {
        lemma_top_keys_ended(p, s, section, current, answers, j);
        assert(cs + Seq::<ChangeView>::empty() =~= cs);
        used
    }
}

// ── A section that is not there ──────────────────────────────────────
/// Whether an answer is written as a literal.
pub open spec fn has_literal(x: (Seq<char>, Seq<char>)) -> bool {
    literal_of(x.0, x.1) matches Ok(Some(_))
}

/// Whether a value comes from one of the first `n` answers, to a key of this
/// section.
pub open spec fn set_among(x: SetView, answers: Pairs, section: Seq<char>, n: int) -> bool {
    exists|l: int|
        0 <= l < n && l < answers.len() && section_of((#[trigger] answers[l]).0) == section
            && has_literal(answers[l]) && x == top_set(answers[l].0, answers[l].1)
}

proof fn lemma_top_sets(
    s: Seq<char>,
    sets: Seq<SetView>,
    section: Seq<char>,
    current: Pairs,
    answers: Pairs,
    i: int,
)
    requires
        top_asks(s, answers),
        0 <= i <= answers.len(),
        sets_differ(sets),
        forall|k: int| 0 <= k < sets.len() ==> set_among(#[trigger] sets[k], answers, section, i),
        section_sets_from(sets, section, current, answers, i) is Ok,
    ensures
        ({
            let all = section_sets_from(sets, section, current, answers, i)->Ok_0;
            &&& sets_differ(all)
            &&& forall|k: int|
                0 <= k < all.len() ==> set_among(
                    #[trigger] all[k],
                    answers,
                    section,
                    answers.len() as int,
                )
        }),
    decreases answers.len() - i,
{
    if i < answers.len() {
        let (key, value) = answers[i];
        assert forall|k: int| 0 <= k < sets.len() implies set_among(
            #[trigger] sets[k],
            answers,
            section,
            i + 1,
        ) by {
            assert(set_among(sets[k], answers, section, i));
        }
        if section_of(key) == section && asks_value(current, key, value) {
            let x = top_set(key, value);
            let more = sets.push(x);
            assert(top_answer_fits(s, answers[i]));
            lemma_top_set_fits(s, key, value);
            assert(set_among(x, answers, section, i + 1)) by {
                assert(section_of(answers[i].0) == section);
            }
            assert forall|k: int, l: int| 0 <= k < l < more.len() implies (#[trigger] more[k]).key
                != (#[trigger] more[l]).key by {
                assert(more[k] == sets[k]);
                if l < sets.len() {
                    assert(more[l] == sets[l]);
                } else {
                    assert(set_among(sets[k], answers, section, i));
                    let o = choose|o: int|
                        0 <= o < i && o < answers.len() && section_of((#[trigger] answers[o]).0)
                            == section && has_literal(answers[o]) && sets[k] == top_set(answers[o].0, answers[o].1);
                    assert(top_answer_fits(s, answers[o]));
                    lemma_top_set_fits(s, answers[o].0, answers[o].1);
                    assert(answers[o].0 != key);
                }
            }
            lemma_top_sets(s, more, section, current, answers, i + 1);
        } else {
            lemma_top_sets(s, sets, section, current, answers, i + 1);
        }
    }
}

/// The values for a section that is not there.
#[verifier::opaque]
pub open spec fn top_sets(section: Seq<char>, current: Pairs, answers: Pairs) -> Seq<SetView> {
    section_sets_from(Seq::empty(), section, current, answers, 0)->Ok_0
}

/// The changes for one section.
#[verifier::opaque]
pub open spec fn top_section_changes(
    s: Seq<char>,
    section: Seq<char>,
    current: Pairs,
    answers: Pairs,
) -> Seq<ChangeView> {
    if section.len() == 0 || close_at(s, section_path(section)) is Some {
        top_key_changes(s, section, current, answers, 0)
    } else if top_sets(section, current, answers).len() > 0 {
        seq![section_change(top(), section, top_sets(section, current, answers))]
    } else {
        Seq::empty()
    }
}

/// A new section.
proof fn lemma_new_section_track(
    s: Seq<char>,
    ops: Seq<OpView>,
    cs: Seq<ChangeView>,
    used: Seq<Spot>,
    ex: ConfigView,
    current: Pairs,
    answers: Pairs,
    i: int,
)
    requires
        board_track(s, ops, cs, 0, top(), used),
        top_there(s, ex),
        top_asks(s, answers),
        0 <= i < answers.len(),
        sections_used(used, answers, i),
        !section_seen(answers, i),
        ({
            let section = section_of(answers[i].0);
            &&& section.len() > 0
            &&& close_at(s, section_path(section)) is None
            &&& top_section(ops, s, section, current, answers).1 is None
            &&& top_sets(section, current, answers).len() > 0
        }),
    ensures
        ({
            let section = section_of(answers[i].0);
            let more = used.push((section, Seq::empty()));
            &&& board_track(
                s,
                top_section(ops, s, section, current, answers).0,
                cs.push(section_change(top(), section, top_sets(section, current, answers))),
                0,
                top(),
                more,
            )
            &&& sections_used(more, answers, i + 1)
        }),
{
    reveal(top_sets);
    let section = section_of(answers[i].0);
    let sets = top_sets(section, current, answers);
    let y: Spot = (section, Seq::empty());
    lemma_top_sets(s, Seq::empty(), section, current, answers, 0);
    assert forall|k: int| 0 <= k < sets.len() implies set_fits(#[trigger] sets[k])
        && top_sections().contains(section) by {
        assert(set_among(sets[k], answers, section, answers.len() as int));
        let l = choose|l: int|
            0 <= l < answers.len() && section_of((#[trigger] answers[l]).0) == section
                && has_literal(answers[l]) && sets[k] == top_set(answers[l].0, answers[l].1);
        assert(top_answer_fits(s, answers[l]));
        lemma_top_set_fits(s, answers[l].0, answers[l].1);
    }
    assert(set_fits(sets[0]));
    lemma_top_section(section);
    lemma_top_section_there(s, ex, section);
    lemma_section_clear(s, used, answers, i);
    assert(top_section(ops, s, section, current, answers) == new_section(
        ops,
        s,
        top(),
        section,
        sets,
    ));
    lemma_section_track(s, ops, cs, 0, top(), used, section, sets);
    let more = used.push(y);
    lemma_sections_later(used, answers, i);
    assert(section_among(section, answers, i + 1)) by {
        assert(section_of(answers[i].0) == section);
    }
    assert forall|k: int| 0 <= k < more.len() implies (#[trigger] more[k]) == hosts_spot() || (
    top_spot(more[k]) && section_among(more[k].0, answers, i + 1)) by {
        if k < used.len() {
            assert(more[k] == used[k]);
        }
    }
}

proof fn lemma_section_clear(s: Seq<char>, used: Seq<Spot>, answers: Pairs, i: int)
    requires
        0 <= i < answers.len(),
        sections_used(used, answers, i),
        !section_seen(answers, i),
        top_sections().contains(section_of(answers[i].0)),
    ensures
        spot_clear(s, top(), used, (section_of(answers[i].0), Seq::empty())),
{
    let section = section_of(answers[i].0);
    let y: Spot = (section, Seq::empty());
    lemma_top_section(section);
    assert forall|k: int| 0 <= k < used.len() implies spots_apart(
        s,
        top(),
        #[trigger] used[k],
        y,
    ) by {
        if used[k] != hosts_spot() {
            assert(section_among(used[k].0, answers, i));
        }
        lemma_names_differ(used[k], y);
    }
}

proof fn lemma_sections_later(used: Seq<Spot>, answers: Pairs, i: int)
    requires
        sections_used(used, answers, i),
    ensures
        sections_used(used, answers, i + 1),
{
    assert forall|k: int| 0 <= k < used.len() implies (#[trigger] used[k]) == hosts_spot() || (
    top_spot(used[k]) && section_among(used[k].0, answers, i + 1)) by {
        if used[k] != hosts_spot() {
            assert(section_among(used[k].0, answers, i));
        }
    }
}

// ── All sections ─────────────────────────────────────────────────────
/// The plan with one section.
#[verifier::opaque]
spec fn section_plan(
    p: Plan,
    s: Seq<char>,
    section: Seq<char>,
    current: Pairs,
    answers: Pairs,
) -> Plan {
    section_step(p, s, section, current, answers)
}

/// One section.
proof fn lemma_top_section_track(
    s: Seq<char>,
    p: Plan,
    cs: Seq<ChangeView>,
    used: Seq<Spot>,
    ex: ConfigView,
    current: Pairs,
    answers: Pairs,
    i: int,
) -> (all: Seq<Spot>)
    requires
        p.1 is None,
        board_track(s, p.0, cs, 0, top(), used),
        top_there(s, ex),
        top_asks(s, answers),
        0 <= i < answers.len(),
        sections_used(used, answers, i),
        !section_seen(answers, i),
        section_plan(p, s, section_of(answers[i].0), current, answers).1 is None,
    ensures
        ({
            let section = section_of(answers[i].0);
            board_track(
                s,
                section_plan(p, s, section, current, answers).0,
                cs + top_section_changes(s, section, current, answers),
                0,
                top(),
                all,
            )
        }),
        sections_used(all, answers, i + 1),
{
    reveal(section_plan);
    reveal(top_section_changes);
    let section = section_of(answers[i].0);
    if section.len() == 0 || close_at(s, section_path(section)) is Some {
        assert forall|k: int| 0 <= k < used.len() implies {
            ||| (#[trigger] used[k]) == hosts_spot()
            ||| top_spot(used[k]) && used[k].0 != section && section_among(used[k].0, answers, i)
            ||| top_spot(used[k]) && used[k].0 == section && key_among(used[k], answers, 0)
        } by {
            if used[k] != hosts_spot() {
                assert(section_among(used[k].0, answers, i));
            }
        }
        assert(section_plan(p, s, section, current, answers) == top_keys_plan(
            p,
            s,
            section,
            current,
            answers,
            0,
        )) by {
            reveal(top_keys_plan);
        }
        let all = lemma_top_keys_track(s, p, cs, used, ex, current, answers, i, section, 0);
        lemma_keys_are_sections(all, answers, i);
        all
    } else {
        let sets = top_sets(section, current, answers);
        lemma_sections_later(used, answers, i);
        if sets.len() > 0 {
            let c = section_change(top(), section, sets);
            lemma_new_section_track(s, p.0, cs, used, ex, current, answers, i);
            assert(cs.push(c) =~= cs + seq![c]);
            used.push((section, Seq::empty()))
        } else {
            assert(top_section(p.0, s, section, current, answers).0 == p.0) by {
                reveal(top_sets);
            }
            assert(cs + Seq::<ChangeView>::empty() =~= cs);
            used
        }
    }
}

proof fn lemma_keys_are_sections(used: Seq<Spot>, answers: Pairs, i: int)
    requires
        0 <= i < answers.len(),
        keys_so_far(used, answers, i, section_of(answers[i].0), answers.len() as int),
    ensures
        sections_used(used, answers, i + 1),
{
    let section = section_of(answers[i].0);
    assert(section_among(section, answers, i + 1)) by {
        assert(section_of(answers[i].0) == section);
    }
    assert forall|k: int| 0 <= k < used.len() implies (#[trigger] used[k]) == hosts_spot() || (
    top_spot(used[k]) && section_among(used[k].0, answers, i + 1)) by {
        if used[k] != hosts_spot() && used[k].0 != section {
            assert(section_among(used[k].0, answers, i));
        }
    }
}

/// The changes for the top-level sections, from answer `i` on.
#[verifier::opaque]
pub open spec fn top_changes(s: Seq<char>, current: Pairs, answers: Pairs, i: int) -> Seq<ChangeView>
    decreases answers.len() - i,
{
    if i < 0 || i >= answers.len() {
        Seq::empty()
    } else if section_seen(answers, i) {
        top_changes(s, current, answers, i + 1)
    } else {
        top_section_changes(s, section_of(answers[i].0), current, answers) + top_changes(
            s,
            current,
            answers,
            i + 1,
        )
    }
}

/// The plan with the sections from answer `i` on.
#[verifier::opaque]
pub open spec fn sections_plan(
    p: Plan,
    s: Seq<char>,
    current: Pairs,
    answers: Pairs,
    i: int,
) -> Plan {
    sections_from(p, s, current, answers, i)
}

proof fn lemma_sections_step(p: Plan, s: Seq<char>, current: Pairs, answers: Pairs, i: int)
    requires
        p.1 is None,
        0 <= i < answers.len(),
        sections_plan(p, s, current, answers, i).1 is None,
    ensures
        section_seen(answers, i) ==> {
            &&& sections_plan(p, s, current, answers, i) == sections_plan(
                p,
                s,
                current,
                answers,
                i + 1,
            )
            &&& top_changes(s, current, answers, i) == top_changes(s, current, answers, i + 1)
        },
        !section_seen(answers, i) ==> {
            let section = section_of(answers[i].0);
            let next = section_plan(p, s, section, current, answers);
            &&& next.1 is None
            &&& sections_plan(p, s, current, answers, i) == sections_plan(
                next,
                s,
                current,
                answers,
                i + 1,
            )
            &&& top_changes(s, current, answers, i) == top_section_changes(
                s,
                section,
                current,
                answers,
            ) + top_changes(s, current, answers, i + 1)
        },
{
    reveal(sections_plan);
    reveal(section_plan);
    reveal_with_fuel(top_changes, 2);
    if !section_seen(answers, i) {
        let next = section_step(p, s, section_of(answers[i].0), current, answers);
        if next.1 is Some {
            assert(sections_from(next, s, current, answers, i + 1) == next);
        }
    }
}

proof fn lemma_sections_ended(p: Plan, s: Seq<char>, current: Pairs, answers: Pairs, i: int)
    requires
        i >= answers.len(),
    ensures
        sections_plan(p, s, current, answers, i) == p,
        top_changes(s, current, answers, i) == Seq::<ChangeView>::empty(),
{
    reveal(sections_plan);
    reveal(top_changes);
}

proof fn lemma_sections_track(
    s: Seq<char>,
    p: Plan,
    cs: Seq<ChangeView>,
    used: Seq<Spot>,
    ex: ConfigView,
    current: Pairs,
    answers: Pairs,
    i: int,
)
    requires
        p.1 is None,
        board_track(s, p.0, cs, 0, top(), used),
        top_there(s, ex),
        top_asks(s, answers),
        0 <= i <= answers.len(),
        sections_used(used, answers, i),
        sections_plan(p, s, current, answers, i).1 is None,
    ensures
        on_track(
            s,
            sections_plan(p, s, current, answers, i).0,
            cs + top_changes(s, current, answers, i),
        ),
    decreases answers.len() - i,
{
    if i < answers.len() {
        lemma_sections_step(p, s, current, answers, i);
        if section_seen(answers, i) {
            lemma_sections_later(used, answers, i);
            lemma_sections_track(s, p, cs, used, ex, current, answers, i + 1);
        } else {
            let section = section_of(answers[i].0);
            let next = section_plan(p, s, section, current, answers);
            let here = top_section_changes(s, section, current, answers);
            let all = lemma_top_section_track(s, p, cs, used, ex, current, answers, i);
            lemma_sections_track(s, next, cs + here, all, ex, current, answers, i + 1);
            let rest = top_changes(s, current, answers, i + 1);
            assert(cs + here + rest =~= cs + (here + rest));
        }
    } else {
        lemma_sections_ended(p, s, current, answers, i);
        assert(cs + Seq::<ChangeView>::empty() =~= cs);
        reveal(board_track);
    }
}

/// The plan of the top-level sections is on track, behind changes of the hosts.
pub proof fn lemma_sections_on_track(
    s: Seq<char>,
    p: Plan,
    cs: Seq<ChangeView>,
    ex: ConfigView,
    current: Pairs,
    answers: Pairs,
)
    requires
        p.1 is None,
        on_track(s, p.0, cs),
        forall|k: int| 0 <= k < cs.len() ==> within(#[trigger] cs[k], top(), "dev_hosts"@),
        top_there(s, ex),
        top_asks(s, answers),
        sections_plan(p, s, current, answers, 0).1 is None,
    ensures
        on_track(
            s,
            sections_plan(p, s, current, answers, 0).0,
            cs + top_changes(s, current, answers, 0),
        ),
{
    let used = Seq::new(cs.len(), |k: int| hosts_spot());
    assert(board_track(s, p.0, cs, 0, top(), used)) by {
        reveal(board_track);
    }
    lemma_sections_track(s, p, cs, used, ex, current, answers, 0);
}

proof fn lemma_top_key_changes_all(
    s: Seq<char>,
    section: Seq<char>,
    current: Pairs,
    answers: Pairs,
    j: int,
    f: spec_fn(ChangeView) -> bool,
)
    requires
        0 <= j,
        forall|l: int|
            0 <= l < answers.len() && asks_value(current, (#[trigger] answers[l]).0, answers[l].1)
                ==> f(
                member_change(
                    s,
                    section_path(section_of(answers[l].0)),
                    field_of(answers[l].0),
                    spelled(top_set(answers[l].0, answers[l].1).literal),
                ),
            ),
        forall|l: int|
            0 <= l < answers.len() && asks_removal(
                s,
                section_of((#[trigger] answers[l]).0),
                current,
                answers[l].0,
                answers[l].1,
            ) ==> f(
                ChangeView::Gone {
                    path: section_path(section_of(answers[l].0)),
                    key: field_of(answers[l].0),
                },
            ),
    ensures
        forall|n: int|
            0 <= n < top_key_changes(s, section, current, answers, j).len() ==> f(
                #[trigger] top_key_changes(s, section, current, answers, j)[n],
            ),
    decreases answers.len() - j,
{
    reveal_with_fuel(top_key_changes, 1);
    let cs = top_key_changes(s, section, current, answers, j);
    if j < answers.len() {
        lemma_top_key_changes_all(s, section, current, answers, j + 1, f);
        let rest = top_key_changes(s, section, current, answers, j + 1);
        let (key, value) = answers[j];
        assert(answers[j].0 == key);
        assert forall|n: int| 0 <= n < cs.len() implies f(#[trigger] cs[n]) by {
            let d = cs.len() - rest.len();
            if n >= d {
                assert(cs[n] == rest[n - d]);
            }
        }
    }
}

/// What holds of every change that the answers to top-level keys can ask for
/// holds of the changes that they do.
pub proof fn lemma_top_changes_all(
    p: Plan,
    s: Seq<char>,
    current: Pairs,
    answers: Pairs,
    i: int,
    f: spec_fn(ChangeView) -> bool,
)
    requires
        p.1 is None,
        top_asks(s, answers),
        0 <= i <= answers.len(),
        sections_plan(p, s, current, answers, i).1 is None,
        forall|l: int|
            0 <= l < answers.len() && asks_value(current, (#[trigger] answers[l]).0, answers[l].1)
                ==> f(
                member_change(
                    s,
                    section_path(section_of(answers[l].0)),
                    field_of(answers[l].0),
                    spelled(top_set(answers[l].0, answers[l].1).literal),
                ),
            ),
        forall|l: int|
            0 <= l < answers.len() && asks_removal(
                s,
                section_of((#[trigger] answers[l]).0),
                current,
                answers[l].0,
                answers[l].1,
            ) ==> f(
                ChangeView::Gone {
                    path: section_path(section_of(answers[l].0)),
                    key: field_of(answers[l].0),
                },
            ),
        forall|section: Seq<char>, sets: Seq<SetView>|
            sets.len() > 0 && section.len() > 0 && (forall|k: int|
                0 <= k < sets.len() ==> set_among(
                    #[trigger] sets[k],
                    answers,
                    section,
                    answers.len() as int,
                )) ==> f(#[trigger] section_change(top(), section, sets)),
    ensures
        forall|n: int|
            0 <= n < top_changes(s, current, answers, i).len() ==> f(
                #[trigger] top_changes(s, current, answers, i)[n],
            ),
    decreases answers.len() - i,
{
    let cs = top_changes(s, current, answers, i);
    if i < answers.len() {
        lemma_sections_step(p, s, current, answers, i);
        if section_seen(answers, i) {
            lemma_top_changes_all(p, s, current, answers, i + 1, f);
        } else {
            let section = section_of(answers[i].0);
            let next = section_plan(p, s, section, current, answers);
            let here = top_section_changes(s, section, current, answers);
            let rest = top_changes(s, current, answers, i + 1);
            lemma_top_changes_all(next, s, current, answers, i + 1, f);
            assert forall|n: int| 0 <= n < here.len() implies f(#[trigger] here[n]) by {
                reveal(top_section_changes);
                if section.len() == 0 || close_at(s, section_path(section)) is Some {
                    lemma_top_key_changes_all(s, section, current, answers, 0, f);
                } else {
                    let sets = top_sets(section, current, answers);
                    reveal(section_plan);
                    reveal(top_sets);
                    lemma_top_sets(s, Seq::empty(), section, current, answers, 0);
                    assert(here[0] == section_change(top(), section, sets));
                }
            }
            assert forall|n: int| 0 <= n < cs.len() implies f(#[trigger] cs[n]) by {
                if n < here.len() {
                    assert(cs[n] == here[n]);
                } else {
                    assert(cs[n] == rest[n - here.len()]);
                }
            }
        }
    } else {
        lemma_sections_ended(p, s, current, answers, i);
    }
}

} // verus!

//! What an updated configuration says of the answers to the advanced keys of the
//! top level.
use crate::advanced::{dut_owned, field_of, literal_of, section_of};
use crate::answers::WizardAnswersView;
use crate::board::{edits_of, member_change};
use crate::board_answers::{lemma_literal_says_answer, says_answer};
use crate::board_fields::spelled;
use crate::changes::ChangeView;
use crate::config::ConfigView;
use crate::current::current_of;
use crate::edit::edited_from;
use crate::jsonc::document;
use crate::key_texts::shown;
use crate::locate::{close_at, value_span, SegView};
use crate::text_map::{lookup, Pairs};
use crate::top_level::{
    asks_removal, asks_value, top_changes, top_key_changes, top_section_changes, top_set,
};
use crate::update_config::{section_path, section_seen, update_plan};
use crate::updated::{host_list_changes, update_changes};
use crate::updated_boards::{lemma_change_is_said, lemma_member_is_said, updated_at, updates};
use vstd::prelude::*;

verus! {

proof fn lemma_key_change_among(
    s: Seq<char>,
    section: Seq<char>,
    current: Pairs,
    answers: Pairs,
    j: int,
    l: int,
)
    requires
        0 <= j <= l < answers.len(),
        section_of(answers[l].0) == section,
    ensures
        asks_value(current, answers[l].0, answers[l].1) ==> top_key_changes(
            s,
            section,
            current,
            answers,
            j,
        ).contains(
            member_change(
                s,
                section_path(section),
                field_of(answers[l].0),
                spelled(top_set(answers[l].0, answers[l].1).literal),
            ),
        ),
        asks_removal(s, section, current, answers[l].0, answers[l].1) ==> top_key_changes(
            s,
            section,
            current,
            answers,
            j,
        ).contains(
            ChangeView::Gone { path: section_path(section), key: field_of(answers[l].0) },
        ),
    decreases l - j,
{
    reveal_with_fuel(top_key_changes, 1);
    let cs = top_key_changes(s, section, current, answers, j);
    let rest = top_key_changes(s, section, current, answers, j + 1);
    let (key, value) = answers[l];
    let c = member_change(
        s,
        section_path(section),
        field_of(key),
        spelled(top_set(key, value).literal),
    );
    let g = ChangeView::Gone { path: section_path(section), key: field_of(key) };
    if j == l {
        if asks_value(current, key, value) {
            assert(cs[0] == c);
        } else if asks_removal(s, section, current, key, value) {
            assert(cs[0] == g);
        }
    } else {
        lemma_key_change_among(s, section, current, answers, j + 1, l);
        if asks_value(current, key, value) {
            let k = choose|k: int| 0 <= k < rest.len() && rest[k] == c;
            assert(cs[cs.len() - rest.len() + k] == c);
        }
        if asks_removal(s, section, current, key, value) {
            let k = choose|k: int| 0 <= k < rest.len() && rest[k] == g;
            assert(cs[cs.len() - rest.len() + k] == g);
        }
    }
}

proof fn lemma_section_among(
    s: Seq<char>,
    current: Pairs,
    answers: Pairs,
    i: int,
    l: int,
    c: ChangeView,
)
    requires
        0 <= i <= l < answers.len(),
        forall|k: int| 0 <= k < i ==> section_of((#[trigger] answers[k]).0) != section_of(
            answers[l].0,
        ),
        top_section_changes(s, section_of(answers[l].0), current, answers).contains(c),
    ensures
        top_changes(s, current, answers, i).contains(c),
    decreases l - i,
{
    reveal_with_fuel(top_changes, 1);
    let section = section_of(answers[l].0);
    let cs = top_changes(s, current, answers, i);
    let rest = top_changes(s, current, answers, i + 1);
    if section_of(answers[i].0) == section {
        if section_seen(answers, i) {
            let k = choose|k: int|
                0 <= k < i && section_of((#[trigger] answers[k]).0) == section_of(answers[i].0);
            assert(section_of(answers[k].0) != section);
        }
        let here = top_section_changes(s, section, current, answers);
        let k = choose|k: int| 0 <= k < here.len() && here[k] == c;
        assert(cs == here + rest);
        assert(cs[k] == c);
    } else {
        lemma_section_among(s, current, answers, i + 1, l, c);
        let k = choose|k: int| 0 <= k < rest.len() && rest[k] == c;
        assert(cs[cs.len() - rest.len() + k] == c);
    }
}

proof fn lemma_top_change_is_said(
    s: Seq<char>,
    ex: ConfigView,
    a: WizardAnswersView,
    l: int,
    c: ChangeView,
)
    requires
        updates(s, ex, a),
        0 <= l < a.advanced.len(),
        section_of(a.advanced[l].0).len() == 0 || close_at(
            s,
            section_path(section_of(a.advanced[l].0)),
        ) is Some,
        top_key_changes(s, section_of(a.advanced[l].0), current_of(ex), a.advanced, 0).contains(c),
    ensures
        ({
            let t = edited_from(s, edits_of(update_plan(s, ex, a).0), 0)->Ok_0;
            document(t) is Some && crate::together::says_change(document(t)->0, c)
        }),
{
    let global = current_of(ex);
    assert(update_changes(s, ex, a).contains(c)) by {
        reveal(top_section_changes);
        lemma_section_among(s, global, a.advanced, 0, l, c);
        let hosts = host_list_changes(s, ex.dev_hosts, a.hosts, global, 0);
        let tops = top_changes(s, global, a.advanced, 0);
        let k = choose|k: int| 0 <= k < tops.len() && tops[k] == c;
        assert(update_changes(s, ex, a)[hosts.len() + k] == c);
    }
    lemma_change_is_said(s, ex, a, c);
}

/// An update writes the answer to an advanced key of the top level under that
/// key, where it differs from what is there and the section of the key is there.
pub proof fn lemma_top_answers_are_written(
    s: Seq<char>,
    ex: ConfigView,
    a: WizardAnswersView,
    l: int,
)
    requires
        updates(s, ex, a),
        0 <= l < a.advanced.len(),
        section_of(a.advanced[l].0).len() == 0 || close_at(
            s,
            section_path(section_of(a.advanced[l].0)),
        ) is Some,
        lookup(current_of(ex), a.advanced[l].0) != Some(a.advanced[l].1),
    ensures
        ({
            let (key, value) = a.advanced[l];
            let now = updated_at(
                s,
                ex,
                a,
                section_path(section_of(key)).push(SegView::Key(field_of(key))),
            );
            &&& literal_of(key, value) matches Ok(Some(literal)) ==> now == Some(spelled(literal))
            &&& dut_owned(key) && (literal_of(key, value) matches Ok(Some(_))) ==> (shown(
                now,
            ) matches Some(x) && says_answer(key, x, value))
            &&& literal_of(key, value) matches Ok(None) ==> value_span(
                s,
                section_path(section_of(key)).push(SegView::Key(field_of(key))),
            ) is Some ==> now is None
        }),
{
    let (key, value) = a.advanced[l];
    let section = section_of(key);
    let global = current_of(ex);
    let j = document(edited_from(s, edits_of(update_plan(s, ex, a).0), 0)->Ok_0)->0;
    lemma_key_change_among(s, section, global, a.advanced, 0, l);
    match literal_of(key, value) {
        Ok(Some(literal)) => {
            let w = spelled(top_set(key, value).literal);
            let c = member_change(s, section_path(section), field_of(key), w);
            lemma_top_change_is_said(s, ex, a, l, c);
            lemma_member_is_said(s, section_path(section), field_of(key), w, j);
            if dut_owned(key) {
                lemma_literal_says_answer(key, value, literal);
            }
        },
        Ok(None) => {
            if asks_removal(s, section, global, key, value) {
                let c = ChangeView::Gone { path: section_path(section), key: field_of(key) };
                lemma_top_change_is_said(s, ex, a, l, c);
            }
        },
        Err(_) => {},
    }
}

} // verus!

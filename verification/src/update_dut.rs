//! The edits for one board that is already in the document.
use crate::advanced::{
    advanced_field, advanced_literal, comment_for, comment_of, comment_view, field_of,
    json_literal, literal_of, parse_number_or_string, scalar_literal, scalar_of, section_of,
    C_DUT_NAME, C_LOGIN_USER, C_PORT, C_POWER_CH, C_POWER_OFF, C_RELAY_CH_ALIASES, C_RELAY_TYPE,
    C_RESET_TIME,
};
use crate::answers::{DutAnswers, DutAnswersView};
use crate::config::{DutView, JsoncDut, JsoncRelay, RelayView};
use crate::current::{dut_advanced_current, dut_current_of, scalar_now};
use crate::edit::{container_member_indent, entry_indent, no_container, EditOp, EditView};
use crate::jsonc::{json_string, quoted};
use crate::locate::{
    close_at, copy_path, key_path, locate_container_close, locate_value, path_view, value_span,
    PathSeg, SegView,
};
use crate::number::{decimal, decimal_text};
use crate::order::{
    comes_before, lemma_before_irreflexive, lemma_before_total, lemma_before_transitive,
    text_before,
};
use crate::render::{lines_view, render_section_block, section_block, Line, LineView};
use crate::text::{
    copy_opt, join, joined, opt_text, or_empty, owned, same, text_or_empty, texts, trim, trimmed,
};
use crate::text_map::{lookup, Pairs, TextMap};
use crate::update::{
    change_desc, change_text, failure, field_to_static, ops_view, planned, push_op, section_fields,
    set_or_append, set_or_append_key, unknown_field, OpView, OpWithDesc, Plan, ScalarEdit,
    ScalarView,
};
use vstd::prelude::*;

verus! {

// ── Values to be set ─────────────────────────────────────────────────
/// A value to be set: key, literal, comment and line.
pub struct SetKey {
    pub key: String,
    pub literal: String,
    pub comment: Option<&'static str>,
    pub desc: String,
}

/// The meaning of a [`SetKey`].
#[verifier::ext_equal]
pub struct SetView {
    pub key: Seq<char>,
    pub literal: Seq<char>,
    pub comment: Option<Seq<char>>,
    pub desc: Seq<char>,
}

impl View for SetKey {
    type V = SetView;

    open spec fn view(&self) -> SetView {
        SetView {
            key: self.key@,
            literal: self.literal@,
            comment: comment_view(self.comment),
            desc: self.desc@,
        }
    }
}

/// The meanings of some values to be set.
pub open spec fn sets_view(v: Seq<SetKey>) -> Seq<SetView> {
    Seq::new(v.len(), |i: int| v[i]@)
}

/// A value for a section that the board does not have.
pub struct MissingKey {
    pub section: String,
    pub set: SetKey,
}

/// The meaning of a [`MissingKey`].
#[verifier::ext_equal]
pub struct MissingView {
    pub section: Seq<char>,
    pub set: SetView,
}

impl View for MissingKey {
    type V = MissingView;

    open spec fn view(&self) -> MissingView {
        MissingView { section: self.section@, set: self.set@ }
    }
}

/// The meanings of some values for missing sections.
pub open spec fn missing_view(v: Seq<MissingKey>) -> Seq<MissingView> {
    Seq::new(v.len(), |i: int| v[i]@)
}

// ── Name, port and user ──────────────────────────────────────────────
/// The plan with the change of the board's name.
pub open spec fn name_step(
    p: Plan,
    s: Seq<char>,
    path: Seq<SegView>,
    ex: DutView,
    a: DutAnswersView,
) -> Plan {
    if p.1 is Some || ex.dut_name == a.dut_name {
        p
    } else {
        planned(
            p.0,
            set_or_append(
                s,
                path,
                ScalarView {
                    key: "dut_name"@,
                    literal: quoted(a.dut_name),
                    comment: Some(C_DUT_NAME@),
                    desc: change_desc("DUT name"@, ex.dut_name, a.dut_name),
                    before: None,
                },
            ),
        )
    }
}

/// The port that a board has now, as text.
pub open spec fn port_now(ex: DutView) -> Option<Seq<char>> {
    match ex.serial {
        Some(x) => scalar_now(x.port),
        None => None,
    }
}

/// How the board's port is written.
pub open spec fn port_set(ex: DutView, a: DutAnswersView) -> SetView {
    SetView {
        key: "port"@,
        literal: scalar_literal(scalar_of(a.serial_port)),
        comment: Some(C_PORT@),
        desc: change_desc("serial.port"@, or_empty(port_now(ex)), a.serial_port),
    }
}

/// The plan with one value of a section that is there. For a section that is
/// not there the value is left to [`missing_set`].
pub open spec fn set_step(
    p: Plan,
    s: Seq<char>,
    path: Seq<SegView>,
    section: Seq<char>,
    x: SetView,
) -> Plan {
    let container = path.push(SegView::Key(section));
    if p.1 is Some || close_at(s, container) is None {
        p
    } else {
        planned(
            p.0,
            set_or_append(
                s,
                container,
                ScalarView {
                    key: x.key,
                    literal: x.literal,
                    comment: x.comment,
                    desc: x.desc,
                    before: None,
                },
            ),
        )
    }
}

/// The values for missing sections with one value more, where its section is
/// not there.
pub open spec fn missing_set(
    missing: Seq<MissingView>,
    s: Seq<char>,
    path: Seq<SegView>,
    section: Seq<char>,
    x: SetView,
) -> Seq<MissingView> {
    if close_at(s, path.push(SegView::Key(section))) is None {
        missing.push(MissingView { section, set: x })
    } else {
        missing
    }
}

/// Whether the answers leave the board's port as it is.
pub open spec fn port_stays(ex: DutView, a: DutAnswersView) -> bool {
    port_now(ex) == Some(a.serial_port)
}

/// The plan with the change of the board's port.
pub open spec fn port_step(
    p: Plan,
    s: Seq<char>,
    path: Seq<SegView>,
    ex: DutView,
    a: DutAnswersView,
) -> Plan {
    if port_stays(ex, a) {
        p
    } else {
        set_step(p, s, path, "serial"@, port_set(ex, a))
    }
}

/// The login user that a board has now.
pub open spec fn user_now(ex: DutView) -> Option<Seq<char>> {
    match ex.target {
        Some(t) => t.login_user,
        None => None,
    }
}

/// How the board's login user is written.
pub open spec fn user_set(ex: DutView, a: DutAnswersView) -> SetView {
    SetView {
        key: "login_user"@,
        literal: quoted(a.login_user),
        comment: Some(C_LOGIN_USER@),
        desc: change_desc("login_user"@, or_empty(user_now(ex)), a.login_user),
    }
}

/// Whether the answers leave the board's login user as it is. Where none is
/// set the user is `root`.
pub open spec fn user_stays(ex: DutView, a: DutAnswersView) -> bool {
    match user_now(ex) {
        Some(u) => u == a.login_user,
        None => a.login_user == "root"@,
    }
}

/// The plan with the change of the board's login user.
pub open spec fn user_step(
    p: Plan,
    s: Seq<char>,
    path: Seq<SegView>,
    ex: DutView,
    a: DutAnswersView,
) -> Plan {
    if user_stays(ex, a) {
        p
    } else {
        set_step(p, s, path, "target"@, user_set(ex, a))
    }
}

/// The port, where it is to be set and its section is missing.
pub open spec fn port_missing(
    s: Seq<char>,
    path: Seq<SegView>,
    ex: DutView,
    a: DutAnswersView,
) -> Seq<MissingView> {
    if port_stays(ex, a) {
        Seq::empty()
    } else {
        missing_set(Seq::empty(), s, path, "serial"@, port_set(ex, a))
    }
}

/// The port and the login user, so far as they are to be set and their section
/// is missing.
pub open spec fn quick_missing(
    s: Seq<char>,
    path: Seq<SegView>,
    ex: DutView,
    a: DutAnswersView,
) -> Seq<MissingView> {
    if user_stays(ex, a) {
        port_missing(s, path, ex, a)
    } else {
        missing_set(port_missing(s, path, ex, a), s, path, "target"@, user_set(ex, a))
    }
}

/// Writes one value of a section that is there, or keeps it for a section that
/// is not.
fn set_or_keep(
    text: &str,
    ops: &mut Vec<OpWithDesc>,
    missing: &mut Vec<MissingKey>,
    path: &[PathSeg],
    section: &str,
    set: SetKey,
) -> (r: Result<(), String>)
    ensures
        (ops_view(final(ops)@), failure(r)) == set_step(
            (ops_view(old(ops)@), None),
            text@,
            path_view(path@),
            section@,
            set@,
        ),
        missing_view(final(missing)@) == missing_set(
            missing_view(old(missing)@),
            text@,
            path_view(path@),
            section@,
            set@,
        ),
{
    let container = key_path(path, section);
    if locate_container_close(text, container.as_slice()).is_some() {
        set_or_append_key(
            text,
            ops,
            container.as_slice(),
            ScalarEdit {
                key: set.key.as_str(),
                literal: set.literal.as_str(),
                comment: set.comment,
                desc: set.desc,
                before: None,
            },
        )
    } else {
        let m = MissingKey { section: owned(section), set };
        missing.push(m);
        assert(missing_view(missing@) =~= missing_view(old(missing)@).push(m@));
        Ok(())
    }
}

fn compare_name(
    text: &str,
    ops: &mut Vec<OpWithDesc>,
    path: &[PathSeg],
    ex: &JsoncDut,
    answers: &DutAnswers,
) -> (r: Result<(), String>)
    ensures
        (ops_view(final(ops)@), failure(r)) == name_step(
            (ops_view(old(ops)@), None),
            text@,
            path_view(path@),
            ex@,
            answers@,
        ),
{
    if same(ex.dut_name.as_str(), answers.dut_name.as_str()) {
        return Ok(());
    }
    let desc = change_text("DUT name", ex.dut_name.as_str(), answers.dut_name.as_str());
    set_or_append_key(
        text,
        ops,
        path,
        ScalarEdit {
            key: "dut_name",
            literal: json_string(answers.dut_name.as_str()).as_str(),
            comment: Some(C_DUT_NAME),
            desc,
            before: None,
        },
    )
}

fn compare_port(
    text: &str,
    ops: &mut Vec<OpWithDesc>,
    missing: &mut Vec<MissingKey>,
    path: &[PathSeg],
    ex: &JsoncDut,
    answers: &DutAnswers,
) -> (r: Result<(), String>)
    requires
        old(missing)@.len() == 0,
    ensures
        (ops_view(final(ops)@), failure(r)) == port_step(
            (ops_view(old(ops)@), None),
            text@,
            path_view(path@),
            ex@,
            answers@,
        ),
        missing_view(final(missing)@) == port_missing(text@, path_view(path@), ex@, answers@),
{
    assert(missing_view(missing@) =~= Seq::empty());
    let now = match &ex.serial {
        Some(x) => match &x.port {
            Some(p) => Some(p.to_value_string()),
            None => None,
        },
        None => None,
    };
    assert(opt_text(now) == port_now(ex@));
    let stays = match &now {
        Some(p) => same(p.as_str(), answers.serial_port.as_str()),
        None => false,
    };
    if stays {
        return Ok(());
    }
    let literal = match parse_number_or_string(answers.serial_port.as_str()) {
        Ok(v) => json_literal(&v),
        Err(e) => {
            return Err(e);
        },
    };
    let desc = change_text(
        "serial.port",
        text_or_empty(&now).as_str(),
        answers.serial_port.as_str(),
    );
    let set = SetKey { key: owned("port"), literal, comment: Some(C_PORT), desc };
    assert(set@ =~= port_set(ex@, answers@));
    set_or_keep(text, ops, missing, path, "serial", set)
}

fn compare_user(
    text: &str,
    ops: &mut Vec<OpWithDesc>,
    missing: &mut Vec<MissingKey>,
    path: &[PathSeg],
    ex: &JsoncDut,
    answers: &DutAnswers,
) -> (r: Result<(), String>)
    requires
        missing_view(old(missing)@) == port_missing(text@, path_view(path@), ex@, answers@),
    ensures
        (ops_view(final(ops)@), failure(r)) == user_step(
            (ops_view(old(ops)@), None),
            text@,
            path_view(path@),
            ex@,
            answers@,
        ),
        missing_view(final(missing)@) == quick_missing(text@, path_view(path@), ex@, answers@),
{
    let now = match &ex.target {
        Some(t) => copy_opt(&t.login_user),
        None => None,
    };
    assert(opt_text(now) == user_now(ex@));
    let stays = match &now {
        Some(u) => same(u.as_str(), answers.login_user.as_str()),
        None => same(answers.login_user.as_str(), "root"),
    };
    if stays {
        return Ok(());
    }
    let desc = change_text(
        "login_user",
        text_or_empty(&now).as_str(),
        answers.login_user.as_str(),
    );
    let literal = json_string(answers.login_user.as_str());
    let set = SetKey { key: owned("login_user"), literal, comment: Some(C_LOGIN_USER), desc };
    assert(set@ =~= user_set(ex@, answers@));
    set_or_keep(text, ops, missing, path, "target", set)
}

// ── The relay ────────────────────────────────────────────────────────
/// One value of the relay section: what is there, what was answered, and the
/// answer that stands for the default.
pub struct RelayChange {
    pub key: &'static str,
    pub existing: Option<String>,
    pub answer: String,
    pub default: &'static str,
    pub comment: Option<&'static str>,
}

/// The meaning of a [`RelayChange`].
#[verifier::ext_equal]
pub struct RelayChangeView {
    pub key: Seq<char>,
    pub existing: Option<Seq<char>>,
    pub answer: Seq<char>,
    pub default: Seq<char>,
    pub comment: Option<Seq<char>>,
}

impl View for RelayChange {
    type V = RelayChangeView;

    open spec fn view(&self) -> RelayChangeView {
        RelayChangeView {
            key: self.key@,
            existing: opt_text(self.existing),
            answer: self.answer@,
            default: self.default@,
            comment: comment_view(self.comment),
        }
    }
}

/// The meanings of some relay values.
pub open spec fn changes_view(v: Seq<RelayChange>) -> Seq<RelayChangeView> {
    Seq::new(v.len(), |i: int| v[i]@)
}

/// A number of 8 bits that is set, as text.
pub open spec fn channel_now(o: Option<u8>) -> Option<Seq<char>> {
    match o {
        Some(n) => Some(decimal(n as nat)),
        None => None,
    }
}

/// A number of 8 bits that is set, as text.
pub fn channel_text(o: Option<u8>) -> (r: Option<String>)
    ensures
        opt_text(r) == channel_now(o),
{
    match o {
        Some(n) => Some(decimal_text(n as u64)),
        None => None,
    }
}

/// A number of 64 bits that is set, as text.
pub open spec fn time_now(o: Option<u64>) -> Option<Seq<char>> {
    match o {
        Some(n) => Some(decimal(n as nat)),
        None => None,
    }
}

/// A number of 64 bits that is set, as text.
pub fn time_text(o: Option<u64>) -> (r: Option<String>)
    ensures
        opt_text(r) == time_now(o),
{
    match o {
        Some(n) => Some(decimal_text(n)),
        None => None,
    }
}

/// The relay values in the order in which they are written.
pub open spec fn relay_changes(ex: Option<RelayView>, a: DutAnswersView) -> Seq<RelayChangeView> {
    let x = match ex {
        Some(r) => r,
        None => crate::config::no_relay(),
    };
    seq![
        RelayChangeView {
            key: "type"@,
            existing: x.relay_type,
            answer: a.relay_type,
            default: "ch340"@,
            comment: Some(C_RELAY_TYPE@),
        },
        RelayChangeView {
            key: "port"@,
            existing: match x.port {
                Some(n) => Some(decimal(n as nat)),
                None => None,
            },
            answer: a.relay_port,
            default: "0"@,
            comment: None,
        },
        RelayChangeView {
            key: "reset_ch"@,
            existing: channel_now(x.reset_ch),
            answer: a.relay_reset_ch,
            default: "0"@,
            comment: Some(C_RELAY_CH_ALIASES@),
        },
        RelayChangeView {
            key: "download_ch"@,
            existing: channel_now(x.download_ch),
            answer: a.relay_download_ch,
            default: "0"@,
            comment: None,
        },
        RelayChangeView {
            key: "power_ch"@,
            existing: channel_now(x.power_ch),
            answer: a.relay_power_ch,
            default: "0"@,
            comment: Some(C_POWER_CH@),
        },
        RelayChangeView {
            key: "reset_time_ms"@,
            existing: time_now(x.reset_time_ms),
            answer: a.relay_reset_time_ms,
            default: "0"@,
            comment: Some(C_RESET_TIME@),
        },
        RelayChangeView {
            key: "power_off_time_ms"@,
            existing: time_now(x.power_off_time_ms),
            answer: a.relay_power_off_time_ms,
            default: "3000"@,
            comment: Some(C_POWER_OFF@),
        },
    ]
}

/// The meaning of an optional relay section.
pub open spec fn relay_view(o: Option<JsoncRelay>) -> Option<RelayView> {
    match o {
        Some(x) => Some(x@),
        None => None,
    }
}

fn list_changes(ex: &Option<JsoncRelay>, answers: &DutAnswers) -> (r: Vec<RelayChange>)
    ensures
        changes_view(r@) == relay_changes(relay_view(*ex), answers@),
{
    let x = match ex {
        Some(x) => x.copy(),
        None => JsoncRelay::default(),
    };
    let port = match x.port {
        Some(n) => Some(decimal_text(n as u64)),
        None => None,
    };
    let mut v: Vec<RelayChange> = Vec::new();
    v.push(
        RelayChange {
            key: "type",
            existing: copy_opt(&x.relay_type),
            answer: owned(answers.relay_type.as_str()),
            default: "ch340",
            comment: Some(C_RELAY_TYPE),
        },
    );
    v.push(
        RelayChange {
            key: "port",
            existing: port,
            answer: owned(answers.relay_port.as_str()),
            default: "0",
            comment: None,
        },
    );
    v.push(
        RelayChange {
            key: "reset_ch",
            existing: channel_text(x.reset_ch),
            answer: owned(answers.relay_reset_ch.as_str()),
            default: "0",
            comment: Some(C_RELAY_CH_ALIASES),
        },
    );
    v.push(
        RelayChange {
            key: "download_ch",
            existing: channel_text(x.download_ch),
            answer: owned(answers.relay_download_ch.as_str()),
            default: "0",
            comment: None,
        },
    );
    v.push(
        RelayChange {
            key: "power_ch",
            existing: channel_text(x.power_ch),
            answer: owned(answers.relay_power_ch.as_str()),
            default: "0",
            comment: Some(C_POWER_CH),
        },
    );
    v.push(
        RelayChange {
            key: "reset_time_ms",
            existing: time_text(x.reset_time_ms),
            answer: owned(answers.relay_reset_time_ms.as_str()),
            default: "0",
            comment: Some(C_RESET_TIME),
        },
    );
    v.push(
        RelayChange {
            key: "power_off_time_ms",
            existing: time_text(x.power_off_time_ms),
            answer: owned(answers.relay_power_off_time_ms.as_str()),
            default: "3000",
            comment: Some(C_POWER_OFF),
        },
    );
    assert(changes_view(v@) =~~= relay_changes(relay_view(*ex), answers@));
    v
}

/// What is to be done to one relay value.
pub enum RelayAction {
    Nothing,
    Write(SetView),
    Remove(Seq<char>, Seq<char>),
    Fail(Seq<char>),
}

/// What is to be done to one relay value: nothing where the answer is what is
/// there, or the default where nothing is there.
pub open spec fn relay_action(c: RelayChangeView) -> RelayAction {
    let t = trimmed(c.answer);
    if c.existing is None && (t == c.default || t.len() == 0) {
        RelayAction::Nothing
    } else if c.existing == Some(t) || c.existing == Some(c.answer) {
        RelayAction::Nothing
    } else {
        let desc = change_desc(
            "relay."@ + c.key,
            or_empty(c.existing),
            if t.len() == 0 {
                "(inherit)"@
            } else {
                t
            },
        );
        let literal = if c.key == "type"@ {
            Ok::<Option<Seq<char>>, Seq<char>>(Some(quoted(t)))
        } else {
            literal_of("relay."@ + c.key, t)
        };
        match literal {
            Err(e) => RelayAction::Fail(e),
            Ok(None) => if c.existing is Some {
                RelayAction::Remove(c.key, desc)
            } else {
                RelayAction::Nothing
            },
            Ok(Some(literal)) => RelayAction::Write(
                SetView { key: c.key, literal, comment: c.comment, desc },
            ),
        }
    }
}

/// The values to be set and to be unset, from change `i` on and behind those
/// already found; and the error that ended the work, if any.
pub open spec fn relay_diff(
    c: Seq<RelayChangeView>,
    i: int,
    sets: Seq<SetView>,
    unsets: Seq<(Seq<char>, Seq<char>)>,
) -> (Seq<SetView>, Seq<(Seq<char>, Seq<char>)>, Option<Seq<char>>)
    decreases c.len() - i,
{
    if i < 0 || i >= c.len() {
        (sets, unsets, None)
    } else {
        match relay_action(c[i]) {
            RelayAction::Nothing => relay_diff(c, i + 1, sets, unsets),
            RelayAction::Write(x) => relay_diff(c, i + 1, sets.push(x), unsets),
            RelayAction::Remove(k, d) => relay_diff(c, i + 1, sets, unsets.push((k, d))),
            RelayAction::Fail(e) => (sets, unsets, Some(e)),
        }
    }
}

/// The meanings of pairs of key and line.
pub open spec fn unsets_view(v: Seq<(String, String)>) -> Seq<(Seq<char>, Seq<char>)> {
    Seq::new(v.len(), |i: int| (v[i].0@, v[i].1@))
}

fn add_relay_change(
    c: &RelayChange,
    sets: &mut Vec<SetKey>,
    unsets: &mut Vec<(String, String)>,
) -> (r: Result<(), String>)
    ensures
        match relay_action(c@) {
            RelayAction::Nothing => r is Ok && sets_view(final(sets)@) == sets_view(old(sets)@)
                && unsets_view(final(unsets)@) == unsets_view(old(unsets)@),
            RelayAction::Write(x) => r is Ok && sets_view(final(sets)@) == sets_view(
                old(sets)@,
            ).push(x) && unsets_view(final(unsets)@) == unsets_view(old(unsets)@),
            RelayAction::Remove(k, d) => r is Ok && sets_view(final(sets)@) == sets_view(old(sets)@)
                && unsets_view(final(unsets)@) == unsets_view(old(unsets)@).push((k, d)),
            RelayAction::Fail(e) => r is Err && r->Err_0@ == e,
        },
{
    let t = trim(c.answer.as_str());
    match &c.existing {
        None => {
            if same(t, c.default) || t.is_empty() {
                return Ok(());
            }
        },
        Some(x) => {
            if same(x.as_str(), t) || same(x.as_str(), c.answer.as_str()) {
                return Ok(());
            }
        },
    }
    let mut what = owned("relay.");
    what.append(c.key);
    let desc = change_text(
        what.as_str(),
        text_or_empty(&c.existing).as_str(),
        if t.is_empty() {
            "(inherit)"
        } else {
            t
        },
    );
    let literal = if same(c.key, "type") {
        Some(json_string(t))
    } else {
        match advanced_literal(what.as_str(), t) {
            Ok(l) => l,
            Err(e) => {
                return Err(e);
            },
        }
    };
    match literal {
        None => {
            if c.existing.is_some() {
                unsets.push((owned(c.key), desc));
                assert(unsets_view(unsets@) =~= unsets_view(old(unsets)@).push((c.key@, desc@)));
            }
        },
        Some(literal) => {
            let x = SetKey { key: owned(c.key), literal, comment: c.comment, desc };
            sets.push(x);
            assert(sets_view(sets@) =~= sets_view(old(sets)@).push(x@));
        },
    }
    Ok(())
}

/// The edits that remove members, from number `i` on.
pub open spec fn removals(
    ops: Seq<OpView>,
    path: Seq<SegView>,
    unsets: Seq<(Seq<char>, Seq<char>)>,
    i: int,
) -> Seq<OpView>
    decreases unsets.len() - i,
{
    if i < 0 || i >= unsets.len() {
        ops
    } else {
        let op = OpView {
            op: EditView::RemoveKey { path, key: unsets[i].0 },
            desc: unsets[i].1,
        };
        removals(ops.push(op), path, unsets, i + 1)
    }
}

/// The plan with the values set, from number `i` on.
pub open spec fn settings(p: Plan, s: Seq<char>, path: Seq<SegView>, sets: Seq<SetView>, i: int) -> Plan
    decreases sets.len() - i,
{
    if i < 0 || i >= sets.len() || p.1 is Some {
        p
    } else {
        let e = ScalarView {
            key: sets[i].key,
            literal: sets[i].literal,
            comment: sets[i].comment,
            desc: sets[i].desc,
            before: None,
        };
        settings(planned(p.0, set_or_append(s, path, e)), s, path, sets, i + 1)
    }
}

/// The lines of the values before number `n`.
pub open spec fn set_lines(sets: Seq<SetView>) -> Seq<LineView> {
    Seq::new(sets.len(), |i: int| LineView::Key(sets[i].key, sets[i].literal, sets[i].comment))
}

/// What the values say of themselves.
pub open spec fn set_descs(sets: Seq<SetView>) -> Seq<Seq<char>> {
    Seq::new(sets.len(), |i: int| sets[i].desc)
}

/// The plan with a new section that holds the values.
pub open spec fn new_section(
    ops: Seq<OpView>,
    s: Seq<char>,
    container: Seq<SegView>,
    section: Seq<char>,
    sets: Seq<SetView>,
) -> Plan {
    match entry_indent(s, container) {
        None => (ops, Some(no_container(container))),
        Some(n) => {
            let op = OpView {
                op: EditView::AppendBlock {
                    path: container,
                    block: section_block(section, set_lines(sets), n),
                },
                desc: joined(set_descs(sets), "; "@),
            };
            (ops.push(op), None)
        },
    }
}

/// Adds the edit that adds a section with some values.
pub fn append_section_block(
    text: &str,
    ops: &mut Vec<OpWithDesc>,
    container: &[PathSeg],
    section: &str,
    sets: &Vec<SetKey>,
) -> (r: Result<(), String>)
    ensures
        (ops_view(final(ops)@), failure(r)) == new_section(
            ops_view(old(ops)@),
            text@,
            path_view(container@),
            section@,
            sets_view(sets@),
        ),
{
    let n: usize = match container_member_indent(text, container) {
        Ok(n) => n,
        Err(e) => {
            return Err(e);
        },
    };
    let ghost sv = sets_view(sets@);
    let mut lines: Vec<Line> = Vec::new();
    let mut descs: Vec<String> = Vec::new();
    let mut i: usize = 0;
    while i < sets.len()
        invariant
            i <= sets.len(),
            sv == sets_view(sets@),
            lines_view(lines@) == set_lines(sv).take(i as int),
            texts(descs@) == set_descs(sv).take(i as int),
        decreases sets.len() - i,
    {
        let ghost l0 = lines@;
        let ghost d0 = descs@;
        let x = &sets[i];
        assert(sv[i as int] == x@);
        let l = Line::Key(owned(x.key.as_str()), owned(x.literal.as_str()), x.comment);
        lines.push(l);
        descs.push(owned(x.desc.as_str()));
        assert(lines_view(lines@) =~= set_lines(sv).take(i + 1)) by {
            assert(lines_view(lines@) =~= lines_view(l0).push(l@));
        }
        assert(texts(descs@) =~= set_descs(sv).take(i + 1)) by {
            assert(texts(descs@) =~= texts(d0).push(x.desc@));
        }
        i += 1;
    }
    assert(set_lines(sv).take(sv.len() as int) =~= set_lines(sv));
    assert(set_descs(sv).take(sv.len() as int) =~= set_descs(sv));
    let block = render_section_block(section, &lines, n);
    push_op(ops, EditOp::AppendBlock { path: copy_path(container), block }, join(&descs, "; "));
    Ok(())
}

/// The plan with the changes of the relay. Without a relay the answers leave
/// an existing section alone.
pub open spec fn relay_step(
    p: Plan,
    s: Seq<char>,
    path: Seq<SegView>,
    ex: DutView,
    a: DutAnswersView,
) -> Plan {
    if p.1 is Some || !a.relay_gate {
        p
    } else {
        let (sets, unsets, err) = relay_diff(
            relay_changes(ex.relay, a),
            0,
            Seq::empty(),
            Seq::empty(),
        );
        let relay_path = path.push(SegView::Key("relay"@));
        if err is Some {
            (p.0, err)
        } else if close_at(s, relay_path) is Some {
            settings((removals(p.0, relay_path, unsets, 0), None), s, relay_path, sets, 0)
        } else if sets.len() > 0 {
            new_section(p.0, s, path, "relay"@, sets)
        } else {
            p
        }
    }
}

fn compare_relay(
    text: &str,
    ops: &mut Vec<OpWithDesc>,
    path: &[PathSeg],
    ex: &JsoncDut,
    answers: &DutAnswers,
) -> (r: Result<(), String>)
    ensures
        (ops_view(final(ops)@), failure(r)) == relay_step(
            (ops_view(old(ops)@), None),
            text@,
            path_view(path@),
            ex@,
            answers@,
        ),
{
    if !answers.relay_gate {
        return Ok(());
    }
    let changes = list_changes(&ex.relay, answers);
    let ghost cv = changes_view(changes@);
    assert(cv == relay_changes(ex@.relay, answers@));
    let mut sets: Vec<SetKey> = Vec::new();
    let mut unsets: Vec<(String, String)> = Vec::new();
    let ghost whole = relay_diff(cv, 0, Seq::empty(), Seq::empty());
    assert(sets_view(sets@) =~= Seq::empty());
    assert(unsets_view(unsets@) =~= Seq::empty());
    let mut i: usize = 0;
    while i < changes.len()
        invariant
            i <= changes.len(),
            cv == changes_view(changes@),
            cv == relay_changes(ex@.relay, answers@),
            answers.relay_gate,
            whole == relay_diff(cv, 0, Seq::empty(), Seq::empty()),
            ops@ == old(ops)@,
            relay_diff(cv, i as int, sets_view(sets@), unsets_view(unsets@)) == whole,
        decreases changes.len() - i,
    {
        assert(cv[i as int] == changes@[i as int]@);
        match add_relay_change(&changes[i], &mut sets, &mut unsets) {
            Ok(_) => {},
            Err(e) => {
                return Err(e);
            },
        }
        i += 1;
    }
    let ghost sv = sets_view(sets@);
    let ghost uv = unsets_view(unsets@);
    let relay_path = key_path(path, "relay");
    let ghost rp = path_view(relay_path@);
    if locate_container_close(text, relay_path.as_slice()).is_some() {
        let ghost ops0 = ops_view(ops@);
        let mut k: usize = 0;
        while k < unsets.len()
            invariant
                k <= unsets.len(),
                rp == path_view(relay_path@),
                uv == unsets_view(unsets@),
                removals(ops_view(ops@), rp, uv, k as int) == removals(ops0, rp, uv, 0),
            decreases unsets.len() - k,
        {
            assert(uv[k as int] == (unsets@[k as int].0@, unsets@[k as int].1@));
            push_op(
                ops,
                EditOp::RemoveKey {
                    path: copy_path(relay_path.as_slice()),
                    key: owned(unsets[k].0.as_str()),
                },
                owned(unsets[k].1.as_str()),
            );
            k += 1;
        }
        let ghost ops1 = ops_view(ops@);
        assert(ops1 == removals(ops0, rp, uv, 0));
        let mut m: usize = 0;
        while m < sets.len()
            invariant
                m <= sets.len(),
                rp == path_view(relay_path@),
                sv == sets_view(sets@),
                settings((ops1, None), text@, rp, sv, 0) == relay_step(
                    (ops_view(old(ops)@), None),
                    text@,
                    path_view(path@),
                    ex@,
                    answers@,
                ),
                settings((ops_view(ops@), None), text@, rp, sv, m as int) == settings(
                    (ops1, None),
                    text@,
                    rp,
                    sv,
                    0,
                ),
            decreases sets.len() - m,
        {
            let x = &sets[m];
            assert(sv[m as int] == x@);
            match set_or_append_key(
                text,
                ops,
                relay_path.as_slice(),
                ScalarEdit {
                    key: x.key.as_str(),
                    literal: x.literal.as_str(),
                    comment: x.comment,
                    desc: owned(x.desc.as_str()),
                    before: None,
                },
            ) {
                Ok(_) => {},
                Err(e) => {
                    proof {
                        let p: Plan = (ops_view(ops@), Some(e@));
                        assert(settings(p, text@, rp, sv, m + 1) == p);
                    }
                    return Err(e);
                },
            }
            m += 1;
        }
        Ok(())
    } else if sets.len() > 0 {
        append_section_block(text, ops, path, "relay", &sets)
    } else {
        Ok(())
    }
}

// ── The board's own advanced keys ────────────────────────────────────
/// What is to be done to one advanced key of a board.
pub enum DutKeyAction {
    Nothing,
    Remove(OpView),
    Write(ScalarView),
    Missing(MissingView),
    Fail(Seq<char>),
}

/// Where the field of an advanced key of a board lives: in its section, or in
/// the board itself where the key has none.
pub open spec fn dut_container(path: Seq<SegView>, key: Seq<char>) -> Seq<SegView> {
    if section_of(key).len() == 0 {
        path
    } else {
        path.push(SegView::Key(section_of(key)))
    }
}

/// What is to be done to one advanced key of a board. The answer is held
/// against the board's own value, never against what it inherits. An answer
/// that says what is there changes nothing, and one that the board would
/// inherit is not written.
pub open spec fn dut_key_action(
    s: Seq<char>,
    path: Seq<SegView>,
    own: Pairs,
    global: Pairs,
    key: Seq<char>,
    value: Seq<char>,
) -> DutKeyAction {
    let container = dut_container(path, key);
    let t = trimmed(value);
    if lookup(own, key) == Some(value) || lookup(own, key) == Some(t) {
        DutKeyAction::Nothing
    } else {
        match literal_of(key, value) {
            Err(e) => DutKeyAction::Fail(e),
            Ok(None) => if lookup(own, key) is Some && value_span(
                s,
                container.push(SegView::Key(field_of(key))),
            ) is Some {
                DutKeyAction::Remove(
                    OpView {
                        op: EditView::RemoveKey { path: container, key: field_of(key) },
                        desc: "unset "@ + key + " (inherit global)"@,
                    },
                )
            } else {
                DutKeyAction::Nothing
            },
            Ok(Some(literal)) => if lookup(own, key) is None && lookup(global, key) == Some(t) {
                DutKeyAction::Nothing
            } else {
                let desc = change_desc(
                    key,
                    match lookup(own, key) {
                        Some(c) => c,
                        None => "(inherit)"@,
                    },
                    t,
                );
                if close_at(s, container) is Some {
                    DutKeyAction::Write(
                        ScalarView {
                            key: field_of(key),
                            literal,
                            comment: comment_of(key),
                            desc,
                            before: None,
                        },
                    )
                } else {
                    DutKeyAction::Missing(
                        MissingView {
                            section: section_of(key),
                            set: SetView {
                                key: field_of(key),
                                literal,
                                comment: comment_of(key),
                                desc,
                            },
                        },
                    )
                }
            },
        }
    }
}

/// The plan and the values for missing sections, from answer `i` on.
pub open spec fn dut_keys_from(
    p: Plan,
    missing: Seq<MissingView>,
    s: Seq<char>,
    path: Seq<SegView>,
    own: Pairs,
    global: Pairs,
    answers: Pairs,
    i: int,
) -> (Plan, Seq<MissingView>)
    decreases answers.len() - i,
{
    if i < 0 || i >= answers.len() || p.1 is Some {
        (p, missing)
    } else {
        let key = answers[i].0;
        match dut_key_action(s, path, own, global, key, answers[i].1) {
            DutKeyAction::Nothing => dut_keys_from(
                p,
                missing,
                s,
                path,
                own,
                global,
                answers,
                i + 1,
            ),
            DutKeyAction::Remove(op) => dut_keys_from(
                (p.0.push(op), None),
                missing,
                s,
                path,
                own,
                global,
                answers,
                i + 1,
            ),
            DutKeyAction::Write(e) => dut_keys_from(
                planned(p.0, set_or_append(s, dut_container(path, key), e)),
                missing,
                s,
                path,
                own,
                global,
                answers,
                i + 1,
            ),
            DutKeyAction::Missing(m) => dut_keys_from(
                p,
                missing.push(m),
                s,
                path,
                own,
                global,
                answers,
                i + 1,
            ),
            DutKeyAction::Fail(e) => ((p.0, Some(e)), missing),
        }
    }
}

fn compare_dut_key(
    text: &str,
    ops: &mut Vec<OpWithDesc>,
    missing: &mut Vec<MissingKey>,
    path: &[PathSeg],
    own: &TextMap,
    global: &TextMap,
    key: &str,
    value: &str,
) -> (r: Result<(), String>)
    ensures
        match dut_key_action(text@, path_view(path@), own@, global@, key@, value@) {
            DutKeyAction::Nothing => r is Ok && ops_view(final(ops)@) == ops_view(old(ops)@)
                && missing_view(final(missing)@) == missing_view(old(missing)@),
            DutKeyAction::Remove(op) => r is Ok && ops_view(final(ops)@) == ops_view(
                old(ops)@,
            ).push(op) && missing_view(final(missing)@) == missing_view(old(missing)@),
            DutKeyAction::Write(e) => (ops_view(final(ops)@), failure(r)) == planned(
                ops_view(old(ops)@),
                set_or_append(text@, dut_container(path_view(path@), key@), e),
            ) && missing_view(final(missing)@) == missing_view(old(missing)@),
            DutKeyAction::Missing(m) => r is Ok && ops_view(final(ops)@) == ops_view(old(ops)@)
                && missing_view(final(missing)@) == missing_view(old(missing)@).push(m),
            DutKeyAction::Fail(e) => r is Err && r->Err_0@ == e && ops_view(final(ops)@)
                == ops_view(old(ops)@) && missing_view(final(missing)@) == missing_view(
                old(missing)@,
            ),
        },
{
    let (section, field) = advanced_field(key);
    let t = trim(value);
    let container = if section.as_str().is_empty() {
        copy_path(path)
    } else {
        key_path(path, section.as_str())
    };
    assert(path_view(container@) == dut_container(path_view(path@), key@));
    let mut now = "(inherit)";
    match own.get(key) {
        Some(c) => {
            if same(c.as_str(), value) || same(c.as_str(), t) {
                return Ok(());
            }
            now = c.as_str();
        },
        None => {},
    }
    let literal = match advanced_literal(key, value) {
        Ok(l) => l,
        Err(e) => {
            return Err(e);
        },
    };
    let literal = match literal {
        None => {
            if own.contains_key(key) && locate_value(
                text,
                key_path(container.as_slice(), field.as_str()).as_slice(),
            ).is_some() {
                let mut desc = owned("unset ");
                desc.append(key);
                desc.append(" (inherit global)");
                push_op(ops, EditOp::RemoveKey { path: container, key: field }, desc);
            }
            return Ok(());
        },
        Some(l) => l,
    };
    if own.get(key).is_none() {
        match global.get(key) {
            Some(c) => {
                if same(c.as_str(), t) {
                    return Ok(());
                }
            },
            None => {},
        }
    }
    let desc = change_text(key, now, t);
    if locate_container_close(text, container.as_slice()).is_some() {
        set_or_append_key(
            text,
            ops,
            container.as_slice(),
            ScalarEdit {
                key: field.as_str(),
                literal: literal.as_str(),
                comment: comment_for(key),
                desc,
                before: None,
            },
        )
    } else {
        let m = MissingKey {
            section,
            set: SetKey { key: field, literal, comment: comment_for(key), desc },
        };
        missing.push(m);
        assert(missing_view(missing@) =~= missing_view(old(missing)@).push(m@));
        Ok(())
    }
}

// ── Missing sections ─────────────────────────────────────────────────
/// The values for sections that a board does not have, from answer `i` on.
pub open spec fn absent_from(
    s: Seq<char>,
    path: Seq<SegView>,
    own: Pairs,
    global: Pairs,
    answers: Pairs,
    i: int,
) -> Seq<MissingView>
    decreases answers.len() - i,
{
    if i < 0 || i >= answers.len() {
        Seq::empty()
    } else {
        let here = match dut_key_action(s, path, own, global, answers[i].0, answers[i].1) {
            DutKeyAction::Missing(m) => seq![m],
            _ => Seq::empty(),
        };
        here + absent_from(s, path, own, global, answers, i + 1)
    }
}

/// Adds the values for sections that a board does not have. What else the
/// answers ask for is left to a later pass, and so is what is wrong with them.
fn find_missing(
    text: &str,
    missing: &mut Vec<MissingKey>,
    path: &[PathSeg],
    own: &TextMap,
    global: &TextMap,
    answers: &TextMap,
)
    ensures
        missing_view(final(missing)@) == missing_view(old(missing)@) + absent_from(
            text@,
            path_view(path@),
            own@,
            global@,
            answers@,
            0,
        ),
{
    let mut aside: Vec<OpWithDesc> = Vec::new();
    let n: usize = answers.len();
    let mut i: usize = 0;
    let ghost pv = path_view(path@);
    let ghost whole = missing_view(missing@) + absent_from(text@, pv, own@, global@, answers@, 0);
    while i < n
        invariant
            i <= n,
            n == answers@.len(),
            pv == path_view(path@),
            missing_view(missing@) + absent_from(text@, pv, own@, global@, answers@, i as int)
                == whole,
        decreases n - i,
    {
        let ghost before = missing_view(missing@);
        let ghost rest = absent_from(text@, pv, own@, global@, answers@, i + 1);
        let _ = compare_dut_key(
            text,
            &mut aside,
            missing,
            path,
            own,
            global,
            answers.key_at(i),
            answers.value_at(i),
        );
        assert(missing_view(missing@) + rest =~= before + absent_from(
            text@,
            pv,
            own@,
            global@,
            answers@,
            i as int,
        ));
        i += 1;
    }
    assert(missing_view(missing@) + Seq::<MissingView>::empty() =~= missing_view(missing@));
}

/// Whether a value comes before another: by section, and by key within one.
pub open spec fn goes_before(a: MissingView, b: MissingView) -> bool {
    text_before(a.section, b.section) || (a.section == b.section && text_before(
        a.set.key,
        b.set.key,
    ))
}

/// A sorted list with one more value in its place.
pub open spec fn put_sorted(v: Seq<MissingView>, x: MissingView) -> Seq<MissingView>
    decreases v.len(),
{
    if v.len() == 0 {
        seq![x]
    } else if goes_before(x, v.last()) {
        put_sorted(v.drop_last(), x).push(v.last())
    } else {
        v.push(x)
    }
}

/// The values in order. Of two that are equal in order the first stays first.
pub open spec fn sorted_missing(v: Seq<MissingView>) -> Seq<MissingView>
    decreases v.len(),
{
    if v.len() == 0 {
        Seq::empty()
    } else {
        put_sorted(sorted_missing(v.drop_last()), v.last())
    }
}

/// Whether no value comes before one that stands in front of it.
pub open spec fn in_order(v: Seq<MissingView>) -> bool {
    forall|i: int, j: int|
        0 <= i < j < v.len() ==> !goes_before(#[trigger] v[j], #[trigger] v[i])
}

proof fn lemma_goes_before_transitive(a: MissingView, b: MissingView, c: MissingView)
    requires
        goes_before(a, b),
        !goes_before(c, b),
    ensures
        goes_before(a, c),
{
    lemma_before_total(b.section, c.section);
    lemma_before_total(b.set.key, c.set.key);
    if text_before(a.section, b.section) && text_before(b.section, c.section) {
        lemma_before_transitive(a.section, b.section, c.section);
    }
    if text_before(a.set.key, b.set.key) && text_before(b.set.key, c.set.key) {
        lemma_before_transitive(a.set.key, b.set.key, c.set.key);
    }
}

proof fn lemma_put_sorted(v: Seq<MissingView>, x: MissingView)
    requires
        in_order(v),
    ensures
        in_order(put_sorted(v, x)),
        put_sorted(v, x).to_multiset() == v.to_multiset().insert(x),
        forall|k: int|
            0 <= k < put_sorted(v, x).len() ==> #[trigger] put_sorted(v, x)[k] == x || v.contains(
                put_sorted(v, x)[k],
            ),
    decreases v.len(),
{
    broadcast use vstd::seq_lib::group_to_multiset_ensures;

    let r = put_sorted(v, x);
    if v.len() == 0 {
        assert(r =~= v.push(x));
    } else if goes_before(x, v.last()) {
        let front = v.drop_last();
        assert(in_order(front));
        lemma_put_sorted(front, x);
        let f = put_sorted(front, x);
        assert(v =~= front.push(v.last()));
        assert(r.to_multiset() == f.to_multiset().insert(v.last()));
        assert(v.to_multiset() == front.to_multiset().insert(v.last()));
        assert(r.to_multiset() =~= v.to_multiset().insert(x));
        assert forall|i: int, j: int| 0 <= i < j < r.len() implies !goes_before(
            #[trigger] r[j],
            #[trigger] r[i],
        ) by {
            if j == r.len() - 1 {
                assert(r[i] == f[i]);
                if r[i] == x {
                    if goes_before(v.last(), x) {
                        lemma_before_irreflexive(x.section);
                        lemma_before_irreflexive(x.set.key);
                        if text_before(v.last().section, x.section) && text_before(
                            x.section,
                            v.last().section,
                        ) {
                            lemma_before_transitive(x.section, v.last().section, x.section);
                        }
                        if text_before(v.last().set.key, x.set.key) && text_before(
                            x.set.key,
                            v.last().set.key,
                        ) {
                            lemma_before_transitive(x.set.key, v.last().set.key, x.set.key);
                        }
                        lemma_before_irreflexive(v.last().section);
                    }
                } else {
                    assert(front.contains(f[i]));
                    let q = choose|q: int| 0 <= q < front.len() && front[q] == f[i];
                    assert(v[q] == f[i]);
                }
            } else {
                assert(r[i] == f[i] && r[j] == f[j]);
            }
        }
        assert forall|k: int| 0 <= k < r.len() implies #[trigger] r[k] == x || v.contains(r[k]) by {
            if k < r.len() - 1 {
                assert(r[k] == f[k]);
                if f[k] != x {
                    let q = choose|q: int| 0 <= q < front.len() && front[q] == f[k];
                    assert(v[q] == r[k]);
                }
            } else {
                assert(v[v.len() - 1] == r[k]);
            }
        }
    } else {
        assert forall|i: int, j: int| 0 <= i < j < r.len() implies !goes_before(
            #[trigger] r[j],
            #[trigger] r[i],
        ) by {
            if j == r.len() - 1 && goes_before(x, v[i]) {
                if i < v.len() - 1 {
                    assert(!goes_before(v[v.len() - 1], v[i]));
                    lemma_goes_before_transitive(x, v[i], v.last());
                }
            }
        }
        assert forall|k: int| 0 <= k < r.len() implies #[trigger] r[k] == x || v.contains(r[k]) by {
            if k < v.len() {
                assert(v[k] == r[k]);
            }
        }
    }
}

/// Sorting keeps the values and puts them in order.
pub proof fn lemma_sorted_missing(v: Seq<MissingView>)
    ensures
        in_order(sorted_missing(v)),
        sorted_missing(v).to_multiset() == v.to_multiset(),
    decreases v.len(),
{
    broadcast use vstd::seq_lib::group_to_multiset_ensures;

    if v.len() > 0 {
        lemma_sorted_missing(v.drop_last());
        lemma_put_sorted(sorted_missing(v.drop_last()), v.last());
        assert(v =~= v.drop_last().push(v.last()));
    } else {
        assert(sorted_missing(v) =~= v);
    }
}

proof fn lemma_put_at(v: Seq<MissingView>, x: MissingView, k: int)
    requires
        0 <= k <= v.len(),
        forall|j: int| k <= j < v.len() ==> goes_before(x, #[trigger] v[j]),
        k == 0 || !goes_before(x, v[k - 1]),
    ensures
        put_sorted(v, x) == v.insert(k, x),
    decreases v.len(),
{
    if k < v.len() {
        lemma_put_at(v.drop_last(), x, k);
        assert(v.insert(k, x) =~= v.drop_last().insert(k, x).push(v.last()));
    } else {
        assert(v.insert(k, x) =~= v.push(x));
        if v.len() == 0 {
            assert(v.push(x) =~= seq![x]);
        }
    }
}

fn precedes(a: &MissingKey, b: &MissingKey) -> (r: bool)
    ensures
        r == goes_before(a@, b@),
{
    comes_before(a.section.as_str(), b.section.as_str()) || (same(
        a.section.as_str(),
        b.section.as_str(),
    ) && comes_before(a.set.key.as_str(), b.set.key.as_str()))
}

fn sort_missing(missing: Vec<MissingKey>) -> (r: Vec<MissingKey>)
    ensures
        missing_view(r@) == sorted_missing(missing_view(missing@)),
{
    let ghost all = missing_view(missing@);
    let mut rest = missing;
    let mut out: Vec<MissingKey> = Vec::new();
    let ghost mut done: int = 0;
    assert(all.take(0) =~= Seq::empty());
    assert(missing_view(out@) =~= sorted_missing(all.take(0)));
    while rest.len() > 0
        invariant
            0 <= done <= all.len(),
            missing_view(rest@) == all.skip(done),
            missing_view(out@) == sorted_missing(all.take(done)),
        decreases rest.len(),
    {
        let ghost r0 = rest@;
        let x = rest.remove(0);
        assert(missing_view(r0)[0] == x@);
        assert(missing_view(rest@) =~= all.skip(done + 1)) by {
            assert(missing_view(rest@) =~= missing_view(r0).skip(1));
            assert(all.skip(done).skip(1) =~= all.skip(done + 1));
        }
        let ghost o = missing_view(out@);
        let mut k: usize = out.len();
        while k > 0 && precedes(&x, &out[k - 1])
            invariant
                k <= out.len(),
                o == missing_view(out@),
                forall|j: int| k <= j < o.len() ==> goes_before(x@, #[trigger] o[j]),
            decreases k,
        {
            k -= 1;
        }
        proof {
            lemma_put_at(o, x@, k as int);
            assert(all.take(done + 1).drop_last() =~= all.take(done));
            assert(all.take(done + 1).last() == x@);
        }
        out.insert(k, x);
        assert(missing_view(out@) =~= o.insert(k as int, x@));
        proof {
            done = done + 1;
        }
    }
    assert(all.take(done) =~= all);
    out
}

/// Whether the section of value `i` already occurs before it.
pub open spec fn seen_before(v: Seq<MissingView>, i: int) -> bool {
    exists|j: int| 0 <= j < i && (#[trigger] v[j]).section == v[i].section
}

/// The values of one section among the first `n`.
pub open spec fn sets_of(v: Seq<MissingView>, section: Seq<char>, n: int) -> Seq<SetView>
    decreases n,
{
    if n <= 0 {
        Seq::empty()
    } else if v[n - 1].section == section {
        sets_of(v, section, n - 1).push(v[n - 1].set)
    } else {
        sets_of(v, section, n - 1)
    }
}

/// The first field, from number `i` on, that no section has.
pub open spec fn bad_field(sets: Seq<SetView>, i: int) -> Option<Seq<char>>
    decreases sets.len() - i,
{
    if i < 0 || i >= sets.len() {
        None
    } else if section_fields().contains(sets[i].key) {
        bad_field(sets, i + 1)
    } else {
        Some(unknown_field(sets[i].key))
    }
}

/// The plan with one new section for each section in `v`, from value `i` on.
pub open spec fn groups_from(
    p: Plan,
    s: Seq<char>,
    path: Seq<SegView>,
    v: Seq<MissingView>,
    i: int,
) -> Plan
    decreases v.len() - i,
{
    if i < 0 || i >= v.len() || p.1 is Some {
        p
    } else if seen_before(v, i) {
        groups_from(p, s, path, v, i + 1)
    } else {
        let sets = sets_of(v, v[i].section, v.len() as int);
        let next = match bad_field(sets, 0) {
            Some(e) => (p.0, Some(e)),
            None => new_section(p.0, s, path, v[i].section, sets),
        };
        groups_from(next, s, path, v, i + 1)
    }
}

fn is_seen(v: &Vec<MissingKey>, i: usize) -> (r: bool)
    requires
        i < v.len(),
    ensures
        r == seen_before(missing_view(v@), i as int),
{
    let ghost mv = missing_view(v@);
    let mut j: usize = 0;
    while j < i
        invariant
            j <= i < v.len(),
            mv == missing_view(v@),
            forall|k: int| 0 <= k < j ==> (#[trigger] mv[k]).section != mv[i as int].section,
        decreases i - j,
    {
        assert(mv[j as int] == v@[j as int]@);
        if same(v[j].section.as_str(), v[i].section.as_str()) {
            assert(mv[j as int].section == mv[i as int].section);
            return true;
        }
        j += 1;
    }
    false
}

fn collect_sets(v: &Vec<MissingKey>, section: &str) -> (r: Vec<SetKey>)
    ensures
        sets_view(r@) == sets_of(missing_view(v@), section@, v@.len() as int),
{
    let ghost mv = missing_view(v@);
    let mut out: Vec<SetKey> = Vec::new();
    let mut i: usize = 0;
    assert(sets_view(out@) =~= Seq::empty());
    while i < v.len()
        invariant
            i <= v.len(),
            mv == missing_view(v@),
            sets_view(out@) == sets_of(mv, section@, i as int),
        decreases v.len() - i,
    {
        let m = &v[i];
        assert(mv[i as int] == m@);
        if same(m.section.as_str(), section) {
            let ghost o = out@;
            let x = SetKey {
                key: owned(m.set.key.as_str()),
                literal: owned(m.set.literal.as_str()),
                comment: m.set.comment,
                desc: owned(m.set.desc.as_str()),
            };
            assert(x@ =~= m.set@);
            out.push(x);
            assert(sets_view(out@) =~= sets_view(o).push(m.set@));
        }
        i += 1;
    }
    out
}

fn check_fields(sets: &Vec<SetKey>) -> (r: Result<(), String>)
    ensures
        failure(r) == bad_field(sets_view(sets@), 0),
{
    let ghost sv = sets_view(sets@);
    let mut i: usize = 0;
    while i < sets.len()
        invariant
            i <= sets.len(),
            sv == sets_view(sets@),
            bad_field(sv, i as int) == bad_field(sv, 0),
        decreases sets.len() - i,
    {
        assert(sv[i as int] == sets@[i as int]@);
        match field_to_static(sets[i].key.as_str()) {
            Ok(_) => {},
            Err(e) => {
                return Err(e);
            },
        }
        i += 1;
    }
    Ok(())
}

fn append_groups(
    text: &str,
    ops: &mut Vec<OpWithDesc>,
    path: &[PathSeg],
    v: &Vec<MissingKey>,
) -> (r: Result<(), String>)
    ensures
        (ops_view(final(ops)@), failure(r)) == groups_from(
            (ops_view(old(ops)@), None),
            text@,
            path_view(path@),
            missing_view(v@),
            0,
        ),
{
    let ghost mv = missing_view(v@);
    let ghost pv = path_view(path@);
    let ghost whole = groups_from((ops_view(ops@), None), text@, pv, mv, 0);
    let mut i: usize = 0;
    while i < v.len()
        invariant
            i <= v.len(),
            mv == missing_view(v@),
            pv == path_view(path@),
            whole == groups_from((ops_view(old(ops)@), None), text@, pv, mv, 0),
            groups_from((ops_view(ops@), None), text@, pv, mv, i as int) == whole,
        decreases v.len() - i,
    {
        if !is_seen(v, i) {
            let sets = collect_sets(v, v[i].section.as_str());
            assert(mv[i as int].section == v@[i as int].section@);
            match check_fields(&sets) {
                Ok(_) => {},
                Err(e) => {
                    proof {
                        let p: Plan = (ops_view(ops@), Some(e@));
                        assert(groups_from(p, text@, pv, mv, i + 1) == p);
                    }
                    return Err(e);
                },
            }
            match append_section_block(text, ops, path, v[i].section.as_str(), &sets) {
                Ok(_) => {},
                Err(e) => {
                    proof {
                        let p: Plan = (ops_view(ops@), Some(e@));
                        assert(groups_from(p, text@, pv, mv, i + 1) == p);
                    }
                    return Err(e);
                },
            }
        }
        i += 1;
    }
    Ok(())
}

// ── The whole board ──────────────────────────────────────────────────
/// The plan with the changes of a board's name, port and login user, so far as
/// their sections are there.
pub open spec fn dut_quick_changes(
    ops: Seq<OpView>,
    s: Seq<char>,
    path: Seq<SegView>,
    ex: DutView,
    a: DutAnswersView,
) -> Plan {
    let p1 = name_step((ops, None), s, path, ex, a);
    let p2 = port_step(p1, s, path, ex, a);
    user_step(p2, s, path, ex, a)
}

/// All values for sections that a board does not have, in order: the port and
/// the user, and the advanced keys.
pub open spec fn dut_missing(
    s: Seq<char>,
    path: Seq<SegView>,
    ex: DutView,
    a: DutAnswersView,
    global: Pairs,
) -> Seq<MissingView> {
    sorted_missing(
        quick_missing(s, path, ex, a) + absent_from(
            s,
            path,
            dut_current_of(ex),
            global,
            a.advanced,
            0,
        ),
    )
}

/// Whether a section is that of one of the values.
pub open spec fn is_section_of(v: Seq<MissingView>, section: Seq<char>) -> bool {
    exists|k: int| 0 <= k < v.len() && (#[trigger] v[k]).section == section
}

/// Of the values in `v` those whose section is one of `quick`, or those whose
/// section is none of them.
pub open spec fn part(v: Seq<MissingView>, quick: Seq<MissingView>, want: bool) -> Seq<MissingView>
    decreases v.len(),
{
    if v.len() == 0 {
        Seq::empty()
    } else {
        let front = part(v.drop_last(), quick, want);
        if is_section_of(quick, v.last().section) == want {
            front.push(v.last())
        } else {
            front
        }
    }
}

/// The plan with the changes of a board. The sections that the port and the
/// user need come first among those that are added, then the relay, then the
/// others in order.
pub open spec fn dut_changes(
    ops: Seq<OpView>,
    s: Seq<char>,
    path: Seq<SegView>,
    ex: DutView,
    a: DutAnswersView,
    global: Pairs,
) -> Plan {
    let p = dut_quick_changes(ops, s, path, ex, a);
    let quick = quick_missing(s, path, ex, a);
    let missing = dut_missing(s, path, ex, a, global);
    let q = groups_from(p, s, path, part(missing, quick, true), 0);
    let r = relay_step(q, s, path, ex, a);
    let (k, _) = dut_keys_from(
        r,
        Seq::empty(),
        s,
        path,
        dut_current_of(ex),
        global,
        a.advanced,
        0,
    );
    groups_from(k, s, path, part(missing, quick, false), 0)
}

fn compare_quick(
    text: &str,
    ops: &mut Vec<OpWithDesc>,
    missing: &mut Vec<MissingKey>,
    path: &[PathSeg],
    ex: &JsoncDut,
    answers: &DutAnswers,
) -> (r: Result<(), String>)
    requires
        old(missing)@.len() == 0,
    ensures
        (ops_view(final(ops)@), failure(r)) == dut_quick_changes(
            ops_view(old(ops)@),
            text@,
            path_view(path@),
            ex@,
            answers@,
        ),
        r is Ok ==> missing_view(final(missing)@) == quick_missing(
            text@,
            path_view(path@),
            ex@,
            answers@,
        ),
{
    match compare_name(text, ops, path, ex, answers) {
        Ok(_) => {},
        Err(e) => {
            return Err(e);
        },
    }
    match compare_port(text, ops, missing, path, ex, answers) {
        Ok(_) => {},
        Err(e) => {
            return Err(e);
        },
    }
    compare_user(text, ops, missing, path, ex, answers)
}

fn sections_named(v: &Vec<MissingKey>) -> (r: Vec<String>)
    ensures
        r@.len() == v@.len(),
        forall|k: int| 0 <= k < r@.len() ==> (#[trigger] r@[k])@ == missing_view(v@)[k].section,
{
    let mut out: Vec<String> = Vec::new();
    let mut i: usize = 0;
    while i < v.len()
        invariant
            i <= v.len(),
            out@.len() == i,
            forall|k: int| 0 <= k < i ==> (#[trigger] out@[k])@ == missing_view(v@)[k].section,
        decreases v.len() - i,
    {
        out.push(owned(v[i].section.as_str()));
        i += 1;
    }
    out
}

/// Parts values in order by whether their section is one of those named.
fn part_missing(v: Vec<MissingKey>, names: &Vec<String>, quick: Ghost<Seq<MissingView>>) -> (r: (
    Vec<MissingKey>,
    Vec<MissingKey>,
))
    requires
        names@.len() == quick@.len(),
        forall|k: int| 0 <= k < names@.len() ==> (#[trigger] names@[k])@ == quick@[k].section,
    ensures
        missing_view(r.0@) == part(missing_view(v@), quick@, true),
        missing_view(r.1@) == part(missing_view(v@), quick@, false),
{
    let ghost all = missing_view(v@);
    let mut rest = v;
    let mut early: Vec<MissingKey> = Vec::new();
    let mut late: Vec<MissingKey> = Vec::new();
    let ghost mut done: int = 0;
    assert(all.take(0) =~= Seq::empty());
    assert(missing_view(early@) =~= part(all.take(0), quick@, true));
    assert(missing_view(late@) =~= part(all.take(0), quick@, false));
    while rest.len() > 0
        invariant
            0 <= done <= all.len(),
            missing_view(rest@) == all.skip(done),
            missing_view(early@) == part(all.take(done), quick@, true),
            missing_view(late@) == part(all.take(done), quick@, false),
            names@.len() == quick@.len(),
            forall|k: int| 0 <= k < names@.len() ==> (#[trigger] names@[k])@ == quick@[k].section,
        decreases rest.len(),
    {
        let ghost r0 = rest@;
        let ghost e0 = early@;
        let ghost l0 = late@;
        let x = rest.remove(0);
        assert(missing_view(r0)[0] == x@);
        assert(missing_view(rest@) =~= all.skip(done + 1)) by {
            assert(missing_view(rest@) =~= missing_view(r0).skip(1));
            assert(all.skip(done).skip(1) =~= all.skip(done + 1));
        }
        let ghost xv = x@;
        proof {
            assert(all.take(done + 1).drop_last() =~= all.take(done));
            assert(all.take(done + 1).last() == xv);
        }
        if is_named(names, x.section.as_str(), quick) {
            early.push(x);
            assert(missing_view(early@) =~= missing_view(e0).push(xv));
        } else {
            late.push(x);
            assert(missing_view(late@) =~= missing_view(l0).push(xv));
        }
        proof {
            done = done + 1;
        }
    }
    assert(all.take(done) =~= all);
    (early, late)
}

fn is_named(names: &Vec<String>, section: &str, quick: Ghost<Seq<MissingView>>) -> (r: bool)
    requires
        names@.len() == quick@.len(),
        forall|k: int| 0 <= k < names@.len() ==> (#[trigger] names@[k])@ == quick@[k].section,
    ensures
        r == is_section_of(quick@, section@),
{
    let mut i: usize = 0;
    while i < names.len()
        invariant
            i <= names.len(),
            names@.len() == quick@.len(),
            forall|k: int| 0 <= k < names@.len() ==> (#[trigger] names@[k])@ == quick@[k].section,
            forall|k: int| 0 <= k < i ==> (#[trigger] quick@[k]).section != section@,
        decreases names.len() - i,
    {
        assert(names@[i as int]@ == quick@[i as int].section);
        if same(names[i].as_str(), section) {
            return true;
        }
        i += 1;
    }
    false
}

/// Adds the edits for the advanced keys whose sections a board has.
fn compare_keys(
    text: &str,
    ops: &mut Vec<OpWithDesc>,
    path: &[PathSeg],
    own: &TextMap,
    global: &TextMap,
    answers: &TextMap,
) -> (r: Result<(), String>)
    ensures
        ({
            let (p, _) = dut_keys_from(
                (ops_view(old(ops)@), None),
                Seq::empty(),
                text@,
                path_view(path@),
                own@,
                global@,
                answers@,
                0,
            );
            (ops_view(final(ops)@), failure(r)) == p
        }),
{
    let ghost s = text@;
    let ghost pv = path_view(path@);
    let mut aside: Vec<MissingKey> = Vec::new();
    assert(missing_view(aside@) =~= Seq::empty());
    let ghost whole = dut_keys_from(
        (ops_view(ops@), None),
        Seq::empty(),
        s,
        pv,
        own@,
        global@,
        answers@,
        0,
    );
    let n: usize = answers.len();
    let mut i: usize = 0;
    while i < n
        invariant
            i <= n,
            n == answers@.len(),
            s == text@,
            pv == path_view(path@),
            whole == dut_keys_from(
                (ops_view(old(ops)@), None),
                Seq::empty(),
                s,
                pv,
                own@,
                global@,
                answers@,
                0,
            ),
            dut_keys_from(
                (ops_view(ops@), None),
                missing_view(aside@),
                s,
                pv,
                own@,
                global@,
                answers@,
                i as int,
            ) == whole,
        decreases n - i,
    {
        match compare_dut_key(
            text,
            ops,
            &mut aside,
            path,
            own,
            global,
            answers.key_at(i),
            answers.value_at(i),
        ) {
            Ok(_) => {},
            Err(e) => {
                proof {
                    let p: Plan = (ops_view(ops@), Some(e@));
                    let m = missing_view(aside@);
                    assert(dut_keys_from(p, m, s, pv, own@, global@, answers@, i + 1) == (p, m));
                    assert(whole.0 == p);
                }
                return Err(e);
            },
        }
        i += 1;
    }
    Ok(())
}

/// Adds the edits for the changes of a board: its name, port, login user and
/// relay, and its own advanced keys.
pub fn compare_dut(
    text: &str,
    ops: &mut Vec<OpWithDesc>,
    dut_path: &[PathSeg],
    ex: &JsoncDut,
    answers: &DutAnswers,
    global_current: &TextMap,
) -> (r: Result<(), String>)
    ensures
        (ops_view(final(ops)@), failure(r)) == dut_changes(
            ops_view(old(ops)@),
            text@,
            path_view(dut_path@),
            ex@,
            answers@,
            global_current@,
        ),
{
    let ghost s = text@;
    let ghost path = path_view(dut_path@);
    let own = dut_advanced_current(ex);
    let mut missing: Vec<MissingKey> = Vec::new();
    match compare_quick(text, ops, &mut missing, dut_path, ex, answers) {
        Ok(_) => {},
        Err(e) => {
            return Err(e);
        },
    }
    let ghost quick = missing_view(missing@);
    let names = sections_named(&missing);
    find_missing(text, &mut missing, dut_path, &own, global_current, &answers.advanced);
    let (early, late) = part_missing(sort_missing(missing), &names, Ghost(quick));
    match append_groups(text, ops, dut_path, &early) {
        Ok(_) => {},
        Err(e) => {
            return Err(e);
        },
    }
    match compare_relay(text, ops, dut_path, ex, answers) {
        Ok(_) => {},
        Err(e) => {
            return Err(e);
        },
    }
    match compare_keys(text, ops, dut_path, &own, global_current, &answers.advanced) {
        Ok(_) => {},
        Err(e) => {
            return Err(e);
        },
    }
    append_groups(text, ops, dut_path, &late)
}

} // verus!

//! The edits that turn an existing document into what new answers describe.
//!
//! Only differences become edits. What the answers do not speak of stays as
//! it is.
use crate::advanced::{comment_view, C_HOST_IP, C_HOST_NAME, C_HOST_PASS, C_HOST_USER};
use crate::answers::{HostAnswers, HostAnswersView};
use crate::config::{strs, HostView, JsoncDevHost};
use crate::edit::{container_member_indent, entry_indent, no_container, EditOp, EditView};
use crate::jsonc::{json_string, quoted};
use crate::locate::{
    copy_path, key_path, locate_container_open, locate_value, open_at, path_view, value_span,
    PathSeg, SegView,
};
use crate::render::{key_line, member_line, ref_comment};
use crate::text::{blank, opt_text, or_empty, owned, same, spaces, text_or_empty};
use vstd::prelude::*;

verus! {

/// An edit with a line that says what it changes.
#[derive(Debug)]
pub struct OpWithDesc {
    pub op: EditOp,
    pub desc: String,
}

/// The meaning of an [`OpWithDesc`].
#[verifier::ext_equal]
pub struct OpView {
    pub op: EditView,
    pub desc: Seq<char>,
}

impl View for OpWithDesc {
    type V = OpView;

    open spec fn view(&self) -> OpView {
        OpView { op: self.op@, desc: self.desc@ }
    }
}

/// The meanings of some edits.
pub open spec fn ops_view(v: Seq<OpWithDesc>) -> Seq<OpView> {
    Seq::new(v.len(), |i: int| v[i]@)
}

/// The edits so far, and the error that ended the work, if any.
pub type Plan = (Seq<OpView>, Option<Seq<char>>);

/// The error in a result.
pub open spec fn failure(r: Result<(), String>) -> Option<Seq<char>> {
    match r {
        Ok(_) => None,
        Err(e) => Some(e@),
    }
}

/// The edits with one more edit, or with the error that there is instead.
pub open spec fn planned(ops: Seq<OpView>, r: Result<OpView, Seq<char>>) -> Plan {
    match r {
        Ok(op) => (ops.push(op), None),
        Err(e) => (ops, Some(e)),
    }
}

/// Adds an edit.
pub fn push_op(ops: &mut Vec<OpWithDesc>, op: EditOp, desc: String)
    ensures
        ops_view(final(ops)@) == ops_view(old(ops)@).push((OpView { op: op@, desc: desc@ })),
{
    ops.push(OpWithDesc { op, desc });
    assert(ops_view(ops@) =~= ops_view(old(ops)@).push(OpView { op: op@, desc: desc@ }));
}

// ── One value ────────────────────────────────────────────────────────
/// A value to be written.
pub struct ScalarEdit<'a> {
    pub key: &'a str,
    pub literal: &'a str,
    pub comment: Option<&'a str>,
    pub desc: String,
    /// The member above which a new key goes, where there is such a member.
    pub before: Option<&'static str>,
}

/// The meaning of a [`ScalarEdit`].
pub struct ScalarView {
    pub key: Seq<char>,
    pub literal: Seq<char>,
    pub comment: Option<Seq<char>>,
    pub desc: Seq<char>,
    pub before: Option<Seq<char>>,
}

impl<'a> View for ScalarEdit<'a> {
    type V = ScalarView;

    open spec fn view(&self) -> ScalarView {
        ScalarView {
            key: self.key@,
            literal: self.literal@,
            comment: ref_comment(self.comment),
            desc: self.desc@,
            before: comment_view(self.before),
        }
    }
}

/// Whether the text holds a value or a container at a path.
pub open spec fn present(s: Seq<char>, path: Seq<SegView>) -> bool {
    value_span(s, path) is Some || open_at(s, path) is Some
}

fn is_present(text: &str, path: &[PathSeg]) -> (r: bool)
    ensures
        r == present(text@, path_view(path@)),
{
    locate_value(text, path).is_some() || locate_container_open(text, path).is_some()
}

/// The edit that writes a value of the object at `container`: it replaces the
/// value or the container that is there, or adds a line with a comment.
pub open spec fn set_or_append(s: Seq<char>, container: Seq<SegView>, e: ScalarView) -> Result<
    OpView,
    Seq<char>,
> {
    let path = container.push(SegView::Key(e.key));
    if value_span(s, path) is Some {
        Ok(OpView { op: EditView::SetScalar { path, literal: e.literal }, desc: e.desc })
    } else if open_at(s, path) is Some {
        Ok(OpView { op: EditView::ReplaceContainer { path, literal: e.literal }, desc: e.desc })
    } else {
        match entry_indent(s, container) {
            None => Err(no_container(container)),
            Some(n) => {
                let block = member_line(spaces(n), e.key, e.literal, e.comment);
                let append = EditView::AppendBlock { path: container, block };
                Ok(
                    OpView {
                        op: match e.before {
                            Some(anchor) => if present(s, container.push(SegView::Key(anchor))) {
                                EditView::InsertBefore { path: container, key: anchor, block }
                            } else {
                                append
                            },
                            None => append,
                        },
                        desc: e.desc,
                    },
                )
            },
        }
    }
}

/// Adds the edit that writes a value of the object at `container`.
pub fn set_or_append_key(
    text: &str,
    ops: &mut Vec<OpWithDesc>,
    container: &[PathSeg],
    edit: ScalarEdit<'_>,
) -> (r: Result<(), String>)
    ensures
        (ops_view(final(ops)@), failure(r)) == planned(
            ops_view(old(ops)@),
            set_or_append(text@, path_view(container@), edit@),
        ),
{
    let path = key_path(container, edit.key);
    if locate_value(text, path.as_slice()).is_some() {
        push_op(ops, EditOp::SetScalar { path, literal: owned(edit.literal) }, edit.desc);
        return Ok(());
    }
    if locate_container_open(text, path.as_slice()).is_some() {
        push_op(ops, EditOp::ReplaceContainer { path, literal: owned(edit.literal) }, edit.desc);
        return Ok(());
    }
    let n: usize = match container_member_indent(text, container) {
        Ok(n) => n,
        Err(e) => {
            return Err(e);
        },
    };
    let block = key_line(blank(n).as_str(), edit.key, edit.literal, edit.comment);
    let anchored = match edit.before {
        Some(anchor) => is_present(text, key_path(container, anchor).as_slice()),
        None => false,
    };
    match edit.before {
        Some(anchor) => {
            if anchored {
                push_op(
                    ops,
                    EditOp::InsertBefore { path: copy_path(container), key: owned(anchor), block },
                    edit.desc,
                );
                return Ok(());
            }
        },
        None => {},
    }
    push_op(ops, EditOp::AppendBlock { path: copy_path(container), block }, edit.desc);
    Ok(())
}

// ── One section ──────────────────────────────────────────────────────
/// The fields that sections have.
pub open spec fn section_fields() -> Seq<Seq<char>> {
    seq![
        "port"@,
        "baudrate"@,
        "rfc2217"@,
        "ip"@,
        "login_user"@,
        "login_pass"@,
        "login_prompt"@,
        "interrupt_char"@,
        "interrupt_strategy"@,
        "pattern"@,
        "type"@,
        "reset_ch"@,
        "download_ch"@,
        "power_ch"@,
        "reset_time_ms"@,
        "power_off_time_ms"@,
        "hang_timeout"@,
        "hang_hysteresis"@,
        "max_archived_logs"@,
        "max_log_file_size"@,
        "reference_log"@,
        "learner_stage_threshold"@,
        "learner_crash_threshold"@,
        "crash_keywords"@,
        "tool"@,
        "full_image_cmd"@,
        "kernel_image_cmd"@,
        "loader_bin"@,
        "loader_cmd"@,
        "list_devices_cmd"@,
        "upload_dir"@,
        "dev_ctrl"@,
        "loader"@,
        "lock_dir"@,
    ]
}

/// The message about a field that no section has.
pub open spec fn unknown_field(field: Seq<char>) -> Seq<char> {
    "unknown field: "@ + field
}

fn field_names() -> (r: Vec<&'static str>)
    ensures
        strs(r@) == section_fields(),
{
    let r: Vec<&'static str> = vec![
        "port",
        "baudrate",
        "rfc2217",
        "ip",
        "login_user",
        "login_pass",
        "login_prompt",
        "interrupt_char",
        "interrupt_strategy",
        "pattern",
        "type",
        "reset_ch",
        "download_ch",
        "power_ch",
        "reset_time_ms",
        "power_off_time_ms",
        "hang_timeout",
        "hang_hysteresis",
        "max_archived_logs",
        "max_log_file_size",
        "reference_log",
        "learner_stage_threshold",
        "learner_crash_threshold",
        "crash_keywords",
        "tool",
        "full_image_cmd",
        "kernel_image_cmd",
        "loader_bin",
        "loader_cmd",
        "list_devices_cmd",
        "upload_dir",
        "dev_ctrl",
        "loader",
        "lock_dir",
    ];
    assert(strs(r@) =~= section_fields());
    r
}

/// The name of a field, if some section has it.
pub fn field_to_static(field: &str) -> (r: Result<&'static str, String>)
    ensures
        r is Ok <==> section_fields().contains(field@),
        r is Ok ==> r->Ok_0@ == field@,
        r is Err ==> r->Err_0@ == unknown_field(field@),
{
    let names = field_names();
    let mut i: usize = 0;
    while i < names.len()
        invariant
            i <= names.len(),
            strs(names@) == section_fields(),
            forall|k: int| 0 <= k < i ==> section_fields()[k] != field@,
        decreases names.len() - i,
    {
        assert(section_fields()[i as int] == names@[i as int]@);
        if same(names[i], field) {
            return Ok(names[i]);
        }
        i += 1;
    }
    let mut e = owned("unknown field: ");
    e.append(field);
    Err(e)
}

// ── Hosts ────────────────────────────────────────────────────────────
/// The line about a changed value.
pub open spec fn change_desc(what: Seq<char>, old_value: Seq<char>, new_value: Seq<char>) -> Seq<
    char,
> {
    what + ": "@ + old_value + " -> "@ + new_value
}

/// The line about a changed value.
pub fn change_text(what: &str, old_value: &str, new_value: &str) -> (r: String)
    ensures
        r@ == change_desc(what@, old_value@, new_value@),
{
    let mut d = owned(what);
    d.append(": ");
    d.append(old_value);
    d.append(" -> ");
    d.append(new_value);
    d
}

/// The plan with the change of one text of a host. A new one goes above the
/// boards.
pub open spec fn host_text_step(
    p: Plan,
    s: Seq<char>,
    path: Seq<SegView>,
    key: Seq<char>,
    now: Option<Seq<char>>,
    answer: Seq<char>,
    comment: Seq<char>,
) -> Plan {
    if p.1 is Some || or_empty(now) == answer {
        p
    } else {
        planned(
            p.0,
            set_or_append(
                s,
                path,
                ScalarView {
                    key,
                    literal: quoted(answer),
                    comment: Some(comment),
                    desc: change_desc("dev_hosts[..]."@ + key, or_empty(now), answer),
                    before: Some("duts"@),
                },
            ),
        )
    }
}

fn compare_host_text(
    text: &str,
    ops: &mut Vec<OpWithDesc>,
    path: &[PathSeg],
    key: &str,
    now: &Option<String>,
    answer: &str,
    comment: &str,
) -> (r: Result<(), String>)
    ensures
        (ops_view(final(ops)@), failure(r)) == host_text_step(
            (ops_view(old(ops)@), None),
            text@,
            path_view(path@),
            key@,
            opt_text(*now),
            answer@,
            comment@,
        ),
{
    let before = text_or_empty(now);
    if same(before.as_str(), answer) {
        return Ok(());
    }
    let mut what = owned("dev_hosts[..].");
    what.append(key);
    let desc = change_text(what.as_str(), before.as_str(), answer);
    set_or_append_key(
        text,
        ops,
        path,
        ScalarEdit {
            key,
            literal: json_string(answer).as_str(),
            comment: Some(comment),
            desc,
            before: Some("duts"),
        },
    )
}

/// The plan with the changes of a host's own texts.
pub open spec fn host_changes(
    ops: Seq<OpView>,
    s: Seq<char>,
    path: Seq<SegView>,
    ex: HostView,
    a: HostAnswersView,
) -> Plan {
    let p1 = host_text_step((ops, None), s, path, "ip"@, ex.ip, a.ip, C_HOST_IP@);
    let p2 = host_text_step(p1, s, path, "user"@, ex.user, a.user, C_HOST_USER@);
    let p3 = host_text_step(p2, s, path, "pass"@, ex.pass, a.pass, C_HOST_PASS@);
    host_text_step(p3, s, path, "host_name"@, ex.host_name, a.host_name, C_HOST_NAME@)
}

/// Adds the edits for the changes of a host's own texts.
pub fn compare_host(
    text: &str,
    ops: &mut Vec<OpWithDesc>,
    host_path: &[PathSeg],
    ex: &JsoncDevHost,
    answers: &HostAnswers,
) -> (r: Result<(), String>)
    ensures
        (ops_view(final(ops)@), failure(r)) == host_changes(
            ops_view(old(ops)@),
            text@,
            path_view(host_path@),
            ex@,
            answers@,
        ),
{
    match compare_host_text(text, ops, host_path, "ip", &ex.ip, answers.ip.as_str(), C_HOST_IP) {
        Ok(_) => {},
        Err(e) => {
            return Err(e);
        },
    }
    match compare_host_text(
        text,
        ops,
        host_path,
        "user",
        &ex.user,
        answers.user.as_str(),
        C_HOST_USER,
    ) {
        Ok(_) => {},
        Err(e) => {
            return Err(e);
        },
    }
    match compare_host_text(
        text,
        ops,
        host_path,
        "pass",
        &ex.pass,
        answers.pass.as_str(),
        C_HOST_PASS,
    ) {
        Ok(_) => {},
        Err(e) => {
            return Err(e);
        },
    }
    compare_host_text(
        text,
        ops,
        host_path,
        "host_name",
        &ex.host_name,
        answers.host_name.as_str(),
        C_HOST_NAME,
    )
}

} // verus!

//! The edits for a whole document: its hosts, their boards, and the top-level
//! sections.
use crate::advanced::{
    advanced_field, advanced_literal, comment_for, comment_of, field_of, literal_of, section_of,
};
use crate::answers::{
    dut_config, dut_jsonc, host_config, host_jsonc, DutAnswersView, HostAnswers, HostAnswersView,
    WizardAnswers, WizardAnswersView,
};
use crate::config::{ConfigView, DutView, HostView, JsoncDevHost, TargetJsoncConfig};
use crate::current::{advanced_current, current_of};
use crate::edit::{
    container_entry_indent, container_member_indent, entry_indent, no_container, EditOp, EditView,
};
use crate::locate::{
    close_at, copy_path, index_path, key_path, locate_container_close, locate_value, path_view,
    value_span, PathSeg, SegView,
};
use crate::number::{decimal, decimal_text};
use crate::render::{dut_block, host_block, render_dut_block, render_host_block, section_block};
use crate::text::{joined, owned, same, trim, trimmed};
use crate::text_map::{lookup, Pairs, TextMap};
use crate::update::{
    compare_host, failure, field_to_static, host_changes, ops_view, planned, push_op,
    section_fields, set_or_append, set_or_append_key, unknown_field, OpView, OpWithDesc, Plan,
    ScalarEdit, ScalarView,
};
use crate::update_dut::{compare_dut, dut_changes, set_descs, set_lines, sets_view, SetKey, SetView};
use vstd::prelude::*;

verus! {

// ── Hosts and boards ─────────────────────────────────────────────────
/// The path of the hosts.
pub open spec fn hosts_path() -> Seq<SegView> {
    Seq::<SegView>::empty().push(SegView::Key("dev_hosts"@))
}

/// The path of host `hi`.
pub open spec fn host_path(hi: nat) -> Seq<SegView> {
    hosts_path().push(SegView::Index(hi))
}

/// The path of the boards of host `hi`.
pub open spec fn duts_path(hi: nat) -> Seq<SegView> {
    host_path(hi).push(SegView::Key("duts"@))
}

/// The edit that adds a board to host `hi`.
pub open spec fn new_dut(s: Seq<char>, hi: nat, di: nat, a: DutAnswersView) -> Result<
    OpView,
    Seq<char>,
> {
    match dut_config(a) {
        Err(e) => Err(e),
        Ok(d) => match entry_indent(s, duts_path(hi)) {
            None => Err(no_container(duts_path(hi))),
            Some(n) => Ok(
                OpView {
                    op: EditView::AppendBlock { path: duts_path(hi), block: dut_block(d, n) },
                    desc: "added DUT '"@ + d.dut_name + "' at dev_hosts["@ + decimal(hi)
                        + "].duts["@ + decimal(di) + "]"@,
                },
            ),
        },
    }
}

/// The edit that adds a host.
pub open spec fn new_host(s: Seq<char>, hi: nat, a: HostAnswersView) -> Result<OpView, Seq<char>> {
    match host_config(a) {
        Err(e) => Err(e),
        Ok(h) => match entry_indent(s, hosts_path()) {
            None => Err(no_container(hosts_path())),
            Some(n) => Ok(
                OpView {
                    op: EditView::AppendBlock { path: hosts_path(), block: host_block(h, n) },
                    desc: "added host '"@ + a.ip + "' at dev_hosts["@ + decimal(hi) + "]"@,
                },
            ),
        },
    }
}

/// The plan with the boards of host `hi`, from board `di` on.
pub open spec fn duts_from(
    p: Plan,
    s: Seq<char>,
    hi: nat,
    ex: Seq<DutView>,
    a: Seq<DutAnswersView>,
    global: Pairs,
    di: int,
) -> Plan
    decreases a.len() - di,
{
    if di < 0 || di >= a.len() || p.1 is Some {
        p
    } else {
        let next = if di < ex.len() {
            dut_changes(
                p.0,
                s,
                duts_path(hi).push(SegView::Index(di as nat)),
                ex[di],
                a[di],
                global,
            )
        } else {
            planned(p.0, new_dut(s, hi, di as nat, a[di]))
        };
        duts_from(next, s, hi, ex, a, global, di + 1)
    }
}

/// The plan with one host.
pub open spec fn host_step(
    p: Plan,
    s: Seq<char>,
    hi: nat,
    ex: Seq<HostView>,
    a: HostAnswersView,
    global: Pairs,
) -> Plan {
    if p.1 is Some {
        p
    } else if hi < ex.len() {
        let q = host_changes(p.0, s, host_path(hi), ex[hi as int], a);
        duts_from(q, s, hi, ex[hi as int].duts, a.duts, global, 0)
    } else {
        planned(p.0, new_host(s, hi, a))
    }
}

/// The plan with the hosts from number `hi` on.
pub open spec fn hosts_from(
    p: Plan,
    s: Seq<char>,
    ex: Seq<HostView>,
    a: Seq<HostAnswersView>,
    global: Pairs,
    hi: int,
) -> Plan
    decreases a.len() - hi,
{
    if hi < 0 || hi >= a.len() || p.1 is Some {
        p
    } else {
        hosts_from(host_step(p, s, hi as nat, ex, a[hi], global), s, ex, a, global, hi + 1)
    }
}

fn update_duts(
    text: &str,
    ops: &mut Vec<OpWithDesc>,
    hi: usize,
    hosts: &[PathSeg],
    ex: &JsoncDevHost,
    answers: &HostAnswers,
    global: &TextMap,
) -> (r: Result<(), String>)
    requires
        path_view(hosts@) == hosts_path(),
    ensures
        (ops_view(final(ops)@), failure(r)) == duts_from(
            (ops_view(old(ops)@), None),
            text@,
            hi as nat,
            ex@.duts,
            answers@.duts,
            global@,
            0,
        ),
{
    let ghost s = text@;
    let ghost h = hi as nat;
    let ghost exv = ex@.duts;
    let ghost av = answers@.duts;
    let ghost g = global@;
    let ghost whole = duts_from((ops_view(ops@), None), s, h, exv, av, g, 0);
    let this = index_path(hosts, hi);
    let duts = key_path(this.as_slice(), "duts");
    assert(path_view(duts@) == duts_path(h));
    let mut di: usize = 0;
    while di < answers.duts.len()
        invariant
            di <= answers.duts.len(),
            s == text@,
            h == hi as nat,
            exv == ex@.duts,
            av == answers@.duts,
            g == global@,
            path_view(duts@) == duts_path(h),
            whole == duts_from((ops_view(old(ops)@), None), s, h, exv, av, g, 0),
            duts_from((ops_view(ops@), None), s, h, exv, av, g, di as int) == whole,
        decreases answers.duts.len() - di,
    {
        assert(av[di as int] == answers.duts@[di as int]@);
        if di < ex.duts.len() {
            let path = index_path(duts.as_slice(), di);
            assert(exv[di as int] == ex.duts@[di as int]@);
            match compare_dut(
                text,
                ops,
                path.as_slice(),
                &ex.duts[di],
                &answers.duts[di],
                global,
            ) {
                Ok(_) => {},
                Err(e) => {
                    proof {
                        let p: Plan = (ops_view(ops@), Some(e@));
                        assert(duts_from(p, s, h, exv, av, g, di + 1) == p);
                    }
                    return Err(e);
                },
            }
        } else {
            let ghost p0: Plan = (ops_view(ops@), None);
            let dut = match dut_jsonc(&answers.duts[di]) {
                Ok(d) => d,
                Err(e) => {
                    proof {
                        let p: Plan = (ops_view(ops@), Some(e@));
                        assert(duts_from(p, s, h, exv, av, g, di + 1) == p);
                    }
                    return Err(e);
                },
            };
            let n: usize = match container_entry_indent(text, duts.as_slice()) {
                Ok(n) => n,
                Err(e) => {
                    proof {
                        let p: Plan = (ops_view(ops@), Some(e@));
                        assert(duts_from(p, s, h, exv, av, g, di + 1) == p);
                    }
                    return Err(e);
                },
            };
            let block = render_dut_block(&dut, n);
            let mut desc = owned("added DUT '");
            desc.append(dut.dut_name.as_str());
            desc.append("' at dev_hosts[");
            desc.append(decimal_text(hi as u64).as_str());
            desc.append("].duts[");
            desc.append(decimal_text(di as u64).as_str());
            desc.append("]");
            push_op(ops, EditOp::AppendBlock { path: copy_path(duts.as_slice()), block }, desc);
            assert((ops_view(ops@), None::<Seq<char>>) == planned(
                p0.0,
                new_dut(s, h, di as nat, av[di as int]),
            ));
        }
        di += 1;
    }
    Ok(())
}

fn update_host(
    text: &str,
    ops: &mut Vec<OpWithDesc>,
    hi: usize,
    hosts: &[PathSeg],
    existing: &Vec<JsoncDevHost>,
    answers: &HostAnswers,
    global: &TextMap,
) -> (r: Result<(), String>)
    requires
        path_view(hosts@) == hosts_path(),
    ensures
        (ops_view(final(ops)@), failure(r)) == host_step(
            (ops_view(old(ops)@), None),
            text@,
            hi as nat,
            crate::config::hosts_view(existing@),
            answers@,
            global@,
        ),
{
    let ghost exv = crate::config::hosts_view(existing@);
    if hi < existing.len() {
        let path = index_path(hosts, hi);
        assert(exv[hi as int] == existing@[hi as int]@);
        match compare_host(text, ops, path.as_slice(), &existing[hi], answers) {
            Ok(_) => {},
            Err(e) => {
                return Err(e);
            },
        }
        update_duts(text, ops, hi, hosts, &existing[hi], answers, global)
    } else {
        let host = match host_jsonc(answers) {
            Ok(h) => h,
            Err(e) => {
                return Err(e);
            },
        };
        let n: usize = match container_entry_indent(text, hosts) {
            Ok(n) => n,
            Err(e) => {
                return Err(e);
            },
        };
        let block = render_host_block(&host, n);
        let mut desc = owned("added host '");
        desc.append(answers.ip.as_str());
        desc.append("' at dev_hosts[");
        desc.append(decimal_text(hi as u64).as_str());
        desc.append("]");
        push_op(ops, EditOp::AppendBlock { path: copy_path(hosts), block }, desc);
        Ok(())
    }
}

// ── Top-level sections ───────────────────────────────────────────────
/// The line about an advanced key that is written.
pub open spec fn key_desc(key: Seq<char>, value: Seq<char>) -> Seq<char> {
    key + ": "@ + trimmed(value)
}

fn key_text(key: &str, value: &str) -> (r: String)
    ensures
        r@ == key_desc(key@, value@),
{
    let mut d = owned(key);
    d.append(": ");
    d.append(trim(value));
    d
}

/// The plan with one advanced key whose section is there. An answer that says
/// what is there changes nothing.
pub open spec fn key_step(
    p: Plan,
    s: Seq<char>,
    container: Seq<SegView>,
    current: Pairs,
    key: Seq<char>,
    value: Seq<char>,
) -> Plan {
    if p.1 is Some || lookup(current, key) == Some(value) {
        p
    } else {
        match literal_of(key, value) {
            Err(e) => (p.0, Some(e)),
            Ok(None) => if value_span(s, container.push(SegView::Key(field_of(key)))) is Some {
                (
                    p.0.push(
                        OpView {
                            op: EditView::RemoveKey { path: container, key: field_of(key) },
                            desc: "unset "@ + key + " (inherit)"@,
                        },
                    ),
                    None,
                )
            } else {
                p
            },
            Ok(Some(literal)) => planned(
                p.0,
                set_or_append(
                    s,
                    container,
                    ScalarView {
                        key: field_of(key),
                        literal,
                        comment: comment_of(key),
                        desc: key_desc(key, value),
                        before: None,
                    },
                ),
            ),
        }
    }
}

fn update_key(
    text: &str,
    ops: &mut Vec<OpWithDesc>,
    container: &[PathSeg],
    current: &TextMap,
    key: &str,
    value: &str,
) -> (r: Result<(), String>)
    ensures
        (ops_view(final(ops)@), failure(r)) == key_step(
            (ops_view(old(ops)@), None),
            text@,
            path_view(container@),
            current@,
            key@,
            value@,
        ),
{
    let (_, field) = advanced_field(key);
    match current.get(key) {
        Some(c) => {
            if same(c.as_str(), value) {
                return Ok(());
            }
        },
        None => {},
    }
    let literal = match advanced_literal(key, value) {
        Ok(l) => l,
        Err(e) => {
            return Err(e);
        },
    };
    match literal {
        None => {
            if locate_value(text, key_path(container, field.as_str()).as_slice()).is_some() {
                let mut desc = owned("unset ");
                desc.append(key);
                desc.append(" (inherit)");
                push_op(ops, EditOp::RemoveKey { path: copy_path(container), key: field }, desc);
            }
            Ok(())
        },
        Some(literal) => set_or_append_key(
            text,
            ops,
            container,
            ScalarEdit {
                key: field.as_str(),
                literal: literal.as_str(),
                comment: comment_for(key),
                desc: key_text(key, value),
                before: None,
            },
        ),
    }
}

/// The plan with the keys of one section that is there, from answer `i` on.
pub open spec fn section_keys_from(
    p: Plan,
    s: Seq<char>,
    container: Seq<SegView>,
    section: Seq<char>,
    current: Pairs,
    answers: Pairs,
    i: int,
) -> Plan
    decreases answers.len() - i,
{
    if i < 0 || i >= answers.len() || p.1 is Some {
        p
    } else if section_of(answers[i].0) == section {
        section_keys_from(
            key_step(p, s, container, current, answers[i].0, answers[i].1),
            s,
            container,
            section,
            current,
            answers,
            i + 1,
        )
    } else {
        section_keys_from(p, s, container, section, current, answers, i + 1)
    }
}

/// The values for a section that is not there, from answer `i` on; or the
/// error that ended the work. Nothing is to be removed from such a section.
pub open spec fn section_sets_from(
    sets: Seq<SetView>,
    section: Seq<char>,
    current: Pairs,
    answers: Pairs,
    i: int,
) -> Result<Seq<SetView>, Seq<char>>
    decreases answers.len() - i,
{
    if i < 0 || i >= answers.len() {
        Ok(sets)
    } else {
        let (key, value) = answers[i];
        if section_of(key) != section || lookup(current, key) == Some(value) {
            section_sets_from(sets, section, current, answers, i + 1)
        } else {
            match literal_of(key, value) {
                Err(e) => Err(e),
                Ok(None) => section_sets_from(sets, section, current, answers, i + 1),
                Ok(Some(literal)) => if section_fields().contains(field_of(key)) {
                    let set = SetView {
                        key: field_of(key),
                        literal,
                        comment: comment_of(key),
                        desc: key_desc(key, value),
                    };
                    section_sets_from(sets.push(set), section, current, answers, i + 1)
                } else {
                    Err(unknown_field(field_of(key)))
                },
            }
        }
    }
}

/// The plan with a new top-level section.
pub open spec fn top_section(
    ops: Seq<OpView>,
    s: Seq<char>,
    section: Seq<char>,
    current: Pairs,
    answers: Pairs,
) -> Plan {
    let root = Seq::<SegView>::empty();
    match entry_indent(s, root) {
        None => (ops, Some(no_container(root))),
        Some(n) => match section_sets_from(Seq::empty(), section, current, answers, 0) {
            Err(e) => (ops, Some(e)),
            Ok(sets) => if sets.len() == 0 {
                (ops, None)
            } else {
                (
                    ops.push(
                        OpView {
                            op: EditView::AppendBlock {
                                path: root,
                                block: section_block(section, set_lines(sets), n),
                            },
                            desc: joined(set_descs(sets), "; "@),
                        },
                    ),
                    None,
                )
            },
        },
    }
}

/// The path of a top-level section; a key without section lives at the root.
pub open spec fn section_path(section: Seq<char>) -> Seq<SegView> {
    if section.len() == 0 {
        Seq::empty()
    } else {
        Seq::<SegView>::empty().push(SegView::Key(section))
    }
}

/// The plan with one top-level section.
pub open spec fn section_step(
    p: Plan,
    s: Seq<char>,
    section: Seq<char>,
    current: Pairs,
    answers: Pairs,
) -> Plan {
    if p.1 is Some {
        p
    } else if section.len() == 0 || close_at(s, section_path(section)) is Some {
        section_keys_from(p, s, section_path(section), section, current, answers, 0)
    } else {
        top_section(p.0, s, section, current, answers)
    }
}

/// Whether the section of answer `i` already occurs before it.
pub open spec fn section_seen(answers: Pairs, i: int) -> bool {
    exists|j: int| 0 <= j < i && section_of((#[trigger] answers[j]).0) == section_of(answers[i].0)
}

/// The plan with the top-level sections, in the order in which they first
/// occur, from answer `i` on.
pub open spec fn sections_from(p: Plan, s: Seq<char>, current: Pairs, answers: Pairs, i: int) -> Plan
    decreases answers.len() - i,
{
    if i < 0 || i >= answers.len() || p.1 is Some {
        p
    } else if section_seen(answers, i) {
        sections_from(p, s, current, answers, i + 1)
    } else {
        sections_from(
            section_step(p, s, section_of(answers[i].0), current, answers),
            s,
            current,
            answers,
            i + 1,
        )
    }
}

fn update_section_keys(
    text: &str,
    ops: &mut Vec<OpWithDesc>,
    container: &[PathSeg],
    section: &str,
    current: &TextMap,
    answers: &TextMap,
) -> (r: Result<(), String>)
    ensures
        (ops_view(final(ops)@), failure(r)) == section_keys_from(
            (ops_view(old(ops)@), None),
            text@,
            path_view(container@),
            section@,
            current@,
            answers@,
            0,
        ),
{
    let ghost s = text@;
    let ghost c = path_view(container@);
    let ghost sec = section@;
    let ghost cur = current@;
    let ghost av = answers@;
    let ghost whole = section_keys_from((ops_view(ops@), None), s, c, sec, cur, av, 0);
    let n: usize = answers.len();
    let mut i: usize = 0;
    while i < n
        invariant
            i <= n,
            n == av.len(),
            s == text@,
            c == path_view(container@),
            sec == section@,
            cur == current@,
            av == answers@,
            whole == section_keys_from((ops_view(old(ops)@), None), s, c, sec, cur, av, 0),
            section_keys_from((ops_view(ops@), None), s, c, sec, cur, av, i as int) == whole,
        decreases n - i,
    {
        let (this, _) = advanced_field(answers.key_at(i));
        if same(this.as_str(), section) {
            match update_key(
                text,
                ops,
                container,
                current,
                answers.key_at(i),
                answers.value_at(i),
            ) {
                Ok(_) => {},
                Err(e) => {
                    proof {
                        let p: Plan = (ops_view(ops@), Some(e@));
                        assert(section_keys_from(p, s, c, sec, cur, av, i + 1) == p);
                    }
                    return Err(e);
                },
            }
        }
        i += 1;
    }
    Ok(())
}

fn collect_section(section: &str, current: &TextMap, answers: &TextMap) -> (r: Result<
    Vec<SetKey>,
    String,
>)
    ensures
        match r {
            Ok(v) => section_sets_from(Seq::empty(), section@, current@, answers@, 0) == Ok::<
                Seq<SetView>,
                Seq<char>,
            >(sets_view(v@)),
            Err(e) => section_sets_from(Seq::empty(), section@, current@, answers@, 0) == Err::<
                Seq<SetView>,
                Seq<char>,
            >(e@),
        },
{
    let ghost sec = section@;
    let ghost cur = current@;
    let ghost av = answers@;
    let ghost whole = section_sets_from(Seq::empty(), sec, cur, av, 0);
    let mut sets: Vec<SetKey> = Vec::new();
    assert(sets_view(sets@) =~= Seq::empty());
    let n: usize = answers.len();
    let mut i: usize = 0;
    while i < n
        invariant
            i <= n,
            n == av.len(),
            sec == section@,
            cur == current@,
            av == answers@,
            whole == section_sets_from(Seq::empty(), section@, current@, answers@, 0),
            section_sets_from(sets_view(sets@), sec, cur, av, i as int) == whole,
        decreases n - i,
    {
        let key = answers.key_at(i);
        let value = answers.value_at(i);
        let (this, field) = advanced_field(key);
        let unchanged = match current.get(key) {
            Some(c) => same(c.as_str(), value),
            None => false,
        };
        if same(this.as_str(), section) && !unchanged {
            match advanced_literal(key, value) {
                Err(e) => {
                    return Err(e);
                },
                Ok(None) => {},
                Ok(Some(literal)) => {
                    match field_to_static(field.as_str()) {
                        Ok(_) => {},
                        Err(e) => {
                            return Err(e);
                        },
                    }
                    let ghost before = sets@;
                    let x = SetKey {
                        key: field,
                        literal,
                        comment: comment_for(key),
                        desc: key_text(key, value),
                    };
                    sets.push(x);
                    assert(sets_view(sets@) =~= sets_view(before).push(x@));
                },
            }
        }
        i += 1;
    }
    Ok(sets)
}

fn update_section(
    text: &str,
    ops: &mut Vec<OpWithDesc>,
    section: &str,
    current: &TextMap,
    answers: &TextMap,
) -> (r: Result<(), String>)
    ensures
        (ops_view(final(ops)@), failure(r)) == section_step(
            (ops_view(old(ops)@), None),
            text@,
            section@,
            current@,
            answers@,
        ),
{
    let root: Vec<PathSeg> = Vec::new();
    assert(path_view(root@) =~= Seq::empty());
    let container = if section.is_empty() {
        Vec::new()
    } else {
        key_path(root.as_slice(), section)
    };
    assert(path_view(container@) =~= section_path(section@));
    if section.is_empty() || locate_container_close(text, container.as_slice()).is_some() {
        return update_section_keys(text, ops, container.as_slice(), section, current, answers);
    }
    match container_member_indent(text, root.as_slice()) {
        Ok(_) => {},
        Err(e) => {
            return Err(e);
        },
    }
    match collect_section(section, current, answers) {
        Err(e) => Err(e),
        Ok(sets) => {
            if sets.len() == 0 {
                return Ok(());
            }
            crate::update_dut::append_section_block(text, ops, root.as_slice(), section, &sets)
        },
    }
}

fn is_section_seen(answers: &TextMap, i: usize) -> (r: bool)
    requires
        i < answers@.len(),
    ensures
        r == section_seen(answers@, i as int),
{
    let ghost av = answers@;
    let (this, _) = advanced_field(answers.key_at(i));
    let mut j: usize = 0;
    while j < i
        invariant
            j <= i < av.len(),
            av == answers@,
            this@ == section_of(av[i as int].0),
            forall|k: int| 0 <= k < j ==> section_of((#[trigger] av[k]).0) != this@,
        decreases i - j,
    {
        let (other, _) = advanced_field(answers.key_at(j));
        if same(other.as_str(), this.as_str()) {
            assert(section_of(av[j as int].0) == this@);
            return true;
        }
        j += 1;
    }
    false
}

fn update_sections(
    text: &str,
    ops: &mut Vec<OpWithDesc>,
    current: &TextMap,
    answers: &TextMap,
) -> (r: Result<(), String>)
    ensures
        (ops_view(final(ops)@), failure(r)) == sections_from(
            (ops_view(old(ops)@), None),
            text@,
            current@,
            answers@,
            0,
        ),
{
    let ghost s = text@;
    let ghost cur = current@;
    let ghost av = answers@;
    let ghost whole = sections_from((ops_view(ops@), None), s, cur, av, 0);
    let n: usize = answers.len();
    let mut i: usize = 0;
    while i < n
        invariant
            i <= n,
            n == av.len(),
            s == text@,
            cur == current@,
            av == answers@,
            whole == sections_from((ops_view(old(ops)@), None), s, cur, av, 0),
            sections_from((ops_view(ops@), None), s, cur, av, i as int) == whole,
        decreases n - i,
    {
        if !is_section_seen(answers, i) {
            let (section, _) = advanced_field(answers.key_at(i));
            match update_section(text, ops, section.as_str(), current, answers) {
                Ok(_) => {},
                Err(e) => {
                    proof {
                        let p: Plan = (ops_view(ops@), Some(e@));
                        assert(sections_from(p, s, cur, av, i + 1) == p);
                    }
                    return Err(e);
                },
            }
        }
        i += 1;
    }
    Ok(())
}

// ── The whole document ───────────────────────────────────────────────
/// The edit that removes all hosts.
pub open spec fn clear_hosts() -> OpView {
    OpView {
        op: EditView::ReplaceContainer { path: hosts_path(), literal: "[]"@ },
        desc: "zero dev hosts — dev_hosts cleared (all host/DUT data dropped)"@,
    }
}

/// The plan that turns a document into what the answers describe.
pub open spec fn update_plan(s: Seq<char>, ex: ConfigView, a: WizardAnswersView) -> Plan {
    if a.hosts.len() == 0 && ex.dev_hosts.len() > 0 {
        (seq![clear_hosts()], None)
    } else {
        let current = current_of(ex);
        let p = hosts_from((Seq::empty(), None), s, ex.dev_hosts, a.hosts, current, 0);
        sections_from(p, s, current, a.advanced, 0)
    }
}

/// The edits that turn a document into what the answers describe. Without
/// hosts in the answers all hosts are removed and nothing else is done;
/// hosts and boards beyond those in the answers are left alone.
pub fn compute_update_ops(
    text: &str,
    existing: &TargetJsoncConfig,
    answers: &WizardAnswers,
) -> (r: Result<Vec<OpWithDesc>, String>)
    ensures
        r is Ok <==> update_plan(text@, existing@, answers@).1 is None,
        r is Ok ==> ops_view(r->Ok_0@) == update_plan(text@, existing@, answers@).0,
        r is Err ==> update_plan(text@, existing@, answers@).1 == Some(r->Err_0@),
{
    let mut ops: Vec<OpWithDesc> = Vec::new();
    assert(ops_view(ops@) =~= Seq::empty());
    let root: Vec<PathSeg> = Vec::new();
    assert(path_view(root@) =~= Seq::empty());
    let hosts = key_path(root.as_slice(), "dev_hosts");
    assert(path_view(hosts@) == hosts_path());
    if answers.hosts.len() == 0 && existing.dev_hosts.len() > 0 {
        push_op(
            &mut ops,
            EditOp::ReplaceContainer { path: hosts, literal: owned("[]") },
            owned("zero dev hosts — dev_hosts cleared (all host/DUT data dropped)"),
        );
        assert(ops_view(ops@) =~= seq![clear_hosts()]);
        return Ok(ops);
    }
    let current = advanced_current(existing);
    let ghost s = text@;
    let ghost exv = existing@.dev_hosts;
    let ghost av = answers@.hosts;
    let ghost cur = current@;
    let ghost whole = hosts_from((Seq::empty(), None), s, exv, av, cur, 0);
    let mut hi: usize = 0;
    while hi < answers.hosts.len()
        invariant
            hi <= answers.hosts.len(),
            s == text@,
            exv == existing@.dev_hosts,
            av == answers@.hosts,
            cur == current@,
            path_view(hosts@) == hosts_path(),
            update_plan(s, existing@, answers@) == sections_from(
                whole,
                s,
                cur,
                answers@.advanced,
                0,
            ),
            hosts_from((ops_view(ops@), None), s, exv, av, cur, hi as int) == whole,
        decreases answers.hosts.len() - hi,
    {
        assert(av[hi as int] == answers.hosts@[hi as int]@);
        match update_host(
            text,
            &mut ops,
            hi,
            hosts.as_slice(),
            &existing.dev_hosts,
            &answers.hosts[hi],
            &current,
        ) {
            Ok(_) => {},
            Err(e) => {
                proof {
                    let p: Plan = (ops_view(ops@), Some(e@));
                    assert(hosts_from(p, s, exv, av, cur, hi + 1) == p);
                    assert(sections_from(p, s, cur, answers@.advanced, 0) == p);
                }
                return Err(e);
            },
        }
        hi += 1;
    }
    match update_sections(text, &mut ops, &current, &answers.advanced) {
        Ok(_) => Ok(ops),
        Err(e) => Err(e),
    }
}

} // verus!

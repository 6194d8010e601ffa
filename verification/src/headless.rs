//! A run without questions over a file that an earlier run made.
use crate::advanced::scalar_of;
use crate::answers::{
    answers_config, dut_config, duts_config, host_config, hosts_config, missing_from, missing_of,
    missing_ports, names_port, plain_dut, relay_of, DutAnswersView, HostAnswersView,
    WizardAnswersView,
};
use crate::config::{config_text, no_config, ConfigView, DutView, HostView, NumberView};
use crate::current::scalar_now;
use crate::defaults::default_answers;
use crate::finish::{
    created_text, finished, lemma_created_is_settled, lemma_created_reads, names_boards,
    prepared_of, PendingView, PreparedView,
};
use crate::kept::{kept_config, kept_dut, kept_host, kept_number, lemma_unsigned_decimal};
use crate::merge::{lemma_answers_keep_hosts, merged_dut_from, merged_dut_key};
use crate::names::{board_name, is_board, lemma_default_names_differ, lemma_walked_names_differ};
use crate::number::{
    decimal, lemma_decimal_injective, lemma_decimal_round_trip, lemma_real_shape, real_value,
};
use crate::occupancy::{
    conflict_text, foreign_notes, foreign_of, gate_talk, held_note, own_note, own_notes, HeldView,
};
use crate::options::InitOptions;
use crate::outcome::gathered;
use crate::prompt::{noted, ConflictView, NoteKind, Shown, Talk, TalkView};
use crate::schema::schema_of;
use crate::spelling::{lemma_answers_are_sound, sound_host};
use crate::text::{or_empty, trimmed};
use crate::text_map::Pairs;
use crate::unchanged::{
    lemma_default_hosts_are_own, lemma_defaults_change_nothing, own_answers, own_host_answers,
    settled,
};
use crate::update_dut::port_now;
use vstd::prelude::*;

verus! {

// ── A file that is complete ──────────────────────────────────────────
/// A configuration that needs no answer: default answers leave it as it is,
/// every host has an address, and every board a port.
pub open spec fn complete(c: ConfigView) -> bool {
    &&& settled(c)
    &&& forall|h: int|
        0 <= h < c.dev_hosts.len() ==> trimmed(or_empty((#[trigger] c.dev_hosts[h]).ip)).len() > 0
    &&& forall|h: int, d: int|
        0 <= h < c.dev_hosts.len() && 0 <= d < c.dev_hosts[h].duts.len() ==> names_port(
            or_empty(port_now(#[trigger] c.dev_hosts[h].duts[d])),
        )
}

/// A run: what is known before it, what is to be written, and the conversation
/// after it. There is `text` in the file, or no file.
pub open spec fn run(
    path: Seq<char>,
    text: Option<Seq<char>>,
    o: InitOptions,
    t: TalkView,
    held: Seq<HeldView>,
) -> Result<(PreparedView, PendingView, Talk), Seq<char>> {
    match prepared_of(path, text, o) {
        Err(e) => Err(e),
        Ok(p) => {
            let (a, k) = gathered(o, p.schema, t);
            let (w, k1) = finished(k, p, o, a, held);
            Ok((p, w, k1))
        },
    }
}

/// Whether a conversation went on by notes alone: no reply was used up, and
/// nothing but notes was put to the user.
pub open spec fn only_noted(before: TalkView, after: TalkView) -> bool {
    &&& after == (TalkView { shown: after.shown, ..before })
    &&& before.shown.len() <= after.shown.len()
    &&& forall|i: int| 0 <= i < before.shown.len() ==> after.shown[i] == before.shown[i]
    &&& forall|i: int|
        before.shown.len() <= i < after.shown.len() ==> (#[trigger] after.shown[i]) is Note
}

/// Whether a run over a file succeeded, left it to the letter as it was and
/// said so. No question was asked: there was nothing but notes about endpoints
/// that are held, and the review.
pub open spec fn left_alone(
    path: Seq<char>,
    t: TalkView,
    r: Result<(PreparedView, PendingView, Talk), Seq<char>>,
) -> bool {
    let said = seq![path + " unchanged"@];
    r matches Ok((p, w, k)) && {
        &&& !p.created
        &&& w == (PendingView { text: None, changes: said })
        &&& k.1 is None
        &&& k.0.shown.len() > 0
        &&& k.0.shown.last() == Shown::Review(path, said)
        &&& only_noted(t, TalkView { shown: k.0.shown.drop_last(), ..k.0 })
    }
}

proof fn lemma_noted(t: TalkView, k: Talk, kind: NoteKind, msg: Seq<char>)
    requires
        k.1 is None,
        only_noted(t, k.0),
    ensures
        noted(k, kind, msg).1 is None,
        only_noted(t, noted(k, kind, msg).0),
{
}

proof fn lemma_own_noted(t: TalkView, k: Talk, v: Seq<HeldView>, i: int)
    requires
        k.1 is None,
        only_noted(t, k.0),
    ensures
        own_notes(k, v, i).1 is None,
        only_noted(t, own_notes(k, v, i).0),
    decreases v.len() - i,
{
    if 0 <= i < v.len() {
        if v[i].own {
            lemma_noted(t, k, NoteKind::Info, own_note(v[i].conflict));
            lemma_own_noted(t, noted(k, NoteKind::Info, own_note(v[i].conflict)), v, i + 1);
        } else {
            lemma_own_noted(t, k, v, i + 1);
        }
    }
}

proof fn lemma_foreign_noted(t: TalkView, k: Talk, v: Seq<ConflictView>, i: int)
    requires
        k.1 is None,
        only_noted(t, k.0),
    ensures
        foreign_notes(k, v, i).1 is None,
        only_noted(t, foreign_notes(k, v, i).0),
    decreases v.len() - i,
{
    if 0 <= i < v.len() {
        lemma_noted(t, k, NoteKind::Error, conflict_text(v[i]));
        lemma_foreign_noted(t, noted(k, NoteKind::Error, conflict_text(v[i])), v, i + 1);
    }
}

/// Where nobody is to be asked, endpoints that are held are noted, and the run
/// goes on.
pub proof fn lemma_held_is_noted(t: TalkView, o: InitOptions, held: Seq<HeldView>)
    requires
        o.non_interactive,
    ensures
        gate_talk((t, None), o, held).1 is None,
        only_noted(t, gate_talk((t, None), o, held).0),
{
    let k: Talk = (t, None);
    let foreign = foreign_of(held, held.len() as int);
    lemma_own_noted(t, k, held, 0);
    let k1 = own_notes(k, held, 0);
    lemma_foreign_noted(t, k1, foreign, 0);
    lemma_noted(t, foreign_notes(k1, foreign, 0), NoteKind::Error, held_note());
}

proof fn lemma_no_ports_missing(h: nat, duts: Seq<DutAnswersView>, n: int)
    requires
        0 <= n <= duts.len(),
        forall|d: int| 0 <= d < n ==> names_port((#[trigger] duts[d]).serial_port),
    ensures
        missing_ports(h, duts, n) == Seq::<Seq<char>>::empty(),
    decreases n,
{
    if n > 0 {
        lemma_no_ports_missing(h, duts, n - 1);
    }
}

proof fn lemma_none_missing(hosts: Seq<HostAnswersView>, n: int)
    requires
        0 <= n <= hosts.len(),
        forall|h: int| 0 <= h < n ==> trimmed((#[trigger] hosts[h]).ip).len() > 0,
        forall|h: int, d: int|
            0 <= h < n && 0 <= d < hosts[h].duts.len() ==> names_port(
                (#[trigger] hosts[h].duts[d]).serial_port,
            ),
    ensures
        missing_from(hosts, n) == Seq::<Seq<char>>::empty(),
    decreases n,
{
    if n > 0 {
        lemma_none_missing(hosts, n - 1);
        let host = hosts[n - 1];
        lemma_no_ports_missing((n - 1) as nat, host.duts, host.duts.len() as int);
        assert(missing_from(hosts, n) =~= Seq::<Seq<char>>::empty());
    }
}

/// The default answers over a complete configuration lack nothing.
pub proof fn lemma_complete_lacks_nothing(c: ConfigView, o: InitOptions)
    requires
        complete(c),
    ensures
        missing_of(default_answers(schema_of(Some(c), o))) == Seq::<Seq<char>>::empty(),
{
    let a = default_answers(schema_of(Some(c), o));
    lemma_default_hosts_are_own(c, o);
    assert forall|h: int| 0 <= h < a.hosts.len() implies trimmed(
        (#[trigger] a.hosts[h]).ip,
    ).len() > 0 by {
        assert(a.hosts[h] == own_host_answers(c.dev_hosts[h]));
    }
    assert forall|h: int, d: int|
        0 <= h < a.hosts.len() && 0 <= d < a.hosts[h].duts.len() implies names_port(
        (#[trigger] a.hosts[h].duts[d]).serial_port,
    ) by {
        assert(a.hosts[h] == own_host_answers(c.dev_hosts[h]));
        let x = c.dev_hosts[h].duts[d];
        assert(a.hosts[h].duts[d] == own_answers(x));
        assert(names_port(or_empty(port_now(x))));
    }
    lemma_none_missing(a.hosts, a.hosts.len() as int);
}

/// A run without questions over a file that is complete leaves it alone,
/// whoever holds its endpoints, where the review is not refused.
pub proof fn lemma_complete_file_is_left_alone(
    path: Seq<char>,
    text: Seq<char>,
    c: ConfigView,
    o: InitOptions,
    t: TalkView,
    held: Seq<HeldView>,
)
    requires
        config_text(text) == Some(c),
        complete(c),
        o.non_interactive,
        !o.force,
        t.refusal is None,
    ensures
        left_alone(path, t, run(path, Some(text), o, t, held)),
{
    let p = prepared_of(path, Some(text), o)->Ok_0;
    let a = default_answers(p.schema);
    lemma_complete_lacks_nothing(c, o);
    lemma_defaults_change_nothing(text, c, o);
    let k: Talk = (t, None);
    lemma_held_is_noted(t, o, held);
    let k1 = gate_talk(k, o, held);
    let said = seq![path + " unchanged"@];
    assert(Seq::<Seq<char>>::empty() + said + a.announcements =~= said);
    let w = finished(k, p, o, a, held);
    assert(w.0.changes == said);
    assert(w.1.0.shown.drop_last() =~= k1.0.shown);
    assert((TalkView { shown: w.1.0.shown.drop_last(), ..w.1.0 }) =~= k1.0);
}

// ── What a file keeps of its ports ───────────────────────────────────
/// The port that is read where this one was answered and written.
pub open spec fn kept_port(port: Seq<char>) -> Option<NumberView> {
    kept_number(Some(scalar_of(port)))
}

proof fn lemma_back_stays(t: Seq<char>)
    requires
        t.len() > 0,
        !crate::text::is_space(t[0]),
        !crate::text::is_space(t.last()),
    ensures
        trimmed(t) == t,
{
    assert(crate::text::trim_front(t) == t);
    assert(crate::text::trim_back(t) == t);
}

proof fn lemma_real_is_trimmed(s: Seq<char>)
    requires
        real_value(s) is Some,
    ensures
        real_value(s)->0.text.len() > 0,
        trimmed(real_value(s)->0.text) == real_value(s)->0.text,
{
    let t = real_value(s)->0.text;
    let (negative, d, p) = lemma_real_shape(s);
    let b = if d.len() == 0 {
        seq!['0']
    } else {
        crate::number::written_out(d, p)
    };
    assert(b.len() > 0 && crate::number::is_digit(b[0]) && crate::number::is_digit(b.last()));
    assert(t.last() == b.last());
    lemma_back_stays(t);
}

/// A port that was answered is still one once it was written and read, unless
/// it is read as zero.
pub proof fn lemma_port_is_kept(port: Seq<char>)
    requires
        names_port(port),
        kept_port(port) != Some(NumberView::Int(0)),
    ensures
        names_port(or_empty(scalar_now(kept_port(port)))),
{
    let t = trimmed(port);
    let v = scalar_of(port);
    reveal_strlit("0");
    crate::text::lemma_trimmed_idempotent(port);
    assert(decimal(0) =~= "0"@);
    if let NumberView::Float(x) = v {
        lemma_real_is_trimmed(t);
        crate::number::lemma_real_is_kept(t);
        lemma_unsigned_decimal(0, u64::MAX as nat);
    }
    if let Some(NumberView::Int(n)) = kept_port(port) {
        lemma_decimal_round_trip(n);
        lemma_back_stays(decimal(n));
        if decimal(n) == "0"@ {
            lemma_decimal_injective(n, 0);
        }
    }
}

// ── A file that was created ──────────────────────────────────────────
proof fn lemma_key_keeps_port(d: DutView, key: Seq<char>, value: Seq<char>)
    requires
        d.serial is Some,
    ensures
        merged_dut_key(d, key, value).0.serial is Some,
        merged_dut_key(d, key, value).0.serial->0.port == d.serial->0.port,
{
}

/// Answers to the keys of a board keep its serial port.
pub proof fn lemma_keys_keep_port(d: DutView, answers: Pairs, i: int)
    requires
        0 <= i,
        d.serial is Some,
    ensures
        merged_dut_from(d, answers, i).0.serial is Some,
        merged_dut_from(d, answers, i).0.serial->0.port == d.serial->0.port,
    decreases answers.len() - i,
{
    if i < answers.len() {
        lemma_key_keeps_port(d, answers[i].0, answers[i].1);
        lemma_keys_keep_port(merged_dut_key(d, answers[i].0, answers[i].1).0, answers, i + 1);
    }
}

proof fn lemma_board_has_port(a: DutAnswersView)
    ensures
        dut_config(a) matches Ok(d) ==> port_now(kept_dut(d)) == scalar_now(
            kept_port(a.serial_port),
        ),
{
    if let Ok(relay) = relay_of(a) {
        lemma_keys_keep_port(plain_dut(a, relay), a.advanced, 0);
    }
}

/// The boards of a host are those that its answers describe, one by one.
pub proof fn lemma_board_at(a: Seq<DutAnswersView>, i: int, before: Seq<DutView>, k: int)
    requires
        0 <= i <= a.len(),
        before.len() == i,
        0 <= k < a.len(),
        duts_config(a, i, before) is Ok,
    ensures
        k < i ==> duts_config(a, i, before)->Ok_0[k] == before[k],
        k >= i ==> dut_config(a[k]) == Ok::<DutView, Seq<char>>(
            duts_config(a, i, before)->Ok_0[k],
        ),
    decreases a.len() - i,
{
    if i < a.len() {
        lemma_board_at(a, i + 1, before.push(dut_config(a[i])->Ok_0), k);
    }
}

/// The hosts are those that the answers describe, one by one.
pub proof fn lemma_host_at(a: Seq<HostAnswersView>, i: int, before: Seq<HostView>, k: int)
    requires
        0 <= i <= a.len(),
        before.len() == i,
        0 <= k < a.len(),
        hosts_config(a, i, before) is Ok,
    ensures
        k < i ==> hosts_config(a, i, before)->Ok_0[k] == before[k],
        k >= i ==> host_config(a[k]) == Ok::<HostView, Seq<char>>(
            hosts_config(a, i, before)->Ok_0[k],
        ),
    decreases a.len() - i,
{
    if i < a.len() {
        lemma_host_at(a, i + 1, before.push(host_config(a[i])->Ok_0), k);
    }
}

proof fn lemma_all_ports_named(h: nat, duts: Seq<DutAnswersView>, n: int, d: int)
    requires
        0 <= d < n <= duts.len(),
        missing_ports(h, duts, n).len() == 0,
    ensures
        names_port(duts[d].serial_port),
    decreases n,
{
    if d < n - 1 {
        lemma_all_ports_named(h, duts, n - 1, d);
    }
}

proof fn lemma_all_named(hosts: Seq<HostAnswersView>, n: int, h: int)
    requires
        0 <= h < n <= hosts.len(),
        missing_from(hosts, n).len() == 0,
    ensures
        trimmed(hosts[h].ip).len() > 0,
        forall|d: int|
            0 <= d < hosts[h].duts.len() ==> names_port((#[trigger] hosts[h].duts[d]).serial_port),
    decreases n,
{
    if h < n - 1 {
        lemma_all_named(hosts, n - 1, h);
    } else {
        let duts = hosts[h].duts;
        assert forall|d: int| 0 <= d < duts.len() implies names_port(
            (#[trigger] duts[d]).serial_port,
        ) by {
            lemma_all_ports_named(h as nat, duts, duts.len() as int, d);
        }
    }
}

/// Whether there are hosts with boards, and no port is read as zero.
pub open spec fn has_boards(a: WizardAnswersView) -> bool {
    &&& 0 < a.hosts.len() <= usize::MAX
    &&& forall|h: int|
        0 <= h < a.hosts.len() ==> 0 < (#[trigger] a.hosts[h]).duts.len() <= usize::MAX
    &&& forall|h: int, d: int|
        0 <= h < a.hosts.len() && 0 <= d < a.hosts[h].duts.len() ==> kept_port(
            (#[trigger] a.hosts[h].duts[d]).serial_port,
        ) != Some(NumberView::Int(0))
}

/// A file that was created from answers that lack nothing is complete. Left
/// out are files without hosts or boards, boards without a name, which get one,
/// and ports that are read as zero, such as `00`: a run without questions
/// takes them for missing.
pub proof fn lemma_created_is_complete(a: WizardAnswersView, c: ConfigView)
    requires
        answers_config(a) == Ok::<ConfigView, Seq<char>>(c),
        missing_of(a).len() == 0,
        names_boards(a),
        has_boards(a),
    ensures
        complete(kept_config(c)),
{
    let k = kept_config(c);
    lemma_created_is_settled(a, c);
    lemma_answers_are_sound(a);
    let hosts = hosts_config(a.hosts, 0, Seq::empty())->Ok_0;
    lemma_answers_keep_hosts(ConfigView { dev_hosts: hosts, ..no_config() }, a.advanced, 0);
    assert(c.dev_hosts == hosts);
    assert forall|h: int| 0 <= h < k.dev_hosts.len() implies trimmed(
        or_empty((#[trigger] k.dev_hosts[h]).ip),
    ).len() > 0 by {
        lemma_all_named(a.hosts, a.hosts.len() as int, h);
        lemma_host_at(a.hosts, 0, Seq::empty(), h);
        assert(k.dev_hosts[h] == kept_host(hosts[h]));
    }
    assert forall|h: int, d: int|
        0 <= h < k.dev_hosts.len() && 0 <= d < k.dev_hosts[h].duts.len() implies names_port(
        or_empty(port_now(#[trigger] k.dev_hosts[h].duts[d])),
    ) by {
        assert(sound_host(c.dev_hosts[h], a.hosts[h]));
        lemma_all_named(a.hosts, a.hosts.len() as int, h);
        lemma_host_at(a.hosts, 0, Seq::empty(), h);
        lemma_board_at(a.hosts[h].duts, 0, Seq::empty(), d);
        let x = a.hosts[h].duts[d];
        assert(k.dev_hosts[h] == kept_host(hosts[h]));
        assert(k.dev_hosts[h].duts[d] == kept_dut(hosts[h].duts[d]));
        lemma_board_has_port(x);
        assert(names_port(x.serial_port));
        lemma_port_is_kept(x.serial_port);
    }
}

/// A run without questions over a file that an earlier run made leaves it alone:
/// it succeeds, the file stays to the letter, that is said, and nothing is
/// asked. The earlier run is any that succeeded and made the file, whatever was
/// answered, if there are hosts with boards and no port is read as zero. The
/// review is not refused.
pub proof fn lemma_created_file_is_left_alone(
    path: Seq<char>,
    before: Option<Seq<char>>,
    o0: InitOptions,
    t0: TalkView,
    held0: Seq<HeldView>,
    o: InitOptions,
    t: TalkView,
    held: Seq<HeldView>,
)
    requires
        run(path, before, o0, t0, held0) matches Ok((p, _, k)) && p.created && k.1 is None
            && has_boards(gathered(o0, p.schema, t0).0),
        o.non_interactive,
        !o.force,
        t.refusal is None,
    ensures
        run(path, before, o0, t0, held0)->Ok_0.1.text is Some,
        left_alone(
            path,
            t,
            run(path, run(path, before, o0, t0, held0)->Ok_0.1.text, o, t, held),
        ),
{
    let (p, w, k1) = run(path, before, o0, t0, held0)->Ok_0;
    let (a, k) = gathered(o0, p.schema, t0);
    assert(p.existing is None && p.schema == schema_of(None, o0));
    if k.1 is Some {
        lemma_stopped_run_fails(k, p, o0, a, held0);
    }
    if o0.non_interactive {
        lemma_default_names_differ(None, o0);
    } else {
        lemma_walked_names_differ(None, o0, t0);
    }
    assert forall|h: int, d: int|
        0 <= h < a.hosts.len() && 0 <= d < a.hosts[h].duts.len() implies (
    #[trigger] a.hosts[h].duts[d]).dut_name.len() > 0 by {
        assert(is_board(a.hosts, h, d));
        assert(board_name(a.hosts, h, d).len() > 0);
    }
    assert(missing_of(a).len() == 0);
    assert(created_text(a) is Ok);
    let c = answers_config(a)->Ok_0;
    lemma_created_reads(a, c);
    lemma_created_is_complete(a, c);
    lemma_complete_file_is_left_alone(path, w.text->0, kept_config(c), o, t, held);
}

proof fn lemma_stopped_run_fails(
    k: Talk,
    p: PreparedView,
    o: InitOptions,
    a: WizardAnswersView,
    held: Seq<HeldView>,
)
    requires
        k.1 is Some,
    ensures
        finished(k, p, o, a, held).1.1 is Some,
{
}

} // verus!

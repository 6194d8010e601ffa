//! The line-by-line conversation: every question of the form, host by host and
//! board by board.
use crate::advanced::{
    adv_views, advanced_default, advanced_fields, advanced_table, dut_owned, dut_owned_advanced,
    natural_default, AdvFieldView,
};
use crate::answers::{
    dut_answers_view, host_answers_view, DutAnswers, DutAnswersView, HostAnswers, HostAnswersView,
    WizardAnswers, WizardAnswersView,
};
use crate::ask::{
    ask_advanced_value, ask_count, ask_dut_key, ask_dut_name, ask_optional, ask_port,
    ask_relay_field, ask_required, asked_advanced, asked_count, asked_dut_key, asked_name,
    asked_optional, asked_port, asked_relay, asked_required,
};
use crate::defaults::text_or;
use crate::fields::{
    dut_advanced_current_value, dut_advanced_default, dut_current_value, dut_default_of,
    instances_view, materialize_group_fields, materialized, FieldInstance, InstanceView,
};
use crate::form::{
    dut_advanced_group, dut_advanced_group_of, dut_group, dut_group_of, host_count_group,
    host_count_group_of, host_group, host_group_of, FieldKeyFrag, FieldView, FragView,
};
use crate::number::{parse_unsigned, unsigned};
use crate::prompt::{confirmed, PromptIO, Talk, TalkView};
use crate::resolve::{
    dut_answers, empty_relay_answers, make_dut_answers, no_relay_answers, RelayAnswers,
    RelayAnswersView,
};
use crate::schema::{AdvancedGate, FormSchema, SchemaView};
use crate::text::{
    lemma_texts_push, opt_text, or_empty, owned, same, text_or_empty, texts, trim, trimmed,
};
use crate::text_map::{lookup, put, Pairs, TextMap};
use vstd::prelude::*;

verus! {

/// A walk: the form, with the names that are taken by now; what was decided
/// about names; and the conversation.
#[verifier::ext_equal]
pub struct WalkView {
    pub form: SchemaView,
    pub announcements: Seq<Seq<char>>,
    pub talk: Talk,
}

/// The walk with another conversation.
pub open spec fn talking(w: WalkView, k: Talk) -> WalkView {
    WalkView { talk: k, ..w }
}

/// The error that a result holds.
pub open spec fn stop_of<A>(r: Result<A, String>) -> Option<Seq<char>> {
    match r {
        Ok(_) => None,
        Err(e) => Some(e@),
    }
}

// ── The relay of a board ─────────────────────────────────────────────
/// Asking for one number of the relay.
pub open spec fn walked_number(k: Talk, f: InstanceView, key: Seq<char>) -> (Seq<char>, Talk) {
    asked_relay(k, f.label, f.default, f.empty, key)
}

/// Asking for the relay of a board, given the questions about the board.
pub open spec fn walked_relay(k: Talk, f: Seq<InstanceView>) -> (RelayAnswersView, Talk) {
    let (relay_type, k1) = asked_optional(k, f[4].label, or_empty(f[4].default));
    let (relay_port, k2) = walked_number(k1, f[5], "relay.port"@);
    let (relay_reset_ch, k3) = walked_number(k2, f[6], "relay.reset_ch"@);
    let (relay_download_ch, k4) = walked_number(k3, f[7], "relay.download_ch"@);
    let (relay_power_ch, k5) = walked_number(k4, f[8], "relay.power_ch"@);
    let (relay_reset_time_ms, k6) = walked_number(k5, f[9], "relay.reset_time_ms"@);
    let (relay_power_off_time_ms, k7) = walked_number(k6, f[10], "relay.power_off_time_ms"@);
    (
        RelayAnswersView {
            relay_type,
            relay_port,
            relay_reset_ch,
            relay_download_ch,
            relay_power_ch,
            relay_reset_time_ms,
            relay_power_off_time_ms,
        },
        k7,
    )
}

fn walk_relay<P: PromptIO>(io: &mut P, f: &Vec<FieldInstance>) -> (r: Result<RelayAnswers, String>)
    requires
        f.len() == 11,
    ensures
        walked_relay((old(io).talk(), None), instances_view(f@)).1 == (
            final(io).talk(),
            stop_of(r),
        ),
        r is Ok ==> r->Ok_0@ == walked_relay((old(io).talk(), None), instances_view(f@)).0,
{
    let relay_type = match ask_optional(io, f[4].label.as_str(), &f[4].default) {
        Ok(x) => x,
        Err(e) => {
            return Err(e);
        },
    };
    let relay_port = match ask_relay_field(io, &f[5], "relay.port") {
        Ok(x) => x,
        Err(e) => {
            return Err(e);
        },
    };
    let relay_reset_ch = match ask_relay_field(io, &f[6], "relay.reset_ch") {
        Ok(x) => x,
        Err(e) => {
            return Err(e);
        },
    };
    let relay_download_ch = match ask_relay_field(io, &f[7], "relay.download_ch") {
        Ok(x) => x,
        Err(e) => {
            return Err(e);
        },
    };
    let relay_power_ch = match ask_relay_field(io, &f[8], "relay.power_ch") {
        Ok(x) => x,
        Err(e) => {
            return Err(e);
        },
    };
    let relay_reset_time_ms = match ask_relay_field(io, &f[9], "relay.reset_time_ms") {
        Ok(x) => x,
        Err(e) => {
            return Err(e);
        },
    };
    let relay_power_off_time_ms = match ask_relay_field(io, &f[10], "relay.power_off_time_ms") {
        Ok(x) => x,
        Err(e) => {
            return Err(e);
        },
    };
    Ok(
        RelayAnswers {
            relay_type,
            relay_port,
            relay_reset_ch,
            relay_download_ch,
            relay_power_ch,
            relay_reset_time_ms,
            relay_power_off_time_ms,
        },
    )
}

// ── The advanced keys of a board ─────────────────────────────────────
/// Whether a key is asked for: a pattern only where the loader is stopped by
/// one.
pub open spec fn key_applies(map: Pairs, s: SchemaView, h: usize, d: usize, k: Seq<char>) -> bool {
    k == "uboot.pattern"@ ==> match lookup(map, "uboot.interrupt_strategy"@) {
        Some(v) => v,
        None => text_or(
            dut_current_value(s, h, d, "uboot.interrupt_strategy"@),
            natural_default("uboot.interrupt_strategy"@),
        ),
    } == "pattern"@
}

fn applies(map: &TextMap, schema: &FormSchema, h: usize, d: usize, k: &str) -> (r: bool)
    ensures
        r == key_applies(map@, schema@, h, d, k@),
{
    if !same(k, "uboot.pattern") {
        return true;
    }
    match map.get("uboot.interrupt_strategy") {
        Some(v) => same(v.as_str(), "pattern"),
        None => match dut_advanced_current_value(schema, h, d, "uboot.interrupt_strategy") {
            Some(v) => same(v.as_str(), "pattern"),
            None => same(advanced_default("uboot.interrupt_strategy").as_str(), "pattern"),
        },
    }
}

/// The answers with one more, unless it is empty.
pub open spec fn put_unless_empty(map: Pairs, k: Seq<char>, v: Seq<char>) -> Pairs {
    if trimmed(v).len() > 0 {
        put(map, k, trimmed(v))
    } else {
        map
    }
}

fn insert_unless_empty(map: &mut TextMap, k: &str, v: &str)
    ensures
        final(map)@ == put_unless_empty(old(map)@, k@, v@),
{
    let t = trim(v);
    if !t.is_empty() {
        map.insert(k, owned(t));
    }
}

/// Asking for the advanced keys of a board, from row `i` on.
pub open spec fn walked_dut_keys(
    map: Pairs,
    k: Talk,
    s: SchemaView,
    h: usize,
    d: usize,
    name: Seq<char>,
    fields: Seq<FieldView>,
    i: int,
) -> (Pairs, Talk)
    decreases fields.len() - i,
{
    if i < 0 || i >= fields.len() || k.1 is Some {
        (map, k)
    } else {
        match fields[i].key {
            FragView::DutAdvanced(key) => if key_applies(map, s, h, d, key) {
                let (v, k1) = asked_dut_key(
                    k,
                    fields[i].label,
                    dut_default_of(s, h, d, key, Some(name)),
                    dut_current_value(s, h, d, key),
                    fields[i].empty,
                    key,
                );
                let next = if k1.1 is Some {
                    map
                } else {
                    put_unless_empty(map, key, v)
                };
                walked_dut_keys(next, k1, s, h, d, name, fields, i + 1)
            } else {
                walked_dut_keys(map, k, s, h, d, name, fields, i + 1)
            },
            _ => walked_dut_keys(map, k, s, h, d, name, fields, i + 1),
        }
    }
}

fn walk_dut_keys<P: PromptIO>(io: &mut P, schema: &FormSchema, h: usize, d: usize, name: &str) -> (r:
    Result<TextMap, String>)
    ensures
        ({
            let w = walked_dut_keys(
                Pairs::empty(),
                (old(io).talk(), None),
                schema@,
                h,
                d,
                name@,
                dut_advanced_group_of().fields,
                0,
            );
            &&& w.1 == (final(io).talk(), stop_of(r))
            &&& r is Ok ==> r->Ok_0@ == w.0
        }),
{
    let group = dut_advanced_group();
    let ghost fields = group@.fields;
    let ghost s = schema@;
    let ghost n = name@;
    let ghost whole = walked_dut_keys(
        Pairs::empty(),
        (io.talk(), None),
        s,
        h,
        d,
        n,
        fields,
        0,
    );
    let mut map = TextMap::new();
    let mut i: usize = 0;
    while i < group.fields.len()
        invariant
            i <= group.fields.len(),
            fields == group@.fields,
            fields == dut_advanced_group_of().fields,
            s == schema@,
            n == name@,
            whole == walked_dut_keys(
                Pairs::empty(),
                (old(io).talk(), None),
                s,
                h,
                d,
                n,
                fields,
                0,
            ),
            walked_dut_keys(map@, (io.talk(), None), s, h, d, n, fields, i as int) == whole,
        decreases group.fields.len() - i,
    {
        let f = &group.fields[i];
        assert(fields[i as int] == f@);
        match f.key {
            FieldKeyFrag::DutAdvanced(key) => {
                if applies(&map, schema, h, d, key) {
                    let hint = dut_advanced_default(schema, h, d, key, Some(name));
                    let now = dut_advanced_current_value(schema, h, d, key);
                    match ask_dut_key(io, f.label, hint.as_str(), &now, f.empty, key) {
                        Ok(v) => insert_unless_empty(&mut map, key, v.as_str()),
                        Err(e) => {
                            proof {
                                let k: Talk = (io.talk(), Some(e@));
                                assert(walked_dut_keys(map@, k, s, h, d, n, fields, i + 1) == (
                                    map@,
                                    k,
                                ));
                            }
                            return Err(e);
                        },
                    }
                }
            },
            _ => {},
        }
        i += 1;
    }
    Ok(map)
}

// ── Boards ───────────────────────────────────────────────────────────
/// The question whether a board has a relay.
pub open spec fn relay_question(name: Seq<char>) -> Seq<char> {
    "Use relay for DUT '"@ + name + "' (type/channels/reset control)?"@
}

/// The announcements with one more, if there is one.
pub open spec fn announced(a: Seq<Seq<char>>, note: Option<Seq<char>>) -> Seq<Seq<char>> {
    match note {
        Some(n) => a.push(n),
        None => a,
    }
}

/// Asking for everything about a board.
pub open spec fn walked_dut(w: WalkView, h: usize, d: usize) -> (DutAnswersView, WalkView) {
    let f = materialized(w.form, dut_group_of(), h, d);
    let n = asked_name(w.talk, f[0].label, f[0].default, w.form.taken_duts);
    let form = SchemaView { taken_duts: n.taken, ..w.form };
    let (port, k1) = asked_port(n.talk, f[1].label, or_empty(f[1].default));
    let (user, k2) = asked_optional(k1, f[2].label, or_empty(f[2].default));
    let (gate, k3) = confirmed(k2, relay_question(n.name), f[3].default == Some("yes"@));
    let (relay, k4) = if gate {
        walked_relay(k3, f)
    } else {
        (no_relay_answers(), k3)
    };
    let (advanced, k5) = walked_dut_keys(
        Pairs::empty(),
        k4,
        form,
        h,
        d,
        n.name,
        dut_advanced_group_of().fields,
        0,
    );
    (
        dut_answers(n.name, port, user, gate, relay, advanced),
        WalkView { form, announcements: announced(w.announcements, n.note), talk: k5 },
    )
}

fn is_yes(o: &Option<String>) -> (r: bool)
    ensures
        r == (opt_text(*o) == Some("yes"@)),
{
    match o {
        Some(s) => same(s.as_str(), "yes"),
        None => false,
    }
}

fn walk_dut<P: PromptIO>(
    io: &mut P,
    schema: &mut FormSchema,
    announcements: &mut Vec<String>,
    h: usize,
    d: usize,
) -> (r: Result<DutAnswers, String>)
    ensures
        ({
            let w = walked_dut(
                WalkView {
                    form: old(schema)@,
                    announcements: texts(old(announcements)@),
                    talk: (old(io).talk(), None),
                },
                h,
                d,
            );
            &&& w.1 == (WalkView {
                form: final(schema)@,
                announcements: texts(final(announcements)@),
                talk: (final(io).talk(), stop_of(r)),
            })
            &&& r is Ok ==> r->Ok_0@ == w.0
        }),
{
    broadcast use lemma_texts_push;

    let f = materialize_group_fields(schema, &dut_group(), h, d);
    let ghost fv = instances_view(f@);
    assert(fv.len() == 11);
    let ghost s0 = schema@;
    let name = match ask_dut_name(
        io,
        f[0].label.as_str(),
        &f[0].default,
        &mut schema.taken_duts,
    ) {
        Ok((name, note)) => {
            match note {
                Some(n) => announcements.push(n),
                None => {},
            }
            name
        },
        Err(e) => {
            assert(schema@ =~= s0);
            return Err(e);
        },
    };
    assert(schema@ =~= SchemaView { taken_duts: texts(schema.taken_duts@), ..s0 });
    let port = match ask_port(io, f[1].label.as_str(), &f[1].default) {
        Ok(x) => x,
        Err(e) => {
            return Err(e);
        },
    };
    let user = match ask_optional(io, f[2].label.as_str(), &f[2].default) {
        Ok(x) => x,
        Err(e) => {
            return Err(e);
        },
    };
    let mut question = owned("Use relay for DUT '");
    question.append(name.as_str());
    question.append("' (type/channels/reset control)?");
    let gate = match io.confirm(question.as_str(), is_yes(&f[3].default)) {
        Ok(b) => b,
        Err(e) => {
            return Err(e);
        },
    };
    let relay = if gate {
        match walk_relay(io, &f) {
            Ok(x) => x,
            Err(e) => {
                return Err(e);
            },
        }
    } else {
        empty_relay_answers()
    };
    let advanced = match walk_dut_keys(io, schema, h, d, name.as_str()) {
        Ok(m) => m,
        Err(e) => {
            return Err(e);
        },
    };
    Ok(make_dut_answers(name, port, user, gate, relay, advanced))
}

/// Asking for the boards of a host, from board `d` to the one before `n`,
/// behind those in `before`.
pub open spec fn walked_duts(before: Seq<DutAnswersView>, w: WalkView, h: usize, d: int, n: int) -> (
    Seq<DutAnswersView>,
    WalkView,
)
    decreases n - d,
{
    if d >= n || w.talk.1 is Some {
        (before, w)
    } else {
        let (a, w1) = walked_dut(w, h, d as usize);
        walked_duts(before.push(a), w1, h, d + 1, n)
    }
}

fn walk_duts<P: PromptIO>(
    io: &mut P,
    schema: &mut FormSchema,
    announcements: &mut Vec<String>,
    h: usize,
    n: usize,
) -> (r: Result<Vec<DutAnswers>, String>)
    ensures
        ({
            let w = walked_duts(
                Seq::empty(),
                WalkView {
                    form: old(schema)@,
                    announcements: texts(old(announcements)@),
                    talk: (old(io).talk(), None),
                },
                h,
                0,
                n as int,
            );
            &&& w.1 == (WalkView {
                form: final(schema)@,
                announcements: texts(final(announcements)@),
                talk: (final(io).talk(), stop_of(r)),
            })
            &&& r is Ok ==> dut_answers_view(r->Ok_0@) == w.0
        }),
{
    let ghost w0 = WalkView {
        form: schema@,
        announcements: texts(announcements@),
        talk: (io.talk(), None),
    };
    let ghost whole = walked_duts(Seq::empty(), w0, h, 0, n as int);
    let mut duts: Vec<DutAnswers> = Vec::new();
    assert(dut_answers_view(duts@) =~= Seq::empty());
    let mut d: usize = 0;
    while d < n
        invariant
            d <= n,
            w0 == (WalkView {
                form: old(schema)@,
                announcements: texts(old(announcements)@),
                talk: (old(io).talk(), None),
            }),
            whole == walked_duts(Seq::empty(), w0, h, 0, n as int),
            walked_duts(
                dut_answers_view(duts@),
                WalkView {
                    form: schema@,
                    announcements: texts(announcements@),
                    talk: (io.talk(), None),
                },
                h,
                d as int,
                n as int,
            ) == whole,
        decreases n - d,
    {
        let ghost before = duts@;
        let ghost w = WalkView {
            form: schema@,
            announcements: texts(announcements@),
            talk: (io.talk(), None),
        };
        match walk_dut(io, schema, announcements, h, d) {
            Ok(a) => {
                duts.push(a);
                assert(dut_answers_view(duts@) =~= dut_answers_view(before).push(a@));
            },
            Err(e) => {
                proof {
                    let (a, w1) = walked_dut(w, h, d);
                    let b = dut_answers_view(before).push(a);
                    assert(walked_duts(b, w1, h, d + 1, n as int) == (b, w1));
                }
                return Err(e);
            },
        }
        d += 1;
    }
    Ok(duts)
}

// ── Hosts ────────────────────────────────────────────────────────────
/// The count that a default spells, or one.
pub open spec fn spelled_count(o: Option<Seq<char>>) -> usize {
    match unsigned(or_empty(o), usize::MAX as nat) {
        Some(n) => n as usize,
        None => 1,
    }
}

fn count_default(o: &Option<String>) -> (r: usize)
    ensures
        r == spelled_count(opt_text(*o)),
{
    match parse_unsigned(text_or_empty(o).as_str(), usize::MAX as u64) {
        Some(n) => n as usize,
        None => 1,
    }
}

/// Asking for everything about a host.
pub open spec fn walked_host(w: WalkView, h: usize) -> (HostAnswersView, WalkView) {
    let f = materialized(w.form, host_group_of(), h, 0);
    let (ip, k1) = asked_required(w.talk, f[0].label, or_empty(f[0].default));
    let (user, k2) = asked_optional(k1, f[1].label, or_empty(f[1].default));
    let (pass, k3) = asked_optional(k2, f[2].label, or_empty(f[2].default));
    let (host_name, k4) = asked_optional(k3, f[3].label, or_empty(f[3].default));
    let (n, k5) = asked_count(k4, f[4].label, spelled_count(f[4].default));
    let (duts, w1) = walked_duts(Seq::empty(), talking(w, k5), h, 0, n as int);
    (HostAnswersView { ip, user, pass, host_name, duts }, w1)
}

fn walk_host<P: PromptIO>(
    io: &mut P,
    schema: &mut FormSchema,
    announcements: &mut Vec<String>,
    h: usize,
) -> (r: Result<HostAnswers, String>)
    ensures
        ({
            let w = walked_host(
                WalkView {
                    form: old(schema)@,
                    announcements: texts(old(announcements)@),
                    talk: (old(io).talk(), None),
                },
                h,
            );
            &&& w.1 == (WalkView {
                form: final(schema)@,
                announcements: texts(final(announcements)@),
                talk: (final(io).talk(), stop_of(r)),
            })
            &&& r is Ok ==> r->Ok_0@ == w.0
        }),
{
    let f = materialize_group_fields(schema, &host_group(), h, 0);
    let ghost fv = instances_view(f@);
    assert(fv.len() == 5);
    let ip = match ask_required(io, f[0].label.as_str(), &f[0].default) {
        Ok(x) => x,
        Err(e) => {
            return Err(e);
        },
    };
    let user = match ask_optional(io, f[1].label.as_str(), &f[1].default) {
        Ok(x) => x,
        Err(e) => {
            return Err(e);
        },
    };
    let pass = match ask_optional(io, f[2].label.as_str(), &f[2].default) {
        Ok(x) => x,
        Err(e) => {
            return Err(e);
        },
    };
    let host_name = match ask_optional(io, f[3].label.as_str(), &f[3].default) {
        Ok(x) => x,
        Err(e) => {
            return Err(e);
        },
    };
    let default: usize = count_default(&f[4].default);
    let n: usize = match ask_count(io, f[4].label.as_str(), default) {
        Ok(x) => x,
        Err(e) => {
            return Err(e);
        },
    };
    let duts = match walk_duts(io, schema, announcements, h, n) {
        Ok(x) => x,
        Err(e) => {
            return Err(e);
        },
    };
    let r = HostAnswers { ip, user, pass, host_name, duts };
    Ok(r)
}

/// Asking for the hosts, from host `h` to the one before `n`, behind those in
/// `before`.
pub open spec fn walked_hosts(before: Seq<HostAnswersView>, w: WalkView, h: int, n: int) -> (
    Seq<HostAnswersView>,
    WalkView,
)
    decreases n - h,
{
    if h >= n || w.talk.1 is Some {
        (before, w)
    } else {
        let (a, w1) = walked_host(w, h as usize);
        walked_hosts(before.push(a), w1, h + 1, n)
    }
}

fn walk_hosts<P: PromptIO>(
    io: &mut P,
    schema: &mut FormSchema,
    announcements: &mut Vec<String>,
    n: usize,
) -> (r: Result<Vec<HostAnswers>, String>)
    ensures
        ({
            let w = walked_hosts(
                Seq::empty(),
                WalkView {
                    form: old(schema)@,
                    announcements: texts(old(announcements)@),
                    talk: (old(io).talk(), None),
                },
                0,
                n as int,
            );
            &&& w.1 == (WalkView {
                form: final(schema)@,
                announcements: texts(final(announcements)@),
                talk: (final(io).talk(), stop_of(r)),
            })
            &&& r is Ok ==> host_answers_view(r->Ok_0@) == w.0
        }),
{
    let ghost w0 = WalkView {
        form: schema@,
        announcements: texts(announcements@),
        talk: (io.talk(), None),
    };
    let ghost whole = walked_hosts(Seq::empty(), w0, 0, n as int);
    let mut hosts: Vec<HostAnswers> = Vec::new();
    assert(host_answers_view(hosts@) =~= Seq::empty());
    let mut h: usize = 0;
    while h < n
        invariant
            h <= n,
            w0 == (WalkView {
                form: old(schema)@,
                announcements: texts(old(announcements)@),
                talk: (old(io).talk(), None),
            }),
            whole == walked_hosts(Seq::empty(), w0, 0, n as int),
            walked_hosts(
                host_answers_view(hosts@),
                WalkView {
                    form: schema@,
                    announcements: texts(announcements@),
                    talk: (io.talk(), None),
                },
                h as int,
                n as int,
            ) == whole,
        decreases n - h,
    {
        let ghost before = hosts@;
        let ghost w = WalkView {
            form: schema@,
            announcements: texts(announcements@),
            talk: (io.talk(), None),
        };
        match walk_host(io, schema, announcements, h) {
            Ok(a) => {
                hosts.push(a);
                assert(host_answers_view(hosts@) =~= host_answers_view(before).push(a@));
            },
            Err(e) => {
                proof {
                    let (a, w1) = walked_host(w, h);
                    let b = host_answers_view(before).push(a);
                    assert(walked_hosts(b, w1, h + 1, n as int) == (b, w1));
                }
                return Err(e);
            },
        }
        h += 1;
    }
    Ok(hosts)
}

// ── Top-level sections ───────────────────────────────────────────────
/// Asking for the advanced keys of the top-level sections, from number `i` on.
/// Those of the boards are left out.
pub open spec fn walked_keys(
    map: Pairs,
    k: Talk,
    current: Pairs,
    table: Seq<AdvFieldView>,
    i: int,
) -> (Pairs, Talk)
    decreases table.len() - i,
{
    if i < 0 || i >= table.len() || k.1 is Some {
        (map, k)
    } else if dut_owned(table[i].key) {
        walked_keys(map, k, current, table, i + 1)
    } else {
        let f = table[i];
        let default = text_or(lookup(current, f.key), natural_default(f.key));
        let (v, k1) = asked_advanced(k, f.label, f.empty, f.key, default);
        let next = if k1.1 is Some {
            map
        } else {
            put_unless_empty(map, f.key, v)
        };
        walked_keys(next, k1, current, table, i + 1)
    }
}

fn walk_keys<P: PromptIO>(io: &mut P, current: &TextMap) -> (r: Result<TextMap, String>)
    ensures
        ({
            let w = walked_keys(
                Pairs::empty(),
                (old(io).talk(), None),
                current@,
                advanced_table(),
                0,
            );
            &&& w.1 == (final(io).talk(), stop_of(r))
            &&& r is Ok ==> r->Ok_0@ == w.0
        }),
{
    let fields = advanced_fields();
    let ghost table = adv_views(fields@);
    let ghost c = current@;
    let ghost whole = walked_keys(Pairs::empty(), (io.talk(), None), c, table, 0);
    let mut map = TextMap::new();
    let mut i: usize = 0;
    while i < fields.len()
        invariant
            i <= fields.len(),
            table == adv_views(fields@),
            table == advanced_table(),
            c == current@,
            whole == walked_keys(Pairs::empty(), (old(io).talk(), None), c, table, 0),
            walked_keys(map@, (io.talk(), None), c, table, i as int) == whole,
        decreases fields.len() - i,
    {
        let f = fields[i];
        assert(table[i as int] == f@);
        if !dut_owned_advanced(f.key) {
            let default = match current.get(f.key) {
                Some(v) => owned(v.as_str()),
                None => advanced_default(f.key),
            };
            match ask_advanced_value(io, f.label, f.empty, f.key, default.as_str()) {
                Ok(v) => insert_unless_empty(&mut map, f.key, v.as_str()),
                Err(e) => {
                    proof {
                        let k: Talk = (io.talk(), Some(e@));
                        assert(walked_keys(map@, k, c, table, i + 1) == (map@, k));
                    }
                    return Err(e);
                },
            }
        }
        i += 1;
    }
    Ok(map)
}

// ── All questions ────────────────────────────────────────────────────
/// Asking whether the advanced keys of the top-level sections are asked for.
pub open spec fn gated(k: Talk, gate: AdvancedGate) -> (bool, Talk) {
    match gate {
        AdvancedGate::Skip => (false, k),
        AdvancedGate::Forced => (true, k),
        AdvancedGate::Confirm { default } => confirmed(
            k,
            "Configure advanced options (global fallbacks)?"@,
            default,
        ),
    }
}

/// Asking everything.
pub open spec fn walked(s: SchemaView, t: TalkView) -> (WizardAnswersView, WalkView) {
    let f = materialized(s, host_count_group_of(), 0, 0);
    let (n, k1) = asked_count((t, None), f[0].label, s.host_count_default);
    let w0 = WalkView { form: s, announcements: Seq::empty(), talk: k1 };
    let (hosts, w1) = walked_hosts(Seq::empty(), w0, 0, n as int);
    let (ask, k2) = gated(w1.talk, s.advanced_gate);
    let (advanced, k3) = if ask {
        walked_keys(Pairs::empty(), k2, s.advanced_current, advanced_table(), 0)
    } else {
        (Pairs::empty(), k2)
    };
    (
        WizardAnswersView { hosts, advanced, announcements: w1.announcements },
        talking(w1, k3),
    )
}

/// Asks every question of the form, in the order of its groups, host by host
/// and board by board. The names that are given are taken from then on.
pub fn walk_schema<P: PromptIO>(schema: &mut FormSchema, io: &mut P) -> (r: Result<
    WizardAnswers,
    String,
>)
    ensures
        ({
            let w = walked(old(schema)@, old(io).talk());
            &&& w.1.talk == (final(io).talk(), stop_of(r))
            &&& w.1.form == final(schema)@
            &&& r is Ok ==> r->Ok_0@ == w.0
        }),
{
    let f = materialize_group_fields(schema, &host_count_group(), 0, 0);
    let ghost fv = instances_view(f@);
    assert(fv.len() == 1);
    let n: usize = match ask_count(io, f[0].label.as_str(), schema.host_count_default) {
        Ok(n) => n,
        Err(e) => {
            return Err(e);
        },
    };
    let ghost s0 = schema@;
    let mut announcements: Vec<String> = Vec::new();
    assert(texts(announcements@) =~= Seq::empty());
    let gate = schema.advanced_gate;
    let current = schema.advanced_current.copy();
    let hosts = match walk_hosts(io, schema, &mut announcements, n) {
        Ok(x) => x,
        Err(e) => {
            return Err(e);
        },
    };
    let ask = match gate {
        AdvancedGate::Skip => false,
        AdvancedGate::Forced => true,
        AdvancedGate::Confirm { default } => match io.confirm(
            "Configure advanced options (global fallbacks)?",
            default,
        ) {
            Ok(b) => b,
            Err(e) => {
                return Err(e);
            },
        },
    };
    let advanced = if ask {
        match walk_keys(io, &current) {
            Ok(m) => m,
            Err(e) => {
                return Err(e);
            },
        }
    } else {
        TextMap::new()
    };
    let r = WizardAnswers { hosts, advanced, announcements };
    Ok(r)
}

} // verus!

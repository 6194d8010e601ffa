//! Serial endpoints that other servers hold, and what is done about them.
use crate::answers::{HostAnswersView, WizardAnswers};
use crate::lines::{line_or_empty, nth_line};
use crate::number::{decimal, decimal_text};
use crate::options::InitOptions;
use crate::prompt::{
    conflicts_view, decided, heard_end, noted, BusyDecision, ConflictView, EndpointConflict,
    NoteKind, PromptIO, Talk,
};
use crate::text::{copy_opt, join, joined, opt_text, owned, same, texts};
use vstd::prelude::*;

verus! {

// ── Endpoints ────────────────────────────────────────────────────────
/// An endpoint: host and port.
pub type Endpoint = (Seq<char>, Seq<char>);

/// The endpoints with those of the first `n` boards of a host, each once.
pub open spec fn with_duts(seen: Seq<Endpoint>, h: HostAnswersView, n: int) -> Seq<Endpoint>
    decreases n,
{
    if n <= 0 {
        seen
    } else {
        let before = with_duts(seen, h, n - 1);
        let e = (h.ip, h.duts[n - 1].serial_port);
        if before.contains(e) {
            before
        } else {
            before.push(e)
        }
    }
}

/// The endpoints of the first `n` hosts, each once.
pub open spec fn endpoints_of(hosts: Seq<HostAnswersView>, n: int) -> Seq<Endpoint>
    decreases n,
{
    if n <= 0 {
        Seq::empty()
    } else {
        with_duts(endpoints_of(hosts, n - 1), hosts[n - 1], hosts[n - 1].duts.len() as int)
    }
}

/// The meanings of some endpoints.
pub open spec fn endpoints_view(v: Seq<(String, String)>) -> Seq<Endpoint> {
    Seq::new(v.len(), |i: int| (v[i].0@, v[i].1@))
}

fn has_endpoint(v: &Vec<(String, String)>, host: &str, port: &str) -> (r: bool)
    ensures
        r == endpoints_view(v@).contains((host@, port@)),
{
    let ghost ev = endpoints_view(v@);
    let mut i: usize = 0;
    while i < v.len()
        invariant
            i <= v.len(),
            ev == endpoints_view(v@),
            forall|k: int| 0 <= k < i ==> #[trigger] ev[k] != (host@, port@),
        decreases v.len() - i,
    {
        assert(ev[i as int] == (v@[i as int].0@, v@[i as int].1@));
        if same(v[i].0.as_str(), host) && same(v[i].1.as_str(), port) {
            return true;
        }
        i += 1;
    }
    false
}

/// The endpoints that the answers name, each once and in their order.
pub fn answered_endpoints(answers: &WizardAnswers) -> (r: Vec<(String, String)>)
    ensures
        endpoints_view(r@) == endpoints_of(answers@.hosts, answers@.hosts.len() as int),
{
    let ghost hosts = answers@.hosts;
    let mut out: Vec<(String, String)> = Vec::new();
    assert(endpoints_view(out@) =~= Seq::empty());
    let mut i: usize = 0;
    while i < answers.hosts.len()
        invariant
            i <= answers.hosts.len(),
            hosts == answers@.hosts,
            endpoints_view(out@) == endpoints_of(hosts, i as int),
        decreases answers.hosts.len() - i,
    {
        let h = &answers.hosts[i];
        let ghost hv = hosts[i as int];
        let ghost before = endpoints_view(out@);
        let mut d: usize = 0;
        while d < h.duts.len()
            invariant
                d <= h.duts.len(),
                hv == h@,
                endpoints_view(out@) == with_duts(before, hv, d as int),
            decreases h.duts.len() - d,
        {
            assert(hv.duts[d as int].serial_port == h.duts@[d as int].serial_port@);
            if !has_endpoint(&out, h.ip.as_str(), h.duts[d].serial_port.as_str()) {
                let ghost o = out@;
                out.push((owned(h.ip.as_str()), owned(h.duts[d].serial_port.as_str())));
                assert(endpoints_view(out@) =~= endpoints_view(o).push(
                    (h.ip@, h.duts@[d as int].serial_port@),
                ));
            }
            d += 1;
        }
        i += 1;
    }
    out
}

proof fn lemma_with_duts(seen: Seq<Endpoint>, h: HostAnswersView, n: int)
    requires
        seen.no_duplicates(),
        n <= h.duts.len(),
    ensures
        with_duts(seen, h, n).no_duplicates(),
        forall|e: Endpoint| seen.contains(e) ==> with_duts(seen, h, n).contains(e),
        forall|d: int|
            0 <= d < n ==> with_duts(seen, h, n).contains(
                (h.ip, (#[trigger] h.duts[d]).serial_port),
            ),
    decreases n,
{
    if n > 0 {
        lemma_with_duts(seen, h, n - 1);
        let before = with_duts(seen, h, n - 1);
        let e = (h.ip, h.duts[n - 1].serial_port);
        let after = with_duts(seen, h, n);
        assert forall|x: Endpoint| before.contains(x) implies after.contains(x) by {
            let i = choose|i: int| 0 <= i < before.len() && before[i] == x;
            assert(after[i] == x);
        }
        if !before.contains(e) {
            assert(after[before.len() as int] == e);
        }
    }
}

proof fn lemma_endpoints_from(hosts: Seq<HostAnswersView>, n: int)
    requires
        n <= hosts.len(),
    ensures
        endpoints_of(hosts, n).no_duplicates(),
        forall|i: int, d: int|
            0 <= i < n && 0 <= d < hosts[i].duts.len() ==> endpoints_of(hosts, n).contains(
                (hosts[i].ip, (#[trigger] hosts[i].duts[d]).serial_port),
            ),
    decreases n,
{
    if n > 0 {
        lemma_endpoints_from(hosts, n - 1);
        lemma_with_duts(
            endpoints_of(hosts, n - 1),
            hosts[n - 1],
            hosts[n - 1].duts.len() as int,
        );
    }
}

/// Every endpoint that the answers name is looked at, and none twice.
pub proof fn lemma_endpoints_once(hosts: Seq<HostAnswersView>)
    ensures
        endpoints_of(hosts, hosts.len() as int).no_duplicates(),
        forall|i: int, d: int|
            0 <= i < hosts.len() && 0 <= d < hosts[i].duts.len() ==> endpoints_of(
                hosts,
                hosts.len() as int,
            ).contains((hosts[i].ip, (#[trigger] hosts[i].duts[d]).serial_port)),
{
    lemma_endpoints_from(hosts, hosts.len() as int);
}

// ── Holders ──────────────────────────────────────────────────────────
/// What a lock file says of the holder of an endpoint: the fourth line says
/// since when.
pub open spec fn conflict_of(
    host: Seq<char>,
    port: Seq<char>,
    pid: u32,
    content: Seq<char>,
    owner_project: Option<Seq<char>>,
) -> ConflictView {
    ConflictView { host, port, pid, since: line_or_empty(content, 3), owner_project }
}

/// What a lock file says of the holder of an endpoint.
pub fn holder_conflict(
    host: &str,
    port: &str,
    pid: u32,
    content: &str,
    owner_project: Option<String>,
) -> (r: EndpointConflict)
    ensures
        r@ == conflict_of(host@, port@, pid, content@, opt_text(owner_project)),
{
    let r = EndpointConflict {
        host: owned(host),
        port: owned(port),
        pid,
        since: nth_line(content, 3),
        owner_project,
    };
    assert(r@ =~= conflict_of(host@, port@, pid, content@, opt_text(owner_project)));
    r
}

/// The line about an endpoint that is held.
pub open spec fn conflict_text(c: ConflictView) -> Seq<char> {
    "serial endpoint "@ + c.host + ":"@ + c.port + " is held by another MCP (PID "@ + decimal(
        c.pid as nat,
    ) + match c.owner_project {
        Some(p) => ", project "@ + p,
        None => Seq::empty(),
    } + (if c.since.len() > 0 {
        ", since "@ + c.since
    } else {
        Seq::empty()
    }) + ")"@
}

/// The line about an endpoint that is held.
pub fn endpoint_conflict_line(c: &EndpointConflict) -> (r: String)
    ensures
        r@ == conflict_text(c@),
{
    let mut line = owned("serial endpoint ");
    line.append(c.host.as_str());
    line.append(":");
    line.append(c.port.as_str());
    line.append(" is held by another MCP (PID ");
    line.append(decimal_text(c.pid as u64).as_str());
    match &c.owner_project {
        Some(p) => {
            line.append(", project ");
            line.append(p.as_str());
        },
        None => {},
    }
    if !c.since.as_str().is_empty() {
        line.append(", since ");
        line.append(c.since.as_str());
    }
    line.append(")");
    assert(line@ =~= conflict_text(c@));
    line
}

/// An endpoint that is held, and whether the holder works in this project.
#[derive(Debug, PartialEq)]
pub struct HeldEndpoint {
    pub conflict: EndpointConflict,
    pub own: bool,
}

/// The meaning of a [`HeldEndpoint`].
#[verifier::ext_equal]
pub struct HeldView {
    pub conflict: ConflictView,
    pub own: bool,
}

impl View for HeldEndpoint {
    type V = HeldView;

    open spec fn view(&self) -> HeldView {
        HeldView { conflict: self.conflict@, own: self.own }
    }
}

/// The meanings of some held endpoints.
pub open spec fn held_view(v: Seq<HeldEndpoint>) -> Seq<HeldView> {
    Seq::new(v.len(), |i: int| v[i]@)
}

/// Those of the first `n` that other projects hold.
pub open spec fn foreign_of(v: Seq<HeldView>, n: int) -> Seq<ConflictView>
    decreases n,
{
    if n <= 0 {
        Seq::empty()
    } else if v[n - 1].own {
        foreign_of(v, n - 1)
    } else {
        foreign_of(v, n - 1).push(v[n - 1].conflict)
    }
}

fn copy_conflict(c: &EndpointConflict) -> (r: EndpointConflict)
    ensures
        r@ == c@,
{
    let r = EndpointConflict {
        host: owned(c.host.as_str()),
        port: owned(c.port.as_str()),
        pid: c.pid,
        since: owned(c.since.as_str()),
        owner_project: copy_opt(&c.owner_project),
    };
    assert(r@ =~= c@);
    r
}

fn list_foreign(v: &Vec<HeldEndpoint>) -> (r: Vec<EndpointConflict>)
    ensures
        conflicts_view(r@) == foreign_of(held_view(v@), v@.len() as int),
{
    let ghost hv = held_view(v@);
    let mut out: Vec<EndpointConflict> = Vec::new();
    assert(conflicts_view(out@) =~= Seq::empty());
    let mut i: usize = 0;
    while i < v.len()
        invariant
            i <= v.len(),
            hv == held_view(v@),
            conflicts_view(out@) == foreign_of(hv, i as int),
        decreases v.len() - i,
    {
        assert(hv[i as int] == v@[i as int]@);
        if !v[i].own {
            let ghost o = out@;
            let c = copy_conflict(&v[i].conflict);
            out.push(c);
            assert(conflicts_view(out@) =~= conflicts_view(o).push(c@));
        }
        i += 1;
    }
    out
}

// ── Asking before a held endpoint is written ─────────────────────────
/// The note about an endpoint that this project's own server holds.
pub open spec fn own_note(c: ConflictView) -> Seq<char> {
    conflict_text(c)
        + " — this project's own MCP holds the endpoint; the config is still written, but stop that server before TEST so the form snapshot can own the endpoint"@
}

/// The notes about the endpoints that this project holds, from number `i` on.
pub open spec fn own_notes(k: Talk, v: Seq<HeldView>, i: int) -> Talk
    decreases v.len() - i,
{
    if i < 0 || i >= v.len() {
        k
    } else if v[i].own {
        own_notes(noted(k, NoteKind::Info, own_note(v[i].conflict)), v, i + 1)
    } else {
        own_notes(k, v, i + 1)
    }
}

/// The notes about the endpoints that others hold, from number `i` on.
pub open spec fn foreign_notes(k: Talk, v: Seq<ConflictView>, i: int) -> Talk
    decreases v.len() - i,
{
    if i < 0 || i >= v.len() {
        k
    } else {
        foreign_notes(noted(k, NoteKind::Error, conflict_text(v[i])), v, i + 1)
    }
}

/// What is told where nobody can be asked.
pub open spec fn held_note() -> Seq<char> {
    "serial endpoint(s) held by another project's MCP — the config is written, but tools stay rejected until the holder releases them (it is NEVER stopped automatically)"@
}

/// The lines about some endpoints.
pub open spec fn conflict_texts(v: Seq<ConflictView>) -> Seq<Seq<char>> {
    Seq::new(v.len(), |i: int| conflict_text(v[i]))
}

/// What ends the work when the user decides so.
pub open spec fn aborted(v: Seq<ConflictView>) -> Seq<char> {
    "aborted: "@ + joined(conflict_texts(v), "; "@)
        + " — resolve the holder first, then re-run `dutabo init` (nothing was written)"@
}

/// The conversation about held endpoints. The user is told of those that this
/// project holds, and decides about the others; where nobody can be asked the
/// user is only told. A holder is never stopped.
pub open spec fn gate_talk(k: Talk, o: InitOptions, v: Seq<HeldView>) -> Talk {
    let foreign = foreign_of(v, v.len() as int);
    let k1 = own_notes(k, v, 0);
    if k.1 is Some {
        k
    } else if foreign.len() == 0 {
        k1
    } else if o.non_interactive {
        noted(foreign_notes(k1, foreign, 0), NoteKind::Error, held_note())
    } else {
        let (d, k2) = decided(k1, foreign);
        if k2.1 is None && d == BusyDecision::Abort {
            (k2.0, Some(aborted(foreign)))
        } else {
            k2
        }
    }
}

fn note_own<P: PromptIO>(io: &mut P, v: &Vec<HeldEndpoint>)
    ensures
        own_notes((old(io).talk(), None), held_view(v@), 0) == (
            final(io).talk(),
            None::<Seq<char>>,
        ),
{
    let ghost hv = held_view(v@);
    let mut i: usize = 0;
    while i < v.len()
        invariant
            i <= v.len(),
            hv == held_view(v@),
            own_notes((io.talk(), None), hv, i as int) == own_notes((old(io).talk(), None), hv, 0),
        decreases v.len() - i,
    {
        assert(hv[i as int] == v@[i as int]@);
        if v[i].own {
            let mut m = endpoint_conflict_line(&v[i].conflict);
            m.append(
                " — this project's own MCP holds the endpoint; the config is still written, but stop that server before TEST so the form snapshot can own the endpoint",
            );
            io.note(NoteKind::Info, m.as_str());
        }
        i += 1;
    }
}

fn note_foreign<P: PromptIO>(io: &mut P, v: &Vec<EndpointConflict>)
    ensures
        foreign_notes((old(io).talk(), None), conflicts_view(v@), 0) == (
            final(io).talk(),
            None::<Seq<char>>,
        ),
{
    let ghost cv = conflicts_view(v@);
    let mut i: usize = 0;
    while i < v.len()
        invariant
            i <= v.len(),
            cv == conflicts_view(v@),
            foreign_notes((io.talk(), None), cv, i as int) == foreign_notes(
                (old(io).talk(), None),
                cv,
                0,
            ),
        decreases v.len() - i,
    {
        assert(cv[i as int] == v@[i as int]@);
        io.note(NoteKind::Error, endpoint_conflict_line(&v[i]).as_str());
        i += 1;
    }
}

fn conflict_lines(v: &Vec<EndpointConflict>) -> (r: Vec<String>)
    ensures
        texts(r@) == conflict_texts(conflicts_view(v@)),
{
    let mut out: Vec<String> = Vec::new();
    let mut i: usize = 0;
    while i < v.len()
        invariant
            i <= v.len(),
            out@.len() == i,
            forall|k: int| 0 <= k < i ==> (#[trigger] out@[k])@ == conflict_text(v@[k]@),
        decreases v.len() - i,
    {
        out.push(endpoint_conflict_line(&v[i]));
        i += 1;
    }
    assert(texts(out@) =~= conflict_texts(conflicts_view(v@)));
    out
}

/// The conversation about held endpoints, before anything is written.
pub fn occupancy_gate<P: PromptIO>(io: &mut P, opts: &InitOptions, held: &Vec<HeldEndpoint>) -> (r: Result<
    (),
    String,
>)
    ensures
        heard_end(r, final(io).talk()) == gate_talk(
            (old(io).talk(), None),
            *opts,
            held_view(held@),
        ),
{
    note_own(io, held);
    let foreign = list_foreign(held);
    assert(conflicts_view(foreign@).len() == foreign@.len());
    if foreign.len() == 0 {
        return Ok(());
    }
    if opts.non_interactive {
        note_foreign(io, &foreign);
        io.note(
            NoteKind::Error,
            "serial endpoint(s) held by another project's MCP — the config is written, but tools stay rejected until the holder releases them (it is NEVER stopped automatically)",
        );
        return Ok(());
    }
    match io.busy_endpoints(&foreign) {
        Err(e) => Err(e),
        Ok(BusyDecision::Continue) => Ok(()),
        Ok(BusyDecision::Abort) => {
            let mut e = owned("aborted: ");
            e.append(join(&conflict_lines(&foreign), "; ").as_str());
            e.append(
                " — resolve the holder first, then re-run `dutabo init` (nothing was written)",
            );
            Err(e)
        },
    }
}

/// Where nobody can be asked, held endpoints never stop the work.
pub proof fn lemma_headless_goes_on(k: Talk, o: InitOptions, v: Seq<HeldView>)
    requires
        k.1 is None,
        o.non_interactive,
    ensures
        gate_talk(k, o, v).1 is None,
{
    lemma_own_notes_go_on(k, v, 0);
    lemma_foreign_notes_go_on(own_notes(k, v, 0), foreign_of(v, v.len() as int), 0);
}

proof fn lemma_own_notes_go_on(k: Talk, v: Seq<HeldView>, i: int)
    requires
        k.1 is None,
    ensures
        own_notes(k, v, i).1 is None,
    decreases v.len() - i,
{
    if 0 <= i < v.len() {
        if v[i].own {
            lemma_own_notes_go_on(noted(k, NoteKind::Info, own_note(v[i].conflict)), v, i + 1);
        } else {
            lemma_own_notes_go_on(k, v, i + 1);
        }
    }
}

proof fn lemma_foreign_notes_go_on(k: Talk, v: Seq<ConflictView>, i: int)
    requires
        k.1 is None,
    ensures
        foreign_notes(k, v, i).1 is None,
    decreases v.len() - i,
{
    if 0 <= i < v.len() {
        lemma_foreign_notes_go_on(noted(k, NoteKind::Error, conflict_text(v[i])), v, i + 1);
    }
}

} // verus!

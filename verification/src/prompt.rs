//! The conversation with the user.
use crate::render::ref_comment;
use crate::text::{opt_text, owned, texts};
use vstd::prelude::*;

verus! {

/// How serious a note is.
#[derive(Clone, Copy, Debug, PartialEq, Eq, Structural)]
pub enum NoteKind {
    /// The user is told something.
    Info,
    /// An answer was refused.
    Error,
}

/// A serial endpoint that another running server holds.
#[derive(Debug, PartialEq)]
pub struct EndpointConflict {
    pub host: String,
    pub port: String,
    /// The process that holds it.
    pub pid: u32,
    /// Since when; empty where that is not known.
    pub since: String,
    /// The directory that the process works in, where that is known.
    pub owner_project: Option<String>,
}

/// The meaning of an [`EndpointConflict`].
#[verifier::ext_equal]
pub struct ConflictView {
    pub host: Seq<char>,
    pub port: Seq<char>,
    pub pid: u32,
    pub since: Seq<char>,
    pub owner_project: Option<Seq<char>>,
}

impl View for EndpointConflict {
    type V = ConflictView;

    open spec fn view(&self) -> ConflictView {
        ConflictView {
            host: self.host@,
            port: self.port@,
            pid: self.pid,
            since: self.since@,
            owner_project: opt_text(self.owner_project),
        }
    }
}

/// The meanings of some endpoints.
pub open spec fn conflicts_view(v: Seq<EndpointConflict>) -> Seq<ConflictView> {
    Seq::new(v.len(), |i: int| v[i]@)
}

/// What the user decides about endpoints that are held.
#[derive(Clone, Copy, Debug, PartialEq, Eq, Structural)]
pub enum BusyDecision {
    /// The configuration is written all the same.
    Continue,
    /// Nothing is written.
    Abort,
}

/// One thing that was put to the user.
pub enum Shown {
    Input(Seq<char>, Option<Seq<char>>),
    Confirm(Seq<char>, bool),
    Note(NoteKind, Seq<char>),
    Review(Seq<char>, Seq<Seq<char>>),
    Busy(Seq<ConflictView>),
}

/// A conversation: the replies that are still to come, and what was put to
/// the user so far.
#[verifier::ext_equal]
pub struct TalkView {
    /// The lines that are still to come.
    pub lines: Seq<Seq<char>>,
    /// What ends the conversation when there are no more lines.
    pub lines_end: Seq<char>,
    /// The decisions that are still to come.
    pub choices: Seq<bool>,
    /// What ends the conversation when there are no more decisions; without it
    /// the default is taken.
    pub choices_end: Option<Seq<char>>,
    /// The decisions about held endpoints that are still to come.
    pub busy: Seq<BusyDecision>,
    /// What comes when there are no more of these.
    pub busy_end: Result<BusyDecision, Seq<char>>,
    /// Why the changes are refused, if they are.
    pub refusal: Option<Seq<char>>,
    /// What was put to the user.
    pub shown: Seq<Shown>,
}

/// A conversation, and what ended it, if anything did.
pub type Talk = (TalkView, Option<Seq<char>>);

/// With one more thing put to the user.
pub open spec fn showing(t: TalkView, x: Shown) -> TalkView {
    TalkView { shown: t.shown.push(x), ..t }
}

/// Asking for a line.
pub open spec fn asked(k: Talk, prompt: Seq<char>, default: Option<Seq<char>>) -> (Seq<char>, Talk) {
    let t = showing(k.0, Shown::Input(prompt, default));
    if k.1 is Some {
        (Seq::empty(), k)
    } else if t.lines.len() == 0 {
        (Seq::empty(), (t, Some(t.lines_end)))
    } else {
        (t.lines[0], (TalkView { lines: t.lines.skip(1), ..t }, None))
    }
}

/// Asking for a decision.
pub open spec fn confirmed(k: Talk, prompt: Seq<char>, default: bool) -> (bool, Talk) {
    let t = showing(k.0, Shown::Confirm(prompt, default));
    if k.1 is Some {
        (false, k)
    } else if t.choices.len() > 0 {
        (t.choices[0], (TalkView { choices: t.choices.skip(1), ..t }, None))
    } else {
        match t.choices_end {
            Some(e) => (false, (t, Some(e))),
            None => (default, (t, None)),
        }
    }
}

/// Telling the user something.
pub open spec fn noted(k: Talk, kind: NoteKind, msg: Seq<char>) -> Talk {
    if k.1 is Some {
        k
    } else {
        (showing(k.0, Shown::Note(kind, msg)), None)
    }
}

/// Asking whether the changes are to be written.
pub open spec fn reviewed(k: Talk, path: Seq<char>, changes: Seq<Seq<char>>) -> Talk {
    if k.1 is Some {
        k
    } else {
        (showing(k.0, Shown::Review(path, changes)), k.0.refusal)
    }
}

/// Asking what to do about endpoints that are held.
pub open spec fn decided(k: Talk, conflicts: Seq<ConflictView>) -> (BusyDecision, Talk) {
    let t = showing(k.0, Shown::Busy(conflicts));
    if k.1 is Some {
        (BusyDecision::Abort, k)
    } else if t.busy.len() > 0 {
        (t.busy[0], (TalkView { busy: t.busy.skip(1), ..t }, None))
    } else {
        match t.busy_end {
            Ok(d) => (d, (t, None)),
            Err(e) => (BusyDecision::Abort, (t, Some(e))),
        }
    }
}

/// A text that came back, with the conversation after it.
pub open spec fn heard(r: Result<String, String>, t: TalkView) -> (Seq<char>, Talk) {
    match r {
        Ok(s) => (s@, (t, None)),
        Err(e) => (Seq::empty(), (t, Some(e@))),
    }
}

/// A decision that came back, with the conversation after it.
pub open spec fn heard_choice(r: Result<bool, String>, t: TalkView) -> (bool, Talk) {
    match r {
        Ok(b) => (b, (t, None)),
        Err(e) => (false, (t, Some(e@))),
    }
}

/// Nothing that came back, with the conversation after it.
pub open spec fn heard_end(r: Result<(), String>, t: TalkView) -> Talk {
    match r {
        Ok(_) => (t, None),
        Err(e) => (t, Some(e@)),
    }
}

/// A decision about held endpoints that came back, with the conversation after
/// it.
pub open spec fn heard_busy(r: Result<BusyDecision, String>, t: TalkView) -> (BusyDecision, Talk) {
    match r {
        Ok(d) => (d, (t, None)),
        Err(e) => (BusyDecision::Abort, (t, Some(e@))),
    }
}

/// How questions reach the user. An implementation hands on what was typed as
/// it is; what it means is decided by those who ask.
pub trait PromptIO {
    /// The conversation.
    spec fn talk(&self) -> TalkView;

    /// Asks for a line. The default is shown; an empty reply is the empty text.
    fn input(&mut self, prompt: &str, default: Option<&str>) -> (r: Result<String, String>)
        ensures
            heard(r, final(self).talk()) == asked(
                (old(self).talk(), None),
                prompt@,
                ref_comment(default),
            ),
    ;

    /// Asks for a decision.
    fn confirm(&mut self, prompt: &str, default: bool) -> (r: Result<bool, String>)
        ensures
            heard_choice(r, final(self).talk()) == confirmed(
                (old(self).talk(), None),
                prompt@,
                default,
            ),
    ;

    /// Tells the user something.
    fn note(&mut self, kind: NoteKind, msg: &str)
        ensures
            (final(self).talk(), None::<Seq<char>>) == noted(
                (old(self).talk(), None),
                kind,
                msg@,
            ),
    ;

    /// Asks whether the changes are to be written.
    fn finish(&mut self, target_path: &str, changes: &Vec<String>) -> (r: Result<(), String>)
        ensures
            heard_end(r, final(self).talk()) == reviewed(
                (old(self).talk(), None),
                target_path@,
                texts(changes@),
            ),
    ;

    /// Asks what to do about endpoints that other servers hold.
    fn busy_endpoints(&mut self, conflicts: &Vec<EndpointConflict>) -> (r: Result<
        BusyDecision,
        String,
    >)
        ensures
            heard_busy(r, final(self).talk()) == decided(
                (old(self).talk(), None),
                conflicts_view(conflicts@),
            ),
    ;
}

// ── Prepared replies ─────────────────────────────────────────────────
/// One thing that was put to the user, as it was recorded.
#[derive(Debug, PartialEq)]
pub enum Recorded {
    /// A question, with its default.
    Input(String, Option<String>),
    /// A decision that was asked for, with its default.
    Confirm(String, bool),
    /// What the user was told.
    Note(NoteKind, String),
    /// The changes that were put to the user, with the file they are for.
    Review(String, Vec<String>),
    /// Endpoints that other servers hold.
    Busy(Vec<EndpointConflict>),
}

impl View for Recorded {
    type V = Shown;

    open spec fn view(&self) -> Shown {
        match self {
            Recorded::Input(prompt, default) => Shown::Input(prompt@, opt_text(*default)),
            Recorded::Confirm(prompt, default) => Shown::Confirm(prompt@, *default),
            Recorded::Note(kind, msg) => Shown::Note(*kind, msg@),
            Recorded::Review(path, changes) => Shown::Review(path@, texts(changes@)),
            Recorded::Busy(conflicts) => Shown::Busy(conflicts_view(conflicts@)),
        }
    }
}

/// The meanings of what was recorded.
pub open spec fn record_view(v: Seq<Recorded>) -> Seq<Shown> {
    Seq::new(v.len(), |i: int| v[i]@)
}

/// A conversation whose replies were prepared. A decision that was not
/// prepared is the default; a line that was not prepared ends it. All that is
/// put to the user is recorded.
pub struct CannedIO {
    inputs: Vec<String>,
    confirms: Vec<bool>,
    busy: Vec<BusyDecision>,
    record: Vec<Recorded>,
}

fn copy_conflicts(v: &Vec<EndpointConflict>) -> (r: Vec<EndpointConflict>)
    ensures
        conflicts_view(r@) == conflicts_view(v@),
{
    let mut out: Vec<EndpointConflict> = Vec::new();
    let mut i: usize = 0;
    while i < v.len()
        invariant
            i <= v.len(),
            out@.len() == i,
            forall|k: int| 0 <= k < i ==> (#[trigger] out@[k])@ == v@[k]@,
        decreases v.len() - i,
    {
        let c = &v[i];
        let project = match &c.owner_project {
            Some(p) => Some(owned(p.as_str())),
            None => None,
        };
        let x = EndpointConflict {
            host: owned(c.host.as_str()),
            port: owned(c.port.as_str()),
            pid: c.pid,
            since: owned(c.since.as_str()),
            owner_project: project,
        };
        assert(x@ =~= c@);
        out.push(x);
        i += 1;
    }
    assert(conflicts_view(out@) =~= conflicts_view(v@));
    out
}

fn own_strs(v: &[&str]) -> (r: Vec<String>)
    ensures
        texts(r@) == crate::config::strs(v@),
{
    let mut out: Vec<String> = Vec::new();
    let mut i: usize = 0;
    while i < v.len()
        invariant
            i <= v.len(),
            out@.len() == i,
            forall|k: int| 0 <= k < i ==> (#[trigger] out@[k])@ == v@[k]@,
        decreases v.len() - i,
    {
        out.push(owned(v[i]));
        i += 1;
    }
    assert(texts(out@) =~= crate::config::strs(v@));
    out
}

fn own_ref(o: Option<&str>) -> (r: Option<String>)
    ensures
        opt_text(r) == ref_comment(o),
{
    match o {
        Some(s) => Some(owned(s)),
        None => None,
    }
}

impl CannedIO {
    /// A conversation with these lines, then these decisions.
    pub fn new(inputs: &[&str], confirms: Vec<bool>, busy: Vec<BusyDecision>) -> (r: Self)
        ensures
            r.talk() == (TalkView {
                lines: crate::config::strs(inputs@),
                lines_end: "no more canned inputs"@,
                choices: confirms@,
                choices_end: None,
                busy: busy@,
                busy_end: Ok(BusyDecision::Continue),
                refusal: None,
                shown: Seq::empty(),
            }),
    {
        assert(record_view(Seq::empty()) =~= Seq::empty());
        CannedIO {
            inputs: own_strs(inputs),
            confirms,
            busy,
            record: Vec::new(),
        }
    }

    /// What was put to the user, in the order in which it was.
    pub fn record(&self) -> (r: &Vec<Recorded>)
        ensures
            record_view(r@) == self.talk().shown,
    {
        &self.record
    }

    /// The number of lines that are still to come.
    pub fn remaining(&self) -> (r: usize)
        ensures
            r == self.talk().lines.len(),
    {
        self.inputs.len()
    }
}

impl PromptIO for CannedIO {
    closed spec fn talk(&self) -> TalkView {
        TalkView {
            lines: texts(self.inputs@),
            lines_end: "no more canned inputs"@,
            choices: self.confirms@,
            choices_end: None,
            busy: self.busy@,
            busy_end: Ok(BusyDecision::Continue),
            refusal: None,
            shown: record_view(self.record@),
        }
    }

    fn input(&mut self, prompt: &str, default: Option<&str>) -> (r: Result<String, String>) {
        let ghost before = self.talk();
        let ghost held = self.record@;
        let x = Recorded::Input(owned(prompt), own_ref(default));
        self.record.push(x);
        assert(record_view(self.record@) =~= record_view(held).push(x@));
        if self.inputs.len() == 0 {
            return Err(owned("no more canned inputs"));
        }
        let line = self.inputs.remove(0);
        assert(self.talk() =~= asked((before, None), prompt@, ref_comment(default)).1.0) by {
            assert(texts(self.inputs@) =~= before.lines.skip(1));
        }
        Ok(line)
    }

    fn confirm(&mut self, prompt: &str, default: bool) -> (r: Result<bool, String>) {
        let ghost before = self.talk();
        let ghost held = self.record@;
        let x = Recorded::Confirm(owned(prompt), default);
        self.record.push(x);
        assert(record_view(self.record@) =~= record_view(held).push(x@));
        if self.confirms.len() == 0 {
            return Ok(default);
        }
        let b = self.confirms.remove(0);
        assert(self.talk() =~= confirmed((before, None), prompt@, default).1.0) by {
            assert(self.confirms@ =~= before.choices.skip(1));
        }
        Ok(b)
    }

    fn note(&mut self, kind: NoteKind, msg: &str) {
        let ghost held = self.record@;
        let x = Recorded::Note(kind, owned(msg));
        self.record.push(x);
        assert(record_view(self.record@) =~= record_view(held).push(x@));
    }

    fn finish(&mut self, target_path: &str, changes: &Vec<String>) -> (r: Result<(), String>) {
        let ghost held = self.record@;
        let x = Recorded::Review(owned(target_path), crate::text::copy_texts(changes));
        self.record.push(x);
        assert(record_view(self.record@) =~= record_view(held).push(x@));
        Ok(())
    }

    fn busy_endpoints(&mut self, conflicts: &Vec<EndpointConflict>) -> (r: Result<
        BusyDecision,
        String,
    >) {
        let ghost before = self.talk();
        let ghost held = self.record@;
        let x = Recorded::Busy(copy_conflicts(conflicts));
        self.record.push(x);
        assert(record_view(self.record@) =~= record_view(held).push(x@));
        if self.busy.len() == 0 {
            return Ok(BusyDecision::Continue);
        }
        let d = self.busy.remove(0);
        assert(self.talk() =~= decided((before, None), conflicts_view(conflicts@)).1.0) by {
            assert(self.busy@ =~= before.busy.skip(1));
        }
        Ok(d)
    }
}

} // verus!

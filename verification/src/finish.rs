//! The beginning and the end of a run: reading what is there, and making what
//! is to be written.
use crate::answers::{
    answers_config, build_config_from_answers, missing_of, missing_required, WizardAnswers,
    WizardAnswersView,
};
use crate::config::{config_error, config_text, parse_jsonc_text, ConfigView, TargetJsoncConfig};
use crate::defaults::default_answers;
use crate::edit::{apply_edits, edited_from, edits_view, EditOp, EditView};
use crate::kept::kept_config;
use crate::occupancy::{gate_talk, held_view, occupancy_gate, HeldEndpoint, HeldView};
use crate::options::InitOptions;
use crate::prompt::{reviewed, PromptIO, Talk, TalkView};
use crate::render::{config_document, render_jsonc};
use crate::schema::{build_form_schema, schema_of, FormSchema, SchemaView};
use crate::spelling::{lemma_answers_are_sound, sound_dut, sound_host};
use crate::text::{join, joined, lemma_texts_push, opt_text, owned, texts};
use crate::unchanged::{lemma_defaults_change_nothing, settled, settled_dut};
use crate::update::{ops_view, OpView, OpWithDesc};
use crate::update_config::{compute_update_ops, update_plan};
use crate::written::lemma_written_reads;
use vstd::prelude::*;

verus! {

// ── The beginning ────────────────────────────────────────────────────
/// What is known before the first question.
#[derive(Debug, PartialEq)]
pub struct PreparedInit {
    pub target_path: String,
    pub existing_text: Option<String>,
    /// The configuration that is to be updated; none where a new file is made.
    pub existing: Option<TargetJsoncConfig>,
    pub schema: FormSchema,
    /// Whether a new file is made.
    pub created: bool,
}

/// The meaning of [`PreparedInit`].
#[verifier::ext_equal]
pub struct PreparedView {
    pub target_path: Seq<char>,
    pub existing_text: Option<Seq<char>>,
    pub existing: Option<ConfigView>,
    pub schema: SchemaView,
    pub created: bool,
}

/// The meaning of an optional configuration.
pub open spec fn opt_config(o: Option<TargetJsoncConfig>) -> Option<ConfigView> {
    match o {
        Some(c) => Some(c@),
        None => None,
    }
}

impl View for PreparedInit {
    type V = PreparedView;

    open spec fn view(&self) -> PreparedView {
        PreparedView {
            target_path: self.target_path@,
            existing_text: opt_text(self.existing_text),
            existing: opt_config(self.existing),
            schema: self.schema@,
            created: self.created,
        }
    }
}

/// The message about a file that is not to be edited.
pub open spec fn refuses_edit(path: Seq<char>, why: Seq<char>) -> Seq<char> {
    path + " does not parse ("@ + why + ") — refusing to edit; fix the file by hand first"@
}

/// The message about a file that is not to be edited.
pub fn refuses_edit_text(path: &str, why: &str) -> (r: String)
    ensures
        r@ == refuses_edit(path@, why@),
{
    let mut e = owned(path);
    e.append(" does not parse (");
    e.append(why);
    e.append(") — refusing to edit; fix the file by hand first");
    e
}

/// What is known of a file before the first question. A file that is there is
/// updated, unless it is to be overwritten; one that holds no configuration is
/// refused.
pub open spec fn prepared_of(path: Seq<char>, text: Option<Seq<char>>, o: InitOptions) -> Result<
    PreparedView,
    Seq<char>,
> {
    let fresh = PreparedView {
        target_path: path,
        existing_text: text,
        existing: None,
        schema: schema_of(None, o),
        created: true,
    };
    match text {
        Some(t) => if o.force {
            Ok(fresh)
        } else {
            match config_text(t) {
                Some(c) => Ok(
                    PreparedView {
                        existing: Some(c),
                        schema: schema_of(Some(c), o),
                        created: false,
                        ..fresh
                    },
                ),
                None => Err(refuses_edit(path, config_error(t))),
            }
        },
        None => Ok(fresh),
    }
}

/// Reads what is there, before the first question.
pub fn prepare_init(target_path: String, existing_text: Option<String>, opts: &InitOptions) -> (r: Result<
    PreparedInit,
    String,
>)
    ensures
        match r {
            Ok(p) => prepared_of(target_path@, opt_text(existing_text), *opts) == Ok::<
                PreparedView,
                Seq<char>,
            >(p@),
            Err(e) => prepared_of(target_path@, opt_text(existing_text), *opts) == Err::<
                PreparedView,
                Seq<char>,
            >(e@),
        },
{
    let ghost whole = prepared_of(target_path@, opt_text(existing_text), *opts);
    let existing = match &existing_text {
        Some(t) => {
            if opts.force {
                None
            } else {
                match parse_jsonc_text(t.as_str()) {
                    Ok(c) => Some(c),
                    Err(e) => {
                        return Err(refuses_edit_text(target_path.as_str(), e.as_str()));
                    },
                }
            }
        },
        None => None,
    };
    let schema = match &existing {
        Some(c) => build_form_schema(Some(c), opts),
        None => build_form_schema(None, opts),
    };
    let created = existing_text.is_none() || opts.force;
    let r = PreparedInit { target_path, existing_text, existing, schema, created };
    assert(r@ =~= whole->Ok_0);
    Ok(r)
}

// ── The end ──────────────────────────────────────────────────────────
/// What is to be written, and what is said about it.
#[derive(Debug, PartialEq)]
pub struct PendingWrite {
    /// The new text of the file; none where it stays as it is.
    pub text: Option<String>,
    /// What changes.
    pub changes: Vec<String>,
}

/// The meaning of a [`PendingWrite`].
#[verifier::ext_equal]
pub struct PendingView {
    pub text: Option<Seq<char>>,
    pub changes: Seq<Seq<char>>,
}

impl View for PendingWrite {
    type V = PendingView;

    open spec fn view(&self) -> PendingView {
        PendingView { text: opt_text(self.text), changes: texts(self.changes@) }
    }
}

/// The text that answers make of what is there, and what is said about the
/// edits: a new document, an edited one, or the one that is there.
pub enum Outcome {
    Created(Seq<char>),
    Edited(Seq<char>, Seq<OpView>),
    Unchanged,
}

/// The edits without what is said about them.
pub open spec fn bare_edits(ops: Seq<OpView>) -> Seq<EditView> {
    Seq::new(ops.len(), |i: int| ops[i].op)
}

/// What is said about the edits.
pub open spec fn edit_descs(ops: Seq<OpView>) -> Seq<Seq<char>> {
    Seq::new(ops.len(), |i: int| ops[i].desc)
}

/// A new document with the answers.
pub open spec fn created_text(a: WizardAnswersView) -> Result<Seq<char>, Seq<char>> {
    match answers_config(a) {
        Err(e) => Err(e),
        Ok(c) => Ok(config_document(c, true)),
    }
}

/// The document that is there, edited so that it says what the answers say.
pub open spec fn updated_text(text: Seq<char>, ex: ConfigView, a: WizardAnswersView) -> Result<
    Outcome,
    Seq<char>,
> {
    let (ops, err) = update_plan(text, ex, a);
    match err {
        Some(e) => Err(e),
        None => if ops.len() == 0 {
            Ok(Outcome::Unchanged)
        } else {
            match edited_from(text, bare_edits(ops), 0) {
                Err(e) => Err(e),
                Ok(t) => Ok(Outcome::Edited(t, ops)),
            }
        },
    }
}

/// The message about required answers that are missing.
pub open spec fn missing_error(what: Seq<char>, missing: Seq<Seq<char>>) -> Seq<char> {
    what + joined(missing, ", "@)
}

/// The line about a file that is overwritten.
pub open spec fn force_lines(p: PreparedView, o: InitOptions) -> Seq<Seq<char>> {
    if o.force && p.existing_text is Some {
        seq!["--force: overwriting "@ + p.target_path]
    } else {
        Seq::empty()
    }
}

/// A conversation that an error ended.
pub open spec fn failed(k: Talk, e: Seq<char>) -> Talk {
    if k.1 is Some {
        k
    } else {
        (k.0, Some(e))
    }
}

/// The end of a run that makes a new file: the document is made and read back,
/// then the user is asked.
pub open spec fn finished_create(
    k: Talk,
    p: PreparedView,
    o: InitOptions,
    a: WizardAnswersView,
    held: Seq<HeldView>,
) -> (PendingView, Talk) {
    let nothing = PendingView { text: None, changes: Seq::empty() };
    match created_text(a) {
        Err(e) => (nothing, failed(k, e)),
        Ok(t) => if config_text(t) is None {
            (
                nothing,
                failed(
                    k,
                    "internal: generated config does not parse ("@ + config_error(t) + ")"@,
                ),
            )
        } else {
            let changes = force_lines(p, o) + seq!["created "@ + p.target_path] + a.announcements;
            (
                PendingView { text: Some(t), changes },
                reviewed(gate_talk(k, o, held), p.target_path, changes),
            )
        },
    }
}

/// The end of a run that updates a file: the user is asked about held
/// endpoints, the document is edited, then the user is asked about the changes.
pub open spec fn finished_update(
    k: Talk,
    p: PreparedView,
    o: InitOptions,
    a: WizardAnswersView,
    held: Seq<HeldView>,
    text: Seq<char>,
    ex: ConfigView,
) -> (PendingView, Talk) {
    let nothing = PendingView { text: None, changes: Seq::empty() };
    let k1 = gate_talk(k, o, held);
    match updated_text(text, ex, a) {
        Err(e) => (nothing, failed(k1, e)),
        Ok(Outcome::Edited(t, ops)) => {
            let changes = force_lines(p, o) + seq!["updated "@ + p.target_path] + edit_descs(ops)
                + a.announcements;
            (PendingView { text: Some(t), changes }, reviewed(k1, p.target_path, changes))
        },
        Ok(_) => {
            let changes = force_lines(p, o) + seq![p.target_path + " unchanged"@]
                + a.announcements;
            (PendingView { text: None, changes }, reviewed(k1, p.target_path, changes))
        },
    }
}

/// The end of a run. Nothing is to be written unless every required answer is
/// there, the text holds a configuration, and the user agrees.
pub open spec fn finished(
    k: Talk,
    p: PreparedView,
    o: InitOptions,
    a: WizardAnswersView,
    held: Seq<HeldView>,
) -> (PendingView, Talk) {
    let nothing = PendingView { text: None, changes: Seq::empty() };
    let missing = missing_of(a);
    if missing.len() > 0 {
        (nothing, failed(k, missing_error("non-interactive init requires: "@, missing)))
    } else {
        match (p.existing, p.existing_text) {
            (Some(ex), Some(text)) => finished_update(k, p, o, a, held, text, ex),
            _ => finished_create(k, p, o, a, held),
        }
    }
}

/// What is to be written that came back, with the conversation after it.
pub open spec fn pending_of(r: Result<PendingWrite, String>, t: TalkView, w: (PendingView, Talk)) -> bool {
    match r {
        Ok(p) => w.1 == (t, None::<Seq<char>>) && p@ == w.0,
        Err(e) => w.1 == (t, Some(e@)),
    }
}

fn append_texts(out: &mut Vec<String>, more: &Vec<String>)
    ensures
        texts(final(out)@) == texts(old(out)@) + texts(more@),
{
    let ghost before = texts(out@);
    let ghost m = texts(more@);
    let mut i: usize = 0;
    assert(texts(out@) =~= before + m.take(0));
    while i < more.len()
        invariant
            i <= more.len(),
            m == texts(more@),
            texts(out@) == before + m.take(i as int),
        decreases more.len() - i,
    {
        broadcast use lemma_texts_push;

        out.push(owned(more[i].as_str()));
        assert(m.take(i + 1) =~= m.take(i as int).push(m[i as int]));
        assert(texts(out@) =~= before + m.take(i + 1));
        i += 1;
    }
    assert(m.take(m.len() as int) =~= m);
}

fn force_change(p: &PreparedInit, opts: &InitOptions) -> (r: Vec<String>)
    ensures
        texts(r@) == force_lines(p@, *opts),
{
    let mut out: Vec<String> = Vec::new();
    if opts.force && p.existing_text.is_some() {
        let mut m = owned("--force: overwriting ");
        m.append(p.target_path.as_str());
        out.push(m);
    }
    assert(texts(out@) =~= force_lines(p@, *opts));
    out
}

fn list_edits(ops: &Vec<OpWithDesc>) -> (r: Vec<EditOp>)
    ensures
        edits_view(r@) == bare_edits(ops_view(ops@)),
        r@.len() == ops@.len(),
{
    let mut out: Vec<EditOp> = Vec::new();
    let mut i: usize = 0;
    while i < ops.len()
        invariant
            i <= ops.len(),
            out@.len() == i,
            forall|k: int| 0 <= k < i ==> (#[trigger] out@[k])@ == ops@[k].op@,
        decreases ops.len() - i,
    {
        out.push(ops[i].op.copy());
        i += 1;
    }
    assert(edits_view(out@) =~= bare_edits(ops_view(ops@)));
    out
}

fn list_descs(ops: &Vec<OpWithDesc>) -> (r: Vec<String>)
    ensures
        texts(r@) == edit_descs(ops_view(ops@)),
{
    let mut out: Vec<String> = Vec::new();
    let mut i: usize = 0;
    while i < ops.len()
        invariant
            i <= ops.len(),
            out@.len() == i,
            forall|k: int| 0 <= k < i ==> (#[trigger] out@[k])@ == ops@[k].desc@,
        decreases ops.len() - i,
    {
        out.push(owned(ops[i].desc.as_str()));
        i += 1;
    }
    assert(texts(out@) =~= edit_descs(ops_view(ops@)));
    out
}

fn missing_text(what: &str, missing: &Vec<String>) -> (r: String)
    ensures
        r@ == missing_error(what@, texts(missing@)),
{
    let mut e = owned(what);
    e.append(join(missing, ", ").as_str());
    e
}

fn finish_create<P: PromptIO>(
    io: &mut P,
    opts: &InitOptions,
    prepared: &PreparedInit,
    answers: &WizardAnswers,
    held: &Vec<HeldEndpoint>,
) -> (r: Result<PendingWrite, String>)
    ensures
        pending_of(
            r,
            final(io).talk(),
            finished_create(
                (old(io).talk(), None),
                prepared@,
                *opts,
                answers@,
                held_view(held@),
            ),
        ),
{
    let config = match build_config_from_answers(answers) {
        Ok(c) => c,
        Err(e) => {
            return Err(e);
        },
    };
    let text = render_jsonc(&config, true);
    match parse_jsonc_text(text.as_str()) {
        Ok(_) => {},
        Err(why) => {
            let mut e = owned("internal: generated config does not parse (");
            e.append(why.as_str());
            e.append(")");
            return Err(e);
        },
    }
    match occupancy_gate(io, opts, held) {
        Ok(_) => {},
        Err(e) => {
            return Err(e);
        },
    }
    let mut changes = force_change(prepared, opts);
    let ghost f = texts(changes@);
    let mut line = owned("created ");
    line.append(prepared.target_path.as_str());
    changes.push(line);
    assert(texts(changes@) =~= f + seq![line@]);
    append_texts(&mut changes, &answers.announcements);
    match io.finish(prepared.target_path.as_str(), &changes) {
        Ok(_) => Ok(PendingWrite { text: Some(text), changes }),
        Err(e) => Err(e),
    }
}

fn finish_update<P: PromptIO>(
    io: &mut P,
    opts: &InitOptions,
    prepared: &PreparedInit,
    answers: &WizardAnswers,
    held: &Vec<HeldEndpoint>,
    text: &str,
    existing: &TargetJsoncConfig,
) -> (r: Result<PendingWrite, String>)
    ensures
        pending_of(
            r,
            final(io).talk(),
            finished_update(
                (old(io).talk(), None),
                prepared@,
                *opts,
                answers@,
                held_view(held@),
                text@,
                existing@,
            ),
        ),
{
    match occupancy_gate(io, opts, held) {
        Ok(_) => {},
        Err(e) => {
            return Err(e);
        },
    }
    let ops = match compute_update_ops(text, existing, answers) {
        Ok(ops) => ops,
        Err(e) => {
            return Err(e);
        },
    };
    let ghost ov = ops_view(ops@);
    assert(ov.len() == ops@.len());
    let mut changes = force_change(prepared, opts);
    let ghost f = texts(changes@);
    let mut new_text: Option<String> = None;
    if ops.len() == 0 {
        let mut line = owned(prepared.target_path.as_str());
        line.append(" unchanged");
        changes.push(line);
        assert(texts(changes@) =~= f + seq![line@]);
    } else {
        let t = match apply_edits(text, list_edits(&ops).as_slice()) {
            Ok(t) => t,
            Err(e) => {
                return Err(e);
            },
        };
        let mut line = owned("updated ");
        line.append(prepared.target_path.as_str());
        changes.push(line);
        assert(texts(changes@) =~= f + seq![line@]);
        append_texts(&mut changes, &list_descs(&ops));
        new_text = Some(t);
    }
    append_texts(&mut changes, &answers.announcements);
    match io.finish(prepared.target_path.as_str(), &changes) {
        Ok(_) => Ok(PendingWrite { text: new_text, changes }),
        Err(e) => Err(e),
    }
}

/// The end of a run, up to the writing: what is to be written, after the user
/// has agreed.
pub fn finish_init<P: PromptIO>(
    io: &mut P,
    opts: &InitOptions,
    prepared: &PreparedInit,
    answers: &WizardAnswers,
    held: &Vec<HeldEndpoint>,
) -> (r: Result<PendingWrite, String>)
    ensures
        pending_of(
            r,
            final(io).talk(),
            finished(
                (old(io).talk(), None),
                prepared@,
                *opts,
                answers@,
                held_view(held@),
            ),
        ),
{
    let missing = missing_required(answers);
    assert(texts(missing@).len() == missing@.len());
    if missing.len() > 0 {
        return Err(missing_text("non-interactive init requires: ", &missing));
    }
    match (&prepared.existing, &prepared.existing_text) {
        (Some(ex), Some(text)) => finish_update(
            io,
            opts,
            prepared,
            answers,
            held,
            text.as_str(),
            ex,
        ),
        _ => finish_create(io, opts, prepared, answers, held),
    }
}

// ── Trying answers out ───────────────────────────────────────────────
/// The document that the answers make of what is there.
pub open spec fn test_text(p: PreparedView, a: WizardAnswersView) -> Result<Seq<char>, Seq<char>> {
    match (p.existing, p.existing_text) {
        (Some(ex), Some(text)) => match updated_text(text, ex, a) {
            Err(e) => Err(e),
            Ok(Outcome::Edited(t, _)) => Ok(t),
            Ok(_) => Ok(text),
        },
        _ => created_text(a),
    }
}

/// The document that the answers make of what is there, if every required
/// answer is there and the document holds a configuration.
pub open spec fn test_config(p: PreparedView, a: WizardAnswersView) -> Result<Seq<char>, Seq<char>> {
    let missing = missing_of(a);
    if missing.len() > 0 {
        Err(missing_error("test requires: "@, missing))
    } else {
        match test_text(p, a) {
            Err(e) => Err(e),
            Ok(t) => if config_text(t) is Some {
                Ok(t)
            } else {
                Err(
                    "internal: generated TEST config does not parse ("@ + config_error(t) + ")"@,
                )
            },
        }
    }
}

fn make_test_text(prepared: &PreparedInit, answers: &WizardAnswers) -> (r: Result<String, String>)
    ensures
        crate::edit::text_result(r) == test_text(prepared@, answers@),
{
    match (&prepared.existing, &prepared.existing_text) {
        (Some(ex), Some(text)) => {
            let ops = match compute_update_ops(text.as_str(), ex, answers) {
                Ok(ops) => ops,
                Err(e) => {
                    return Err(e);
                },
            };
            assert(ops_view(ops@).len() == ops@.len());
            if ops.len() == 0 {
                Ok(owned(text.as_str()))
            } else {
                apply_edits(text.as_str(), list_edits(&ops).as_slice())
            }
        },
        _ => match build_config_from_answers(answers) {
            Ok(c) => Ok(render_jsonc(&c, true)),
            Err(e) => Err(e),
        },
    }
}

/// The document that the answers make of what is there, without writing it.
pub fn render_test_config(prepared: &PreparedInit, answers: &WizardAnswers) -> (r: Result<
    String,
    String,
>)
    ensures
        crate::edit::text_result(r) == test_config(prepared@, answers@),
{
    let missing = missing_required(answers);
    assert(texts(missing@).len() == missing@.len());
    if missing.len() > 0 {
        return Err(missing_text("test requires: ", &missing));
    }
    let text = match make_test_text(prepared, answers) {
        Ok(t) => t,
        Err(e) => {
            return Err(e);
        },
    };
    match parse_jsonc_text(text.as_str()) {
        Ok(_) => Ok(text),
        Err(why) => {
            let mut e = owned("internal: generated TEST config does not parse (");
            e.append(why.as_str());
            e.append(")");
            Err(e)
        },
    }
}

// ── What holds of every run ──────────────────────────────────────────
/// Nothing is handed out to be written without the consent of the user.
pub proof fn lemma_refused_writes_nothing(
    t: TalkView,
    p: PreparedView,
    o: InitOptions,
    a: WizardAnswersView,
    held: Seq<HeldView>,
)
    requires
        t.refusal is Some,
    ensures
        finished((t, None), p, o, a, held).1.1 is Some,
{
    lemma_gate_keeps_refusal((t, None), o, held);
}

proof fn lemma_gate_keeps_refusal(k: Talk, o: InitOptions, held: Seq<HeldView>)
    ensures
        gate_talk(k, o, held).0.refusal == k.0.refusal,
{
    lemma_own_notes_keep_refusal(k, held, 0);
    lemma_foreign_notes_keep_refusal(
        crate::occupancy::own_notes(k, held, 0),
        crate::occupancy::foreign_of(held, held.len() as int),
        0,
    );
}

proof fn lemma_own_notes_keep_refusal(k: Talk, v: Seq<HeldView>, i: int)
    ensures
        crate::occupancy::own_notes(k, v, i).0.refusal == k.0.refusal,
    decreases v.len() - i,
{
    if 0 <= i < v.len() {
        if v[i].own {
            lemma_own_notes_keep_refusal(
                crate::prompt::noted(
                    k,
                    crate::prompt::NoteKind::Info,
                    crate::occupancy::own_note(v[i].conflict),
                ),
                v,
                i + 1,
            );
        } else {
            lemma_own_notes_keep_refusal(k, v, i + 1);
        }
    }
}

proof fn lemma_foreign_notes_keep_refusal(k: Talk, v: Seq<crate::prompt::ConflictView>, i: int)
    ensures
        crate::occupancy::foreign_notes(k, v, i).0.refusal == k.0.refusal,
    decreases v.len() - i,
{
    if 0 <= i < v.len() {
        lemma_foreign_notes_keep_refusal(
            crate::prompt::noted(
                k,
                crate::prompt::NoteKind::Error,
                crate::occupancy::conflict_text(v[i]),
            ),
            v,
            i + 1,
        );
    }
}

/// A text that is handed out to be written holds a configuration.
pub proof fn lemma_written_is_configuration(
    k: Talk,
    p: PreparedView,
    o: InitOptions,
    a: WizardAnswersView,
    held: Seq<HeldView>,
)
    ensures
        finished(k, p, o, a, held).0.text matches Some(t) ==> config_text(t) is Some,
{
    match (p.existing, p.existing_text) {
        (Some(ex), Some(text)) => {
            lemma_edited_is_configuration(text, ex, a);
        },
        _ => {},
    }
}

proof fn lemma_edited_is_configuration(text: Seq<char>, ex: ConfigView, a: WizardAnswersView)
    ensures
        updated_text(text, ex, a) matches Ok(Outcome::Edited(t, _)) ==> config_text(t) is Some,
{
    let ops = bare_edits(update_plan(text, ex, a).0);
    if ops.len() > 0 && edited_from(text, ops, 0) is Ok {
        crate::edit::lemma_edits_stay_valid(crate::edit::edited(text, ops[0])->Ok_0, ops, 1);
    }
}

/// A new file is always read back, as what a document keeps of the
/// configuration that the answers describe.
pub proof fn lemma_created_reads(a: WizardAnswersView, c: ConfigView)
    requires
        answers_config(a) == Ok::<ConfigView, Seq<char>>(c),
    ensures
        created_text(a) == Ok::<Seq<char>, Seq<char>>(config_document(c, true)),
        config_text(config_document(c, true)) == Some(kept_config(c)),
{
    lemma_answers_are_sound(a);
    lemma_written_reads(c, true);
}

/// Whether answers name hosts with boards that have names.
pub open spec fn names_boards(a: WizardAnswersView) -> bool {
    &&& 0 < a.hosts.len() <= usize::MAX
    &&& forall|h: int|
        0 <= h < a.hosts.len() ==> 0 < (#[trigger] a.hosts[h]).duts.len() <= usize::MAX
    &&& forall|h: int, d: int|
        0 <= h < a.hosts.len() && 0 <= d < a.hosts[h].duts.len() ==> (
        #[trigger] a.hosts[h].duts[d]).dut_name.len() > 0
}

/// A file that was created is settled.
pub proof fn lemma_created_is_settled(a: WizardAnswersView, c: ConfigView)
    requires
        answers_config(a) == Ok::<ConfigView, Seq<char>>(c),
        names_boards(a),
    ensures
        settled(kept_config(c)),
{
    lemma_answers_are_sound(a);
    let k = kept_config(c);
    assert forall|h: int| 0 <= h < k.dev_hosts.len() implies 0 < (
    #[trigger] k.dev_hosts[h]).duts.len() <= usize::MAX by {
        assert(sound_host(c.dev_hosts[h], a.hosts[h]));
        assert(a.hosts[h].duts.len() > 0);
    }
    assert forall|h: int, d: int|
        0 <= h < k.dev_hosts.len() && 0 <= d < k.dev_hosts[h].duts.len() implies settled_dut(
        #[trigger] k.dev_hosts[h].duts[d],
    ) by {
        assert(sound_host(c.dev_hosts[h], a.hosts[h]));
        assert(sound_dut(c.dev_hosts[h].duts[d]));
        assert(c.dev_hosts[h].duts[d].dut_name == a.hosts[h].duts[d].dut_name);
        assert(a.hosts[h].duts[d].dut_name.len() > 0);
    }
}

/// A run without questions over a file that was created changes nothing in it.
/// Left out are files without hosts or boards, and boards without a name,
/// which get one.
pub proof fn lemma_created_file_stays(a: WizardAnswersView, c: ConfigView, o: InitOptions)
    requires
        answers_config(a) == Ok::<ConfigView, Seq<char>>(c),
        names_boards(a),
    ensures
        ({
            let t = config_document(c, true);
            let now = kept_config(c);
            &&& created_text(a) == Ok::<Seq<char>, Seq<char>>(t)
            &&& config_text(t) == Some(now)
            &&& update_plan(t, now, default_answers(schema_of(Some(now), o))) == (
                Seq::<OpView>::empty(),
                None::<Seq<char>>,
            )
        }),
{
    lemma_created_reads(a, c);
    lemma_created_is_settled(a, c);
    lemma_defaults_change_nothing(config_document(c, true), kept_config(c), o);
}

/// A run without questions over a settled configuration writes nothing.
pub proof fn lemma_settled_run_writes_nothing(
    k: Talk,
    p: PreparedView,
    o: InitOptions,
    held: Seq<HeldView>,
    s: Seq<char>,
    c: ConfigView,
)
    requires
        p.existing_text == Some(s),
        p.existing == Some(c),
        config_text(s) == Some(c),
        settled(c),
    ensures
        finished(k, p, o, default_answers(schema_of(Some(c), o)), held).0.text is None,
{
    lemma_defaults_change_nothing(s, c, o);
}

/// Trying answers out gives the very text that would be written.
pub proof fn lemma_test_is_what_is_written(
    k: Talk,
    p: PreparedView,
    o: InitOptions,
    a: WizardAnswersView,
    held: Seq<HeldView>,
)
    requires
        finished(k, p, o, a, held).0.text is Some,
    ensures
        test_config(p, a) == Ok::<Seq<char>, Seq<char>>(finished(k, p, o, a, held).0.text->0),
{
    lemma_written_is_configuration(k, p, o, a, held);
}

} // verus!

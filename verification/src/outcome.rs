//! A whole run: where its answers come from, and what it tells at the end.
use crate::answers::{WizardAnswers, WizardAnswersView};
use crate::config::ConfigView;
use crate::defaults::{default_answers, fill_defaults};
use crate::finish::{refuses_edit, refuses_edit_text, PreparedInit};
use crate::jsonc::{document, parse_jsonc_value, Json, JsonView};
use crate::lock_manager::default_lock_dir;
use crate::mcp_json::{
    entry_of, mcp_json_note, mcp_note, merge_sermcp_entry, merged_entry, sermcp_entry,
    McpJsonAction,
};
use crate::options::InitOptions;
use crate::prompt::{PromptIO, Talk, TalkView};
use crate::schema::{FormSchema, SchemaView};
use crate::text::{opt_text, owned, texts};
use crate::walk::{stop_of, walk_schema, walked};
use vstd::prelude::*;

verus! {

/// The answers of a run, with the conversation after them: the defaults where
/// nobody is to be asked, and what the user says otherwise.
pub open spec fn gathered(o: InitOptions, s: SchemaView, t: TalkView) -> (WizardAnswersView, Talk) {
    if o.non_interactive {
        (default_answers(s), (t, None))
    } else {
        let (a, w) = walked(s, t);
        (a, w.talk)
    }
}

/// The answers of a run: the defaults where nobody is to be asked, and what
/// the user says otherwise.
pub fn gather_answers<P: PromptIO>(io: &mut P, opts: &InitOptions, schema: &mut FormSchema) -> (r:
    Result<WizardAnswers, String>)
    ensures
        ({
            let (a, k) = gathered(*opts, old(schema)@, old(io).talk());
            &&& k == (final(io).talk(), stop_of(r))
            &&& r is Ok ==> r->Ok_0@ == a
        }),
        final(schema)@ == (if opts.non_interactive {
            old(schema)@
        } else {
            walked(old(schema)@, old(io).talk()).1.form
        }),
{
    if opts.non_interactive {
        Ok(fill_defaults(schema))
    } else {
        walk_schema(schema, io)
    }
}

/// Where the locks of the endpoints stand: where the configuration that is
/// there says, or where they stand otherwise.
pub open spec fn lock_dir_of(existing: Option<ConfigView>) -> Seq<char> {
    match existing {
        Some(c) => match c.lock_dir {
            Some(d) => d,
            None => "/tmp/sermcp/locks"@,
        },
        None => "/tmp/sermcp/locks"@,
    }
}

/// Where the locks of the endpoints stand.
pub fn lock_dir_for(prepared: &PreparedInit) -> (r: String)
    ensures
        r@ == lock_dir_of(prepared@.existing),
{
    match &prepared.existing {
        Some(c) => match &c.lock_dir {
            Some(d) => owned(d.as_str()),
            None => default_lock_dir(),
        },
        None => default_lock_dir(),
    }
}

/// What the client's list of servers becomes, given the text that is there. A
/// text that cannot be read is left alone.
pub open spec fn listed(path: Seq<char>, text: Option<Seq<char>>, target_conf: Seq<char>) -> Result<
    (JsonView, McpJsonAction),
    Seq<char>,
> {
    match text {
        Some(t) => match document(t) {
            Some(j) => merged_entry(Some(j), entry_of(target_conf)),
            None => Err(refuses_edit(path, "not valid JSON with comments"@)),
        },
        None => merged_entry(None, entry_of(target_conf)),
    }
}

/// What the client's list of servers becomes, given the text that is there.
pub fn ensure_mcp_json(path: &str, text: &Option<String>, target_conf: &str) -> (r: Result<
    (Json, McpJsonAction),
    String,
>)
    ensures
        match r {
            Ok((root, action)) => listed(path@, opt_text(*text), target_conf@) == Ok::<
                (JsonView, McpJsonAction),
                Seq<char>,
            >((root@, action)),
            Err(e) => listed(path@, opt_text(*text), target_conf@) == Err::<
                (JsonView, McpJsonAction),
                Seq<char>,
            >(e@),
        },
{
    let existing = match text {
        Some(t) => match parse_jsonc_value(t.as_str()) {
            Ok(j) => Some(j),
            Err(e) => {
                return Err(refuses_edit_text(path, e.as_str()));
            },
        },
        None => None,
    };
    merge_sermcp_entry(existing, sermcp_entry(target_conf))
}

/// What a run did.
#[derive(Debug)]
pub struct WizardOutcome {
    /// What changed, line by line.
    pub changes: Vec<String>,
    /// The configuration.
    pub config_path: String,
    /// Whether it was made, and not updated.
    pub config_created: bool,
}

/// What a run did, once everything is written: what was to change, and what
/// became of the client's list of servers.
pub fn wizard_outcome(
    prepared: &PreparedInit,
    changes: Vec<String>,
    mcp: &Result<McpJsonAction, String>,
) -> (r: WizardOutcome)
    ensures
        texts(r.changes@) == texts(changes@).push(
            mcp_note(
                match *mcp {
                    Ok(a) => Ok(a),
                    Err(e) => Err(e@),
                },
            ),
        ),
        r.config_path@ == prepared@.target_path,
        r.config_created == prepared@.created,
{
    let mut all = changes;
    all.push(mcp_json_note(mcp));
    assert(texts(all@) =~= texts(changes@).push(all@.last()@));
    WizardOutcome {
        changes: all,
        config_path: owned(prepared.target_path.as_str()),
        config_created: prepared.created,
    }
}

} // verus!

//! The text of a JSON value.
use crate::jsonc::{
    items_view, json_string, json_view, lemma_items_view, lemma_members_view, members_view, quoted,
    Json, JsonView,
};
use crate::text::opt_text;
use vstd::prelude::*;

verus! {

/// The text of a value, without white space.
pub open spec fn compact(j: JsonView) -> Seq<char>
    decreases j,
{
    match j {
        JsonView::Null => "null"@,
        JsonView::Bool(b) => if b {
            "true"@
        } else {
            "false"@
        },
        JsonView::Number(t) => t,
        JsonView::Text(t) => quoted(t),
        JsonView::Array(v) => "["@ + compact_items(v) + "]"@,
        JsonView::Object(m) => "{"@ + compact_members(m) + "}"@,
    }
}

/// The text of the elements of an array.
pub open spec fn compact_items(v: Seq<JsonView>) -> Seq<char>
    decreases v,
{
    if v.len() == 0 {
        Seq::empty()
    } else {
        compact_items(v.drop_last()) + comma_before(v.len()) + compact(v.last())
    }
}

/// The text of the members of an object.
pub open spec fn compact_members(m: Seq<(Seq<char>, JsonView)>) -> Seq<char>
    decreases m,
{
    if m.len() == 0 {
        Seq::empty()
    } else {
        compact_members(m.drop_last()) + comma_before(m.len()) + quoted(m.last().0) + ":"@ + compact(
            m.last().1,
        )
    }
}

/// The comma before the last of `n` entries: none before the first.
pub open spec fn comma_before(n: nat) -> Seq<char> {
    if n > 1 {
        ","@
    } else {
        Seq::empty()
    }
}

fn write_items(out: &mut String, v: &Vec<Json>)
    ensures
        final(out)@ == old(out)@ + compact_items(items_view(v@)),
    decreases v,
{
    let ghost all = items_view(v@);
    proof {
        lemma_items_view(v@);
    }
    let mut i: usize = 0;
    assert(out@ =~= old(out)@ + compact_items(all.take(0)));
    while i < v.len()
        invariant
            i <= v@.len(),
            all == items_view(v@),
            all.len() == v@.len(),
            forall|k: int| 0 <= k < v@.len() ==> #[trigger] all[k] == json_view(v@[k]),
            out@ == old(out)@ + compact_items(all.take(i as int)),
        decreases v@.len() - i,
    {
        if i > 0 {
            out.append(",");
        }
        assert(decreases_to!(v => v@[i as int]));
        write_json(out, &v[i]);
        assert(all.take(i + 1).drop_last() =~= all.take(i as int));
        assert(all.take(i + 1).last() == all[i as int]);
        assert(out@ =~= old(out)@ + compact_items(all.take(i + 1)));
        i += 1;
    }
    assert(all.take(i as int) =~= all);
}

fn write_members(out: &mut String, m: &Vec<(String, Json)>)
    ensures
        final(out)@ == old(out)@ + compact_members(members_view(m@)),
    decreases m,
{
    let ghost all = members_view(m@);
    proof {
        lemma_members_view(m@);
    }
    let mut i: usize = 0;
    assert(out@ =~= old(out)@ + compact_members(all.take(0)));
    while i < m.len()
        invariant
            i <= m@.len(),
            all == members_view(m@),
            all.len() == m@.len(),
            forall|k: int|
                0 <= k < m@.len() ==> #[trigger] all[k] == (m@[k].0@, json_view(m@[k].1)),
            out@ == old(out)@ + compact_members(all.take(i as int)),
        decreases m@.len() - i,
    {
        if i > 0 {
            out.append(",");
        }
        out.append(json_string(m[i].0.as_str()).as_str());
        out.append(":");
        assert(decreases_to!(m => m@[i as int]));
        assert(decreases_to!(m@[i as int] => m@[i as int].1));
        write_json(out, &m[i].1);
        assert(all.take(i + 1).drop_last() =~= all.take(i as int));
        assert(all.take(i + 1).last() == all[i as int]);
        assert(out@ =~= old(out)@ + compact_members(all.take(i + 1)));
        i += 1;
    }
    assert(all.take(i as int) =~= all);
}

/// Puts the text of a value behind `out`.
pub fn write_json(out: &mut String, json: &Json)
    ensures
        final(out)@ == old(out)@ + compact(json@),
    decreases json,
{
    match json {
        Json::Null => out.append("null"),
        Json::Bool(b) => {
            if *b {
                out.append("true")
            } else {
                out.append("false")
            }
        },
        Json::Number(t) => out.append(t.as_str()),
        Json::Text(t) => out.append(json_string(t.as_str()).as_str()),
        Json::Array(v) => {
            out.append("[");
            write_items(out, v);
            out.append("]");
        },
        Json::Object(m) => {
            out.append("{");
            write_members(out, m);
            out.append("}");
        },
    }
    assert(out@ =~= old(out)@ + compact(json@));
}

/// What the text of a JSON value is with line breaks and indents, where it is
/// one.
pub uninterp spec fn pretty_printed(text: Seq<char>) -> Option<Seq<char>>;

/// `serde_json::to_string_pretty` of the value that `serde_json::from_str`
/// reads from a text; none where the text is not a JSON value. How it is laid
/// out is a matter of the text alone, and is not stated.
#[verifier::external_body]
fn pretty(text: &str) -> (r: Option<String>)
    ensures
        opt_text(r) == pretty_printed(text@),
{
    let value: serde_json::Value = serde_json::from_str(text).ok()?;
    serde_json::to_string_pretty(&value).ok()
}

/// The text of a file that holds a value, given how it is laid out.
pub open spec fn with_last_break(text: Option<Seq<char>>) -> Option<Seq<char>> {
    match text {
        Some(t) => Some(t + seq!['\n']),
        None => None,
    }
}

/// The text of a file that holds a value, given how it is laid out.
pub fn file_text(text: Option<String>) -> (r: Option<String>)
    ensures
        opt_text(r) == with_last_break(opt_text(text)),
{
    match text {
        Some(mut t) => {
            t.push('\n');
            Some(t)
        },
        None => None,
    }
}

/// The text of a file that holds a value, laid out to be read.
pub fn json_file(json: &Json) -> (r: Option<String>)
    ensures
        opt_text(r) == with_last_break(pretty_printed(compact(json@))),
{
    let mut text = String::new();
    write_json(&mut text, json);
    assert(text@ =~= compact(json@));
    file_text(pretty(text.as_str()))
}

} // verus!

//! The entry of this server in the client's list of servers.
use crate::config::{opt_json, ref_json};
use crate::jsonc::{json_view, lemma_members_view, lemma_object, members_view, Json, JsonView};
use crate::text::{owned, same};
use vstd::prelude::*;

verus! {

/// What the entry says of the server.
pub const MCP_JSON_DESCRIPTION: &'static str = "Serial debug MCP for embedded Linux target boards";

/// What was done to the list.
#[derive(Clone, Copy, Debug, PartialEq, Eq, Structural)]
pub enum McpJsonAction {
    /// There was no list; it was made.
    Created,
    /// The entry was added.
    Merged,
    /// The entry was there, and was left as it is.
    Untouched,
}

/// The members of an object.
pub type Members = Seq<(Seq<char>, JsonView)>;

/// The last of the first `n` members that has a name.
pub open spec fn last_member(m: Members, name: Seq<char>, n: int) -> Option<int>
    decreases n,
{
    if n <= 0 {
        None
    } else if m[n - 1].0 == name {
        Some(n - 1)
    } else {
        last_member(m, name, n - 1)
    }
}

/// The last member that has a name.
pub open spec fn member_index(m: Members, name: Seq<char>) -> Option<int> {
    last_member(m, name, m.len() as int)
}

pub(crate) fn find_last(m: &Vec<(String, Json)>, name: &str) -> (r: Option<usize>)
    ensures
        match r {
            Some(i) => member_index(members_view(m@), name@) == Some(i as int) && i < m@.len(),
            None => member_index(members_view(m@), name@) is None,
        },
{
    let ghost v = members_view(m@);
    proof {
        lemma_members_view(m@);
    }
    let mut n: usize = m.len();
    while n > 0
        invariant
            n <= m.len(),
            v == members_view(m@),
            v.len() == m@.len(),
            forall|k: int|
                0 <= k < m@.len() ==> #[trigger] v[k] == (m@[k].0@, json_view(m@[k].1)),
            last_member(v, name@, n as int) == member_index(v, name@),
        decreases n,
    {
        assert(v[n - 1].0 == m@[n - 1].0@);
        if same(m[n - 1].0.as_str(), name) {
            return Some(n - 1);
        }
        n -= 1;
    }
    None
}

/// The member of a name, in a value that is an object.
pub open spec fn member_of(j: JsonView, name: Seq<char>) -> Option<JsonView> {
    match j {
        JsonView::Object(m) => match member_index(m, name) {
            Some(i) => Some(m[i].1),
            None => None,
        },
        _ => None,
    }
}

impl Json {
    /// The member of a name; where the name occurs more than once, the last.
    pub fn get(&self, name: &str) -> (r: Option<&Json>)
        ensures
            ref_json(r) == member_of(self@, name@),
    {
        match self {
            Json::Object(m) => match find_last(m, name) {
                Some(i) => {
                    proof {
                        lemma_members_view(m@);
                        assert(members_view(m@)[i as int] == (
                            m@[i as int].0@,
                            json_view(m@[i as int].1),
                        ));
                    }
                    Some(&m[i].1)
                },
                None => None,
            },
            _ => None,
        }
    }
}

/// The entry of this server: it is started with the path of the configuration.
pub open spec fn entry_of(target_conf: Seq<char>) -> JsonView {
    JsonView::Object(
        seq![
            ("command"@, JsonView::Text("sermcp"@)),
            ("env"@, JsonView::Object(seq![("TARGET_CONF"@, JsonView::Text(target_conf))])),
            ("description"@, JsonView::Text(MCP_JSON_DESCRIPTION@)),
        ],
    )
}

/// The object with one member.
fn one_member(name: &str, value: Json) -> (r: Json)
    ensures
        r@ == JsonView::Object(seq![(name@, value@)]),
{
    let mut m: Vec<(String, Json)> = Vec::new();
    m.push((owned(name), value));
    proof {
        lemma_object(m@, seq![(name@, value@)]);
    }
    Json::Object(m)
}

/// The entry of this server.
pub fn sermcp_entry(target_conf: &str) -> (r: Json)
    ensures
        r@ == entry_of(target_conf@),
{
    let env = one_member("TARGET_CONF", Json::Text(owned(target_conf)));
    let mut m: Vec<(String, Json)> = Vec::new();
    m.push((owned("command"), Json::Text(owned("sermcp"))));
    m.push((owned("env"), env));
    m.push((owned("description"), Json::Text(owned(MCP_JSON_DESCRIPTION))));
    proof {
        lemma_object(m@, entry_of(target_conf@)->Object_0);
    }
    Json::Object(m)
}

/// The list with the entry of this server. An entry that is there is left as
/// it is, and so is everything else.
pub open spec fn merged_entry(existing: Option<JsonView>, entry: JsonView) -> Result<
    (JsonView, McpJsonAction),
    Seq<char>,
> {
    let own = JsonView::Object(seq![("sermcp"@, entry)]);
    match existing {
        None => Ok((JsonView::Object(seq![("mcpServers"@, own)]), McpJsonAction::Created)),
        Some(JsonView::Object(m)) => match member_index(m, "mcpServers"@) {
            None => Ok((JsonView::Object(m.push(("mcpServers"@, own))), McpJsonAction::Merged)),
            Some(i) => match m[i].1 {
                JsonView::Object(servers) => if member_index(servers, "sermcp"@) is Some {
                    Ok((JsonView::Object(m), McpJsonAction::Untouched))
                } else {
                    let all = JsonView::Object(servers.push(("sermcp"@, entry)));
                    Ok((JsonView::Object(m.update(i, (m[i].0, all))), McpJsonAction::Merged))
                },
                _ => Err(".mcp.json `mcpServers` is not a JSON object"@),
            },
        },
        Some(_) => Err(".mcp.json does not contain a JSON object at the top level"@),
    }
}

/// Adds the entry of this server to the list.
pub fn merge_sermcp_entry(existing: Option<Json>, entry: Json) -> (r: Result<
    (Json, McpJsonAction),
    String,
>)
    ensures
        match r {
            Ok((root, action)) => merged_entry(opt_json(existing), entry@) == Ok::<
                (JsonView, McpJsonAction),
                Seq<char>,
            >((root@, action)),
            Err(e) => merged_entry(opt_json(existing), entry@) == Err::<
                (JsonView, McpJsonAction),
                Seq<char>,
            >(e@),
        },
{
    let ghost ev = entry@;
    match existing {
        None => Ok((one_member("mcpServers", one_member("sermcp", entry)), McpJsonAction::Created)),
        Some(Json::Object(root)) => {
            let mut m = root;
            let ghost m0 = m@;
            let ghost mv = members_view(m0);
            proof {
                lemma_members_view(m0);
            }
            match find_last(&m, "mcpServers") {
                None => {
                    let own = one_member("sermcp", entry);
                    let ghost ov = own@;
                    m.push((owned("mcpServers"), own));
                    proof {
                        lemma_object(m@, mv.push(("mcpServers"@, ov)));
                    }
                    Ok((Json::Object(m), McpJsonAction::Merged))
                },
                Some(i) => {
                    assert(mv[i as int] == (m0[i as int].0@, json_view(m0[i as int].1)));
                    let (name, value) = m.remove(i);
                    match value {
                        Json::Object(servers) => {
                            let mut s = servers;
                            let ghost s0 = s@;
                            let ghost sv = members_view(s0);
                            proof {
                                lemma_members_view(s0);
                            }
                            if find_last(&s, "sermcp").is_some() {
                                m.insert(i, (name, Json::Object(s)));
                                assert(m@ =~= m0);
                                return Ok((Json::Object(m), McpJsonAction::Untouched));
                            }
                            s.push((owned("sermcp"), entry));
                            proof {
                                lemma_object(s@, sv.push(("sermcp"@, ev)));
                            }
                            let all = Json::Object(s);
                            let ghost av = all@;
                            m.insert(i, (name, all));
                            proof {
                                lemma_object(m@, mv.update(i as int, (mv[i as int].0, av)));
                            }
                            Ok((Json::Object(m), McpJsonAction::Merged))
                        },
                        _ => Err(owned(".mcp.json `mcpServers` is not a JSON object")),
                    }
                },
            }
        },
        Some(_) => Err(owned(".mcp.json does not contain a JSON object at the top level")),
    }
}

// ── What a merge leaves alone ────────────────────────────────────────
/// The last member of a name is found, and there is none behind it.
pub proof fn lemma_last_member(m: Members, name: Seq<char>, n: int)
    requires
        0 <= n <= m.len(),
    ensures
        match last_member(m, name, n) {
            Some(i) => 0 <= i < n && m[i].0 == name && forall|k: int|
                i < k < n ==> (#[trigger] m[k]).0 != name,
            None => forall|k: int| 0 <= k < n ==> (#[trigger] m[k]).0 != name,
        },
    decreases n,
{
    if n > 0 {
        lemma_last_member(m, name, n - 1);
    }
}

/// A merge keeps every other member of the list, in its place, and every other
/// server.
pub proof fn lemma_merge_keeps_the_rest(m: Members, entry: JsonView)
    requires
        merged_entry(Some(JsonView::Object(m)), entry) is Ok,
    ensures
        ({
            let root = merged_entry(Some(JsonView::Object(m)), entry)->Ok_0.0->Object_0;
            &&& root.len() >= m.len()
            &&& forall|i: int|
                0 <= i < m.len() && m[i].0 != "mcpServers"@ ==> #[trigger] root[i] == m[i]
            &&& member_index(m, "mcpServers"@) matches Some(i) ==> {
                let before = m[i].1->Object_0;
                let after = root[i].1->Object_0;
                &&& root[i].1 is Object
                &&& after.len() >= before.len()
                &&& after.take(before.len() as int) == before
            }
        }),
{
    lemma_last_member(m, "mcpServers"@, m.len() as int);
    let root = merged_entry(Some(JsonView::Object(m)), entry)->Ok_0.0->Object_0;
    match member_index(m, "mcpServers"@) {
        Some(i) => {
            let before = m[i].1->Object_0;
            let after = root[i].1->Object_0;
            assert(after.take(before.len() as int) =~= before);
        },
        None => {},
    }
}

/// After a merge the entry is there, and another merge changes nothing.
pub proof fn lemma_merge_once(existing: Option<JsonView>, entry: JsonView, other: JsonView)
    requires
        merged_entry(existing, entry) is Ok,
    ensures
        ({
            let root = merged_entry(existing, entry)->Ok_0.0;
            merged_entry(Some(root), other) == Ok::<(JsonView, McpJsonAction), Seq<char>>(
                (root, McpJsonAction::Untouched),
            )
        }),
{
    let root = merged_entry(existing, entry)->Ok_0.0;
    let r = root->Object_0;
    lemma_last_member(r, "mcpServers"@, r.len() as int);
    match existing {
        Some(JsonView::Object(m)) => {
            lemma_last_member(m, "mcpServers"@, m.len() as int);
            match member_index(m, "mcpServers"@) {
                Some(i) => {
                    let servers = m[i].1->Object_0;
                    if member_index(servers, "sermcp"@) is None {
                        let all = servers.push(("sermcp"@, entry));
                        assert(r[i] == (m[i].0, JsonView::Object(all)));
                        assert(r[i].0 == "mcpServers"@);
                        lemma_last_member(all, "sermcp"@, all.len() as int);
                        assert(all[servers.len() as int].0 == "sermcp"@);
                        let j = member_index(r, "mcpServers"@)->0;
                        assert(j == i) by {
                            if j != i {
                                assert(m[j].0 == r[j].0);
                            }
                        }
                    }
                },
                None => {
                    assert(r[m.len() as int].0 == "mcpServers"@);
                    let one = seq![("sermcp"@, entry)];
                    lemma_last_member(one, "sermcp"@, 1);
                    assert(one[0].0 == "sermcp"@);
                },
            }
        },
        _ => {
            assert(r[0].0 == "mcpServers"@);
            let one = seq![("sermcp"@, entry)];
            lemma_last_member(one, "sermcp"@, 1);
            assert(one[0].0 == "sermcp"@);
        },
    }
}

// ── What is said ─────────────────────────────────────────────────────
/// The line about what was done to the list, or about why it failed.
pub open spec fn mcp_note(r: Result<McpJsonAction, Seq<char>>) -> Seq<char> {
    match r {
        Ok(McpJsonAction::Created) => "generated .mcp.json (TARGET_CONF -> .target.jsonc)"@,
        Ok(McpJsonAction::Merged) => "added sermcp entry to .mcp.json (TARGET_CONF -> .target.jsonc)"@,
        Ok(McpJsonAction::Untouched) => ".mcp.json already has a sermcp entry — left unchanged"@,
        Err(e) => "warning: "@ + e,
    }
}

/// The line about what was done to the list, or about why it failed.
pub fn mcp_json_note(r: &Result<McpJsonAction, String>) -> (n: String)
    ensures
        n@ == mcp_note(
            match *r {
                Ok(a) => Ok(a),
                Err(e) => Err(e@),
            },
        ),
{
    match r {
        Ok(McpJsonAction::Created) => owned("generated .mcp.json (TARGET_CONF -> .target.jsonc)"),
        Ok(McpJsonAction::Merged) => owned(
            "added sermcp entry to .mcp.json (TARGET_CONF -> .target.jsonc)",
        ),
        Ok(McpJsonAction::Untouched) => owned(
            ".mcp.json already has a sermcp entry — left unchanged",
        ),
        Err(e) => {
            let mut n = owned("warning: ");
            n.append(e.as_str());
            n
        },
    }
}

} // verus!

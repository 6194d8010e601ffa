//! What the client's list of servers says of this one.
use crate::jsonc::JsonView;
use crate::mcp_json::{
    entry_of, lemma_last_member, member_index, member_of, merged_entry, McpJsonAction, Members,
};
use vstd::prelude::*;

verus! {

/// The entry of this server in a list.
pub open spec fn listed_entry(root: JsonView) -> Option<JsonView> {
    match member_of(root, "mcpServers"@) {
        Some(servers) => member_of(servers, "sermcp"@),
        None => None,
    }
}

proof fn lemma_pushed_member(m: Members, name: Seq<char>, value: JsonView)
    ensures
        member_of(JsonView::Object(m.push((name, value))), name) == Some(value),
{
    let w = m.push((name, value));
    lemma_last_member(w, name, w.len() as int);
    assert(w[m.len() as int] == (name, value));
}

/// After a merge the list has an entry of this server: the one that it had, or
/// the one that was to be added where it had none. What was done is told as it
/// was: a list is made where there was none, and left alone where it had an
/// entry.
pub proof fn lemma_entry_is_listed(existing: Option<JsonView>, entry: JsonView)
    requires
        merged_entry(existing, entry) is Ok,
    ensures
        ({
            let (root, action) = merged_entry(existing, entry)->Ok_0;
            let before = match existing {
                Some(j) => listed_entry(j),
                None => None,
            };
            &&& listed_entry(root) == (if before is Some {
                before
            } else {
                Some(entry)
            })
            &&& action == McpJsonAction::Created <==> existing is None
            &&& action == McpJsonAction::Untouched <==> before is Some
            &&& action == McpJsonAction::Untouched ==> existing == Some(root)
        }),
{
    let (root, action) = merged_entry(existing, entry)->Ok_0;
    let none = Seq::<(Seq<char>, JsonView)>::empty();
    let own = seq![("sermcp"@, entry)];
    assert(own =~= none.push(("sermcp"@, entry)));
    lemma_pushed_member(none, "sermcp"@, entry);
    match existing {
        None => {
            assert(seq![("mcpServers"@, JsonView::Object(own))] =~= none.push(
                ("mcpServers"@, JsonView::Object(own)),
            ));
            lemma_pushed_member(none, "mcpServers"@, JsonView::Object(own));
        },
        Some(JsonView::Object(m)) => {
            lemma_last_member(m, "mcpServers"@, m.len() as int);
            match member_index(m, "mcpServers"@) {
                None => {
                    lemma_pushed_member(m, "mcpServers"@, JsonView::Object(own));
                },
                Some(i) => {
                    let servers = m[i].1->Object_0;
                    lemma_last_member(servers, "sermcp"@, servers.len() as int);
                    if member_index(servers, "sermcp"@) is None {
                        let all = JsonView::Object(servers.push(("sermcp"@, entry)));
                        let w = m.update(i, (m[i].0, all));
                        lemma_pushed_member(servers, "sermcp"@, entry);
                        lemma_last_member(w, "mcpServers"@, w.len() as int);
                        let k = member_index(w, "mcpServers"@)->0;
                        assert(w[i].0 == "mcpServers"@);
                        assert forall|l: int| i < l < w.len() implies (#[trigger] w[l]).0
                            != "mcpServers"@ by {
                            assert(w[l] == m[l]);
                        }
                        assert(k == i);
                    }
                },
            }
        },
        _ => {},
    }
}

/// The entry of this server starts it, and hands it the path of the
/// configuration in its environment.
pub proof fn lemma_entry_names_the_configuration(target_conf: Seq<char>)
    ensures
        ({
            let e = entry_of(target_conf);
            &&& member_of(e, "command"@) == Some(JsonView::Text("sermcp"@))
            &&& member_of(e, "env"@) matches Some(env) && member_of(env, "TARGET_CONF"@) == Some(
                JsonView::Text(target_conf),
            )
        }),
{
    reveal_strlit("command");
    reveal_strlit("env");
    reveal_strlit("description");
    assert("command"@.len() == 7 && "env"@.len() == 3 && "description"@.len() == 11);
    let m = entry_of(target_conf)->Object_0;
    lemma_last_member(m, "command"@, 3);
    lemma_last_member(m, "env"@, 3);
    assert(m[0].0 == "command"@ && m[1].0 == "env"@ && m[2].0 == "description"@);
    let n = m[1].1->Object_0;
    lemma_last_member(n, "TARGET_CONF"@, 1);
    assert(n[0].0 == "TARGET_CONF"@);
}

} // verus!

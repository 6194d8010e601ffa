//! The entry of this server in the list of servers.
use sermcp::json_text::json_file;
use sermcp::jsonc::{parse_jsonc_value, Json};
use sermcp::mcp_json::{mcp_json_note, merge_sermcp_entry, sermcp_entry, McpJsonAction};
use sermcp::outcome::ensure_mcp_json;

fn test_entry() -> Json {
    sermcp_entry("/proj/.target.jsonc")
}

fn json(text: &str) -> Json {
    parse_jsonc_value(text).unwrap()
}

fn at<'a>(j: &'a Json, path: &[&str]) -> &'a Json {
    let mut cur = j;
    for key in path {
        cur = cur.get(key).unwrap_or_else(|| panic!("{key} is missing"));
    }
    cur
}

fn is_text(j: &Json, expected: &str) -> bool {
    matches!(j, Json::Text(s) if s == expected)
}

fn keys(j: &Json) -> Vec<&str> {
    match j {
        Json::Object(members) => members.iter().map(|(k, _)| k.as_str()).collect(),
        other => panic!("{other:?}"),
    }
}

#[test]
fn test_merge_missing_file_creates_canonical_shape() {
    let (root, action) = merge_sermcp_entry(None, test_entry()).unwrap();
    assert_eq!(action, McpJsonAction::Created);
    assert!(is_text(at(&root, &["mcpServers", "sermcp", "command"]), "sermcp"));
    assert!(at(&root, &["mcpServers", "sermcp"]).get("args").is_none());
    assert!(is_text(
        at(&root, &["mcpServers", "sermcp", "env", "TARGET_CONF"]),
        "/proj/.target.jsonc"
    ));
}

#[test]
fn test_merge_preserves_every_other_key_verbatim_and_order() {
    let existing = json(
        r#"{"permissions": {"allow": ["Bash"]}, "mcpServers": {"other-server": {"command": "other"}}}"#,
    );
    let (root, action) = merge_sermcp_entry(Some(existing), test_entry()).unwrap();
    assert_eq!(action, McpJsonAction::Merged);
    assert!(matches!(
        at(&root, &["permissions", "allow"]),
        Json::Array(v) if is_text(&v[0], "Bash")
    ));
    assert!(is_text(at(&root, &["mcpServers", "other-server", "command"]), "other"));
    assert!(is_text(at(&root, &["mcpServers", "sermcp", "command"]), "sermcp"));
    assert_eq!(keys(&root), ["permissions", "mcpServers"]);
    assert_eq!(keys(at(&root, &["mcpServers"])), ["other-server", "sermcp"]);
}

#[test]
fn test_merge_without_mcp_servers_key_adds_it() {
    let existing = json(r#"{"permissions": {"allow": []}}"#);
    let (root, action) = merge_sermcp_entry(Some(existing), test_entry()).unwrap();
    assert_eq!(action, McpJsonAction::Merged);
    assert!(matches!(at(&root, &["permissions", "allow"]), Json::Array(v) if v.len() == 0));
    assert!(is_text(at(&root, &["mcpServers", "sermcp", "command"]), "sermcp"));
}

#[test]
fn test_merge_existing_entry_is_untouched() {
    let text = r#"{"mcpServers": {"sermcp": {"command": "custom-entry"}}}"#;
    let (root, action) = merge_sermcp_entry(Some(json(text)), test_entry()).unwrap();
    assert_eq!(action, McpJsonAction::Untouched);
    assert_eq!(root, json(text), "existing entry must never be replaced");
}

#[test]
fn test_merge_non_object_root_is_error() {
    for bad in ["[]", "\"str\"", "42"] {
        let err = merge_sermcp_entry(Some(json(bad)), test_entry()).unwrap_err();
        assert!(err.contains("top level"), "{err}");
    }
}

#[test]
fn test_merge_non_object_mcp_servers_is_error() {
    let existing = json(r#"{"mcpServers": ["sermcp"]}"#);
    let err = merge_sermcp_entry(Some(existing), test_entry()).unwrap_err();
    assert!(err.contains("mcpServers"), "{err}");
}

// ── The file ─────────────────────────────────────────────────────────

const MCP: &str = "/proj/.mcp.json";

fn ensure(text: Option<&str>) -> Result<(Json, McpJsonAction), String> {
    ensure_mcp_json(MCP, &text.map(str::to_string), "/proj/.target.jsonc")
}

#[test]
fn test_mcp_json_missing_is_created_via_run_init() {
    let (root, action) = ensure(None).unwrap();
    assert!(is_text(at(&root, &["mcpServers", "sermcp", "command"]), "sermcp"));
    assert!(mcp_json_note(&Ok(action)).contains("generated .mcp.json"));
}

#[test]
fn test_mcp_json_existing_without_entry_is_merged_via_run_init() {
    let (root, action) = ensure(Some(
        r#"{"permissions": {"allow": ["Bash"]}, "mcpServers": {"other-server": {"command": "other"}}}"#,
    ))
    .unwrap();
    assert!(matches!(
        at(&root, &["permissions", "allow"]),
        Json::Array(v) if is_text(&v[0], "Bash")
    ));
    assert!(is_text(at(&root, &["mcpServers", "other-server", "command"]), "other"));
    assert!(is_text(at(&root, &["mcpServers", "sermcp", "command"]), "sermcp"));
    assert!(mcp_json_note(&Ok(action)).contains("added sermcp entry"));
}

#[test]
fn test_mcp_json_existing_entry_left_byte_identical() {
    let (_, action) = ensure(Some(
        "{\n  // keep me\n  \"mcpServers\": {\"sermcp\": {\"command\": \"custom\"}}\n}\n",
    ))
    .unwrap();
    assert_eq!(action, McpJsonAction::Untouched, "nothing is written");
    assert!(mcp_json_note(&Ok(action)).contains("already has a sermcp entry"));
}

#[test]
fn test_mcp_json_merge_runs_on_update_path_too() {
    let (root, _) = ensure(Some("{\n  \"mcpServers\": {\"other\": {\"command\": \"x\"}}\n}\n")).unwrap();
    assert!(is_text(at(&root, &["mcpServers", "other", "command"]), "x"));
    assert!(is_text(at(&root, &["mcpServers", "sermcp", "command"]), "sermcp"));
}

#[test]
fn test_mcp_json_malformed_is_loud_error_not_clobbered() {
    let err = ensure(Some("{ not jsonc at all")).err().unwrap();
    assert!(mcp_json_note(&Err(err)).starts_with("warning:"));
}

#[test]
fn merging_again_changes_nothing() {
    let (root, _) = merge_sermcp_entry(Some(json("{\"a\": 1}")), test_entry()).unwrap();
    let (again, action) = merge_sermcp_entry(Some(root), sermcp_entry("/other")).unwrap();
    assert_eq!(action, McpJsonAction::Untouched);
    assert!(is_text(
        at(&again, &["mcpServers", "sermcp", "env", "TARGET_CONF"]),
        "/proj/.target.jsonc"
    ));
}

#[test]
fn a_list_of_servers_is_laid_out_to_be_read() {
    let json = parse_jsonc_value(r#"{"a":[1,true,null,"x\"y"],"b":{}}"#).unwrap();
    let text = json_file(&json).unwrap();
    assert_eq!(
        text,
        "{\n  \"a\": [\n    1,\n    true,\n    null,\n    \"x\\\"y\"\n  ],\n  \"b\": {}\n}\n"
    );
    assert_eq!(parse_jsonc_value(&text).unwrap(), json);
}

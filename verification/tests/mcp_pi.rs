use cc_switch::json::JsonValue;
use cc_switch::mcp::pi::{
    convert_to_standard_mcp_format, get_mcp_config_path, remove_server_from_pi, servers_document,
    servers_from_document, sync_enabled_to_pi, sync_single_server_to_pi, McpFileAction,
};

fn text(s: &str) -> JsonValue {
    JsonValue::String(s.to_string())
}

fn object(members: Vec<(&str, JsonValue)>) -> JsonValue {
    JsonValue::Object(members.into_iter().map(|(k, v)| (k.to_string(), v)).collect())
}

fn keys(value: &JsonValue) -> Vec<String> {
    match value {
        JsonValue::Object(members) => members.iter().map(|(k, _)| k.clone()).collect(),
        _ => panic!("not an object"),
    }
}

fn written_servers(action: &McpFileAction) -> Vec<String> {
    match action {
        McpFileAction::Write(doc) => keys(doc.get("mcpServers").expect("mcpServers")),
        other => panic!("expected a write, got {other:?}"),
    }
}

#[test]
fn stdio_spec_keeps_command_args_and_non_empty_env() {
    let spec = object(vec![
        ("type", text("stdio")),
        ("command", text("npx")),
        ("args", JsonValue::Array(vec![text("-y"), text("server")])),
        ("env", object(vec![("TOKEN", text("x"))])),
        ("cwd", text("/tmp")),
    ]);
    let converted = convert_to_standard_mcp_format(&spec).unwrap();
    assert_eq!(keys(&converted), vec!["command", "args", "env"]);
    assert_eq!(converted.get("command").and_then(|v| v.as_str()), Some("npx"));

    let no_type_empty_env = object(vec![("command", text("uvx")), ("env", object(vec![]))]);
    let converted = convert_to_standard_mcp_format(&no_type_empty_env).unwrap();
    assert_eq!(keys(&converted), vec!["command"]);
}

#[test]
fn http_spec_keeps_url_and_non_empty_headers() {
    let spec = object(vec![
        ("type", text("http")),
        ("url", text("https://mcp.example.com")),
        ("headers", object(vec![("Authorization", text("Bearer t"))])),
        ("command", text("ignored")),
    ]);
    let converted = convert_to_standard_mcp_format(&spec).unwrap();
    assert_eq!(keys(&converted), vec!["url", "headers"]);
    let sse = object(vec![("type", text("sse")), ("url", text("u")), ("headers", object(vec![]))]);
    assert_eq!(keys(&convert_to_standard_mcp_format(&sse).unwrap()), vec!["url"]);
}

#[test]
fn other_types_are_kept_whole_and_non_objects_rejected() {
    let spec = object(vec![("type", text("websocket")), ("endpoint", text("ws://x"))]);
    let converted = convert_to_standard_mcp_format(&spec).unwrap();
    assert_eq!(keys(&converted), vec!["type", "endpoint"]);
    let err = convert_to_standard_mcp_format(&text("nope")).unwrap_err();
    assert_eq!(err.message(), "MCP spec must be a JSON object");
}

#[test]
fn sync_single_adds_converted_server_and_always_writes() {
    let mut servers = Vec::new();
    let action = sync_single_server_to_pi(&mut servers, "fs", &object(vec![("command", text("npx"))]));
    assert_eq!(written_servers(&action), vec!["fs"]);
    let action = sync_single_server_to_pi(&mut servers, "bad", &text("not an object"));
    assert_eq!(written_servers(&action), vec!["fs"]);
    assert_eq!(servers.len(), 1);
}

#[test]
fn remove_server_deletes_file_when_table_becomes_empty() {
    let mut servers = vec![("a".to_string(), object(vec![])), ("b".to_string(), object(vec![]))];
    assert!(matches!(remove_server_from_pi(&mut servers, "missing"), McpFileAction::Unchanged));
    assert_eq!(written_servers(&remove_server_from_pi(&mut servers, "a")), vec!["b"]);
    assert!(matches!(remove_server_from_pi(&mut servers, "b"), McpFileAction::Delete));
    assert!(servers.is_empty());
}

#[test]
fn sync_enabled_skips_invalid_entries_and_deletes_when_none() {
    assert!(matches!(sync_enabled_to_pi(&Vec::new()), McpFileAction::Delete));
    let enabled = vec![
        ("good".to_string(), object(vec![("command", text("run"))])),
        ("bad".to_string(), JsonValue::Null),
    ];
    assert_eq!(written_servers(&sync_enabled_to_pi(&enabled)), vec!["good"]);
}

#[test]
fn document_roundtrip_gives_back_the_table() {
    let servers = vec![("x".to_string(), object(vec![("url", text("u"))])), ("y".to_string(), JsonValue::Null)];
    let doc = servers_document(&servers);
    let back = servers_from_document(&doc);
    assert_eq!(back.len(), 2);
    assert_eq!(back[0].0, "x");
    assert_eq!(back[1].0, "y");
    assert!(servers_from_document(&JsonValue::Null).is_empty());
    assert_eq!(get_mcp_config_path("/home/u/.pi/agent"), "/home/u/.pi/agent/mcp.json");
}

use agents_rust::mcp::{McpServer, Incoming, ServerAction, Reply, line_is_blank};
use agents_rust::mcp_client::{check_init_reply, parse_sse_event, finish_call, CallReply, resolve_server, McpTarget, server_names, IdCounter};
use agents_rust::tool::{ToolContent, ToolResult, text_result, error_result, call_outcome, result_text, ResourceContent};

fn msg(method: Option<&str>, has_id: bool, tool: &str) -> Incoming {
    Incoming::Message { method: method.map(|m| m.to_string()), has_id, tool_name: tool.to_string() }
}

fn text_of(r: &ToolResult) -> String {
    match &r.content[0] {
        ToolContent::Text { text } => text.clone(),
        ToolContent::Resource { resource } => resource.text.clone(),
    }
}

#[test]
fn server_answers_protocol_messages() {
    let mut s = McpServer::new();
    s.register_tool("read_file");
    assert!(matches!(s.step(msg(Some("initialize"), true, "")), ServerAction::Respond(Reply::Initialize)));
    assert!(matches!(s.step(msg(Some("initialize"), false, "")), ServerAction::Ignore));
    assert!(matches!(s.step(msg(Some("notifications/initialized"), false, "")), ServerAction::Ignore));
    assert!(matches!(s.step(msg(Some("tools/list"), true, "")), ServerAction::Respond(Reply::ToolsList)));
    assert!(matches!(s.step(msg(None, true, "")), ServerAction::Ignore));
    match s.step(msg(Some("tools/call"), true, "read_file")) {
        ServerAction::Respond(Reply::CallTool { name }) => assert_eq!(name, "read_file"),
        _ => panic!("call expected"),
    }
    match s.step(msg(Some("tools/call"), true, "nope")) {
        ServerAction::Respond(Reply::Error { code, message }) => {
            assert_eq!(code, -32601);
            assert_eq!(message, "Tool not found: nope");
        }
        _ => panic!("error expected"),
    }
    match s.step(msg(Some("ping"), true, "")) {
        ServerAction::Respond(Reply::Error { code, message }) => {
            assert_eq!(code, -32601);
            assert_eq!(message, "Method not found: ping");
        }
        _ => panic!("error expected"),
    }
    match s.step(Incoming::Unparsable("bad".into())) {
        ServerAction::Respond(Reply::Error { code, message }) => {
            assert_eq!(code, -32700);
            assert_eq!(message, "Parse error: bad");
        }
        _ => panic!("error expected"),
    }
    assert!(matches!(s.step(msg(Some("notifications/exit"), false, "")), ServerAction::Stop));
}

#[test]
fn unknown_tools_are_never_run() {
    let mut s = McpServer::new();
    assert!(!s.is_registered("x"));
    assert!(matches!(s.step(msg(Some("tools/call"), true, "x")), ServerAction::Respond(Reply::Error { .. })));
    s.register_tool("x");
    s.register_tool("x");
    assert!(s.is_registered("x"));
}

#[test]
fn blank_lines() {
    assert!(line_is_blank("   \t"));
    assert!(line_is_blank(""));
    assert!(!line_is_blank(" {} "));
}

#[test]
fn tool_results() {
    let t = text_result("ok".to_string()).unwrap();
    assert_eq!(t.is_error, None);
    assert_eq!(text_of(&t), "ok");
    let e = error_result("bad".to_string()).unwrap();
    assert_eq!(e.is_error, Some(true));
    let failed = call_outcome(Err("boom".to_string()));
    assert_eq!(failed.is_error, Some(true));
    assert_eq!(text_of(&failed), "boom");
    let mixed = ToolResult {
        content: vec![
            ToolContent::Text { text: "a".into() },
            ToolContent::Resource { resource: ResourceContent { uri: "u".into(), text: "b".into() } },
        ],
        is_error: None,
    };
    assert_eq!(result_text(&mixed), "a\nb");
}

#[test]
fn sse_event_payloads() {
    assert_eq!(parse_sse_event("event: x\ndata: {\"a\":1}\ndata: nope\n"), Ok("{\"a\":1}".to_string()));
    assert_eq!(parse_sse_event("data: [1]\ndata: [2]"), Ok("[2]".to_string()));
    assert_eq!(parse_sse_event("nothing"), Err("No valid SSE data found: nothing".to_string()));
    let long = "x".repeat(300);
    assert_eq!(parse_sse_event(&long), Err(format!("No valid SSE data found: {}", "x".repeat(200))));
}

#[test]
fn call_replies() {
    let r = finish_call("t", CallReply { error: None, has_result: true, content: Some(vec![Some("a".into()), None, Some("b".into())]) }).unwrap();
    assert_eq!(r.is_error, Some(false));
    assert_eq!(text_of(&r), "a\n\n---\n\nb");
    let one = finish_call("t", CallReply { error: None, has_result: true, content: Some(vec![Some("only".into())]) }).unwrap();
    assert_eq!(text_of(&one), "only");
    assert_eq!(finish_call("t", CallReply { error: Some("m".into()), has_result: true, content: None }).err(), Some("t error: m".to_string()));
    assert_eq!(finish_call("t", CallReply { error: None, has_result: false, content: None }).err(), Some("No result in response".to_string()));
    assert_eq!(finish_call("t", CallReply { error: None, has_result: true, content: None }).err(), Some("No content in result".to_string()));
}

#[test]
fn servers_resolve() {
    match resolve_server("websearch") {
        Ok(McpTarget::Remote { url }) => assert_eq!(url, "https://mcp.exa.ai/mcp?tools=web_search_exa"),
        _ => panic!("remote expected"),
    }
    match resolve_server("context7") {
        Ok(McpTarget::Local { command }) => assert_eq!(command, vec!["npx".to_string(), "@upstash/context7-mcp@latest".to_string()]),
        _ => panic!("local expected"),
    }
    assert_eq!(
        resolve_server("nope").err(),
        Some("Unknown server: nope. Available: grep_app, websearch, context7, obscura, ms-learn".to_string())
    );
    assert_eq!(server_names(), vec!["grep_app", "websearch", "ms-learn", "context7", "obscura"]);
}

#[test]
fn request_ids_count_up() {
    let mut c = IdCounter::new();
    assert_eq!(c.next_id(), 100);
    assert_eq!(c.next_id(), 101);
    let mut top = IdCounter { next: u64::MAX };
    assert_eq!(top.next_id(), u64::MAX);
    assert_eq!(top.next_id(), 0);
}

#[test]
fn initialize_replies() {
    assert_eq!(check_init_reply("Init", false, "{}"), Ok(()));
    assert_eq!(
        check_init_reply("Initialize", true, "{\"error\":1}"),
        Err("Initialize error: {\"error\":1}".to_string())
    );
}

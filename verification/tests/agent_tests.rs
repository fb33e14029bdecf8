use agents_rust::llm::{has_vision, select_model, switches_to_vision, completions_url, ClientFallback, StreamBuffer};
use agents_rust::conversation::{ChatMessage, ContextManager, estimate_tokens, summarize_prompt, ToolCall};
use agents_rust::agent::{ToolLoop, LoopStep, ModelReply, agent_loop, worker_loop, fallback_model, unknown_tool_error, bad_arguments_error};

fn msg(role: &str, content: &str) -> ChatMessage {
    ChatMessage { role: role.to_string(), content: Some(content.to_string()), tool_calls: None, tool_call_id: None }
}

#[test]
fn vision_prompts() {
    assert!(has_vision("look at photo.PNG please"));
    assert!(has_vision("data:image/png;base64,AAAA"));
    assert!(has_vision("BASE64 of an Image/jpeg"));
    assert!(!has_vision("base64 text only"));
    assert!(!has_vision("hello there"));
}

#[test]
fn model_selection() {
    assert_eq!(select_model("x.jpg", Some("m1"), "def", "vis"), "m1");
    assert_eq!(select_model("x.jpg", None, "def", "vis"), "vis");
    assert_eq!(select_model("text", None, "def", "vis"), "def");
    assert!(switches_to_vision("see a.gif", "deepseek"));
    assert!(!switches_to_vision("see a.gif", "mimo-v2.5-free"));
    assert!(!switches_to_vision("plain", "deepseek"));
    assert_eq!(completions_url("https://x/v1//"), "https://x/v1/chat/completions");
}

#[test]
fn client_fallback_records_errors() {
    let fb = vec!["b".to_string(), "c".to_string()];
    let mut run = ClientFallback::new("a", &fb);
    assert_eq!(run.next_model(), Some("a".to_string()));
    run.failed("e1");
    assert_eq!(run.next_model(), Some("b".to_string()));
    run.failed("e2");
    assert_eq!(run.next_model(), Some("c".to_string()));
    run.failed("e3");
    assert_eq!(run.next_model(), None);
    assert_eq!(run.exhausted_error(), "All models failed: primary: e1 | b failed: e2 | c failed: e3");
}

#[test]
fn stream_events() {
    let mut b = StreamBuffer::new();
    assert_eq!(b.feed("data: {\"x\":1}\n\n: comment\ndata: {\"y"), vec!["{\"x\":1}".to_string()]);
    assert_eq!(b.feed("\":2}\r\n"), vec!["{\"y\":2}".to_string()]);
    assert_eq!(b.feed("data: [DONE]\ndata: later\n"), Vec::<String>::new());
    assert_eq!(b.feed(""), vec!["later".to_string()]);
}

#[test]
fn token_estimates_and_compression() {
    assert_eq!(estimate_tokens("abcd"), 11);
    assert_eq!(estimate_tokens(""), 10);
    let cm = ContextManager::new(20);
    let msgs = vec![
        msg("system", "s"),
        ChatMessage { role: "tool".into(), content: Some("abcdefgh".into()), tool_calls: None, tool_call_id: Some("c1".into()) },
        ChatMessage { role: "tool".into(), content: None, tool_calls: None, tool_call_id: None },
        msg("user", "u"),
    ];
    let out = cm.compress_messages(&msgs);
    assert_eq!(out.len(), 3);
    assert_eq!(out[0].content.as_deref(), Some("s"));
    assert_eq!(out[1].role, "tool");
    assert_eq!(out[1].content.as_deref(), Some("[tool result: 8 bytes]"));
    assert_eq!(out[1].tool_call_id.as_deref(), Some("c1"));
    assert_eq!(out[2].content.as_deref(), Some("u"));
    let roomy = ContextManager::new(1000);
    assert_eq!(roomy.compress_messages(&msgs)[1].content.as_deref(), Some("abcdefgh"));
}

#[test]
fn trimming_keeps_system_and_latest() {
    let cm = ContextManager::new(100);
    let msgs = vec![msg("system", "s"), msg("user", "u1"), msg("assistant", "a1"), msg("user", "u2")];
    let t = cm.trim_conversation(&msgs, 2);
    assert_eq!(t.len(), 2);
    assert_eq!(t[0].content.as_deref(), Some("s"));
    assert_eq!(t[1].content.as_deref(), Some("u2"));
    assert_eq!(cm.trim_conversation(&msgs, 10).len(), 4);
    assert_eq!(cm.trim_conversation(&msgs, 1)[0].role, "system");
}

#[test]
fn summary_prompt() {
    assert_eq!(
        summarize_prompt("T", "ngắn"),
        "Tóm tắt nội dung sau đây, giữ lại thông tin quan trọng nhất.\nYêu cầu: tóm tắt ngắn.\nNội dung:\nT"
    );
}

#[test]
fn loop_finishes_with_answer() {
    let mut l = agent_loop(vec![msg("user", "hi")]);
    assert!(matches!(l.begin(), LoopStep::AskModel));
    match l.on_reply(ModelReply::Message { content: Some("done".into()), tool_calls: None }) {
        LoopStep::Finish(Ok(t)) => assert_eq!(t, "done"),
        _ => panic!("answer expected"),
    }
}

#[test]
fn loop_runs_tools_and_records_answers() {
    let mut l = worker_loop("be brief", "task", 5);
    assert_eq!(l.messages().len(), 2);
    assert!(matches!(l.begin(), LoopStep::AskModel));
    let calls = vec![ToolCall { id: "c1".into(), name: "read_file".into(), arguments: "{}".into() }];
    match l.on_reply(ModelReply::Message { content: None, tool_calls: Some(calls) }) {
        LoopStep::RunTools(run) => assert_eq!(run[0].name, "read_file"),
        _ => panic!("tools expected"),
    }
    l.record_tool_result("c1", Err("boom".into()));
    let m = l.messages();
    assert_eq!(m.len(), 4);
    assert_eq!(m[2].role, "assistant");
    assert_eq!(m[3].content.as_deref(), Some("Error: boom"));
    assert_eq!(m[3].tool_call_id.as_deref(), Some("c1"));
}

#[test]
fn loop_errors() {
    let mut l = ToolLoop::new(vec![], 1, "limit");
    assert!(matches!(l.begin(), LoopStep::AskModel));
    match l.on_reply(ModelReply::NoChoice) {
        LoopStep::Finish(Err(e)) => assert_eq!(e, "Empty response from LLM"),
        _ => panic!(),
    }
    match l.on_reply(ModelReply::Message { content: None, tool_calls: Some(vec![]) }) {
        LoopStep::Finish(Err(e)) => assert_eq!(e, "LLM returned empty response with no tool calls"),
        _ => panic!(),
    }
    match l.begin() {
        LoopStep::Finish(Err(e)) => assert_eq!(e, "limit"),
        _ => panic!("limit expected"),
    }
}

#[test]
fn agent_helpers() {
    assert_eq!(fallback_model(Some("b"), "a"), Some("b".to_string()));
    assert_eq!(fallback_model(Some("a"), "a"), None);
    assert_eq!(fallback_model(None, "a"), None);
    assert_eq!(unknown_tool_error("x"), "Unknown tool: x");
    assert_eq!(bad_arguments_error("eof"), "Failed to parse tool arguments: eof");
}

use agents_rust::tools::{read_file_definition, deep_research_definition, edit_block_definition};
use agents_rust::schemas::{string_schema, integer_schema, boolean_schema, enum_schema, optional_string_schema, optional_integer_schema};
use agents_rust::config::{ToolPolicy, ModelSettings, parse_u16, mode_from_args, Mode, is_exit_command};
use agents_rust::tools::{builtin_definitions, builtin_index, get_all_tool_definitions, route_tool, ToolRoute, web_search_definition};
use agents_rust::plugin::{PluginManager, PluginInfo, get_tool_definitions};
use agents_rust::tool::ToolDefinition;
use agents_rust::cowsay::{extract_json_string, cowsay, escape_json, plugin_execute, plugin_describe};

fn args(v: &[&str]) -> Vec<String> {
    v.iter().map(|s| s.to_string()).collect()
}

fn def(name: &str) -> ToolDefinition {
    ToolDefinition { name: name.into(), description: "d".into(), input_schema: "{}".into() }
}

#[test]
fn default_settings() {
    let p = ToolPolicy::default_policy();
    assert_eq!(p.allowed_directories, vec!["/".to_string()]);
    assert_eq!(p.blocked_commands.len(), 11);
    assert!(p.blocked_commands.contains(&"mkfs".to_string()));
    assert_eq!(p.default_shell, "bash");
    assert_eq!((p.file_read_line_limit, p.file_write_line_limit), (1000, 50));
    let m = ModelSettings::default_settings();
    assert_eq!(m.model, "deepseek-v4-flash-free");
    assert_eq!(m.vision_model, "mimo-v2.5-free");
    assert_eq!(m.fallback_models.len(), 4);
    assert_eq!(m.max_tokens, 4096);
}

#[test]
fn port_numbers() {
    assert_eq!(parse_u16("8080"), Some(8080));
    assert_eq!(parse_u16("+80"), Some(80));
    assert_eq!(parse_u16("007"), Some(7));
    assert_eq!(parse_u16("65535"), Some(65535));
    assert_eq!(parse_u16("65536"), None);
    assert_eq!(parse_u16(""), None);
    assert_eq!(parse_u16("+"), None);
    assert_eq!(parse_u16("-1"), None);
    assert_eq!(parse_u16("12a"), None);
    assert_eq!(parse_u16("99999999999"), None);
}

#[test]
fn modes_from_arguments() {
    assert!(matches!(mode_from_args(&args(&["p", "--chat", "hi"]), None), Mode::Chat(ref s) if s == "hi"));
    assert!(matches!(mode_from_args(&args(&["p", "--agent", "--dashboard"]), None), Mode::Agent { dashboard: true }));
    assert!(matches!(mode_from_args(&args(&["p", "--agent"]), None), Mode::Agent { dashboard: false }));
    assert!(matches!(mode_from_args(&args(&["p", "--chat"]), None), Mode::Mcp(None)));
    assert!(matches!(mode_from_args(&args(&["p", "--orchestrate", "t"]), None), Mode::Orchestrate(ref s) if s == "t"));
    assert!(matches!(mode_from_args(&args(&["p", "--dashboard", "x"]), None), Mode::Dashboard(3000)));
    assert!(matches!(mode_from_args(&args(&["p", "--dashboard", "4000"]), None), Mode::Dashboard(4000)));
    assert!(matches!(mode_from_args(&args(&["p"]), Some("9000")), Mode::Mcp(Some(9000))));
    assert!(matches!(mode_from_args(&args(&["p"]), Some("no")), Mode::Mcp(None)));
}

#[test]
fn exit_commands() {
    assert!(is_exit_command("  exit \n"));
    assert!(is_exit_command("quit"));
    assert!(is_exit_command("   "));
    assert!(!is_exit_command("exit now"));
}

#[test]
fn builtin_tools() {
    let defs = builtin_definitions();
    assert_eq!(defs.len(), 17);
    assert_eq!(defs[0].name, "read_file");
    assert_eq!(defs[16].name, "deep_research");
    assert!(defs.iter().all(|d| serde_json::from_str::<serde_json::Value>(&d.input_schema).is_ok()));
    assert!(defs[15].description.contains("Supports: grep_app, websearch, ms-learn, context7, obscura."));
    assert_eq!(builtin_index("edit_block"), Some(8));
    assert_eq!(builtin_index("nope"), None);
    assert_eq!(web_search_definition().name, "web_search");
}

#[test]
fn plugins_add_tools() {
    let mut m = PluginManager::new();
    m.register(PluginInfo { name: "p1".into(), version: "1".into(), tools: vec![def("cowsay"), def("echo")] });
    m.register(PluginInfo { name: "p2".into(), version: "1".into(), tools: vec![def("echo"), def("x")] });
    assert_eq!(m.count(), 2);
    assert_eq!(m.find_tool("echo"), Some(0));
    assert_eq!(m.find_tool("x"), Some(1));
    assert_eq!(m.find_tool("zz"), None);
    let names: Vec<String> = get_tool_definitions(&m).into_iter().map(|d| d.name).collect();
    assert_eq!(names, vec!["cowsay", "echo", "echo", "x"]);
    let all = get_all_tool_definitions(&m);
    assert_eq!(all.len(), 21);
    assert_eq!(all[17].name, "cowsay");
    assert!(matches!(route_tool("read_file", &m), ToolRoute::Builtin(0)));
    assert!(matches!(route_tool("x", &m), ToolRoute::Plugin(1)));
    match route_tool("zz", &m) {
        ToolRoute::NotFound(e) => assert_eq!(e, "Tool not found: zz"),
        _ => panic!(),
    }
}

#[test]
fn json_string_fields() {
    assert_eq!(extract_json_string("{\"message\": \"hi \\\"x\\\"\"}", "message"), Some("hi \"x\"".to_string()));
    assert_eq!(extract_json_string("{\"message\":\"a\\nb\\\\c\\td\"}", "message"), Some("a\nb\\c\\td".to_string()));
    assert_eq!(extract_json_string("{\"message\": 5}", "message"), None);
    assert_eq!(extract_json_string("{}", "message"), None);
    assert_eq!(extract_json_string("{\"message\": \"open", "message"), Some("open".to_string()));
}

#[test]
fn the_cow() {
    let art = "        \\   ^__^\n         \\  (oo)\\_______\n            (__)\\       )\\/\\\n                ||----w |\n                ||     ||\n";
    assert_eq!(cowsay("hi"), format!(" ____\n| hi |\n ----\n{}", art));
    assert_eq!(cowsay("a\nbcd"), format!(" _____\n| a   |\n| bcd |\n -----\n{}", art));
    assert_eq!(cowsay(""), format!(" __\n --\n{}", art));
    assert_eq!(escape_json("a\"b\n\t\\"), "a\\\"b\\n\\t\\\\");
}

#[test]
fn plugin_replies() {
    let r = plugin_execute("cowsay", "{\"message\":\"moo\"}");
    assert!(r.starts_with("{\"content\":[{\"type\":\"text\",\"text\":\" _____\\n| moo |\\n"));
    assert!(r.ends_with("\"}],\"isError\":false}"));
    let d = plugin_execute("cowsay", "{}");
    assert!(d.contains("| Moo! |"));
    let u = plugin_execute("other", "{}");
    assert!(u.contains("| Unknown tool: other |"));
    let (name, version, desc) = plugin_describe();
    assert_eq!(name, "cowsay-wasm");
    assert_eq!(version, "0.1.0");
    assert!(serde_json::from_str::<serde_json::Value>(&desc).is_ok());
}

#[test]
fn per_tool_definitions_match_the_catalogue() {
    let all = builtin_definitions();
    assert_eq!(read_file_definition().name, all[0].name);
    assert_eq!(edit_block_definition().name, "edit_block");
    assert_eq!(deep_research_definition().input_schema, all[16].input_schema);
    let v: serde_json::Value = serde_json::from_str(&read_file_definition().input_schema).unwrap();
    assert_eq!(v["required"][0], "file_path");
}

#[test]
fn parameter_schemas_are_json() {
    assert_eq!(string_schema("Path \"x\""), "{\"description\":\"Path \\\"x\\\"\",\"type\":\"string\"}");
    assert_eq!(integer_schema("n"), "{\"description\":\"n\",\"type\":\"integer\"}");
    assert_eq!(boolean_schema("b"), "{\"description\":\"b\",\"type\":\"boolean\"}");
    assert_eq!(optional_string_schema("s"), string_schema("s"));
    assert_eq!(optional_integer_schema("s"), integer_schema("s"));
    let e = enum_schema("Write mode", &["rewrite", "append"]);
    assert_eq!(e, "{\"description\":\"Write mode\",\"enum\":[\"rewrite\",\"append\"],\"type\":\"string\"}");
    let v: serde_json::Value = serde_json::from_str(&e).unwrap();
    assert_eq!(v["enum"][1], "append");
    assert_eq!(v["type"], "string");
    assert_eq!(enum_schema("x", &[]), "{\"description\":\"x\",\"enum\":[],\"type\":\"string\"}");
}

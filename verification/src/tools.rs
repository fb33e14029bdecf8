//! The tool catalogue: the built-in tools' definitions, the tools that
//! plugins add, and which handler answers a call.

use vstd::prelude::*;
use crate::text::{chars_of, string_of, push_str, owned};
use crate::tool::{ToolDefinition};

verus! {

/// The name of the `read_file` tool.
pub const READ_FILE_NAME: &'static str = "read_file";

/// What the `read_file` tool does.
pub const READ_FILE_DESCRIPTION: &'static str = "Read file contents with pagination support.\n\nSupports:\n- offset/length for line-based pagination\n- Negative offset for tail behavior (last N lines)\n\nExamples:\n- offset:0, length:10  → First 10 lines\n- offset:-20           → Last 20 lines\n- offset:100, length:5 → Lines 100-104";

/// The input schema of the `read_file` tool, as JSON.
pub const READ_FILE_SCHEMA: &'static str = "{\"type\":\"object\",\"properties\":{\"file_path\":{\"type\":\"string\",\"description\":\"Path to the file\"},\"offset\":{\"type\":\"integer\",\"description\":\"Start line (0-based). Negative = tail\",\"default\":0},\"length\":{\"type\":\"integer\",\"description\":\"Max lines to read\",\"default\":1000}},\"required\":[\"file_path\"]}";

/// The name of the `write_file` tool.
pub const WRITE_FILE_NAME: &'static str = "write_file";

/// What the `write_file` tool does.
pub const WRITE_FILE_DESCRIPTION: &'static str = "Write or append to a file. Use chunking for large files (25-30 lines per chunk).";

/// The input schema of the `write_file` tool, as JSON.
pub const WRITE_FILE_SCHEMA: &'static str = "{\"type\":\"object\",\"properties\":{\"file_path\":{\"type\":\"string\",\"description\":\"Path to file\"},\"content\":{\"type\":\"string\",\"description\":\"File content\"},\"mode\":{\"type\":\"string\",\"enum\":[\"rewrite\",\"append\"],\"description\":\"Write mode\",\"default\":\"rewrite\"}},\"required\":[\"file_path\",\"content\"]}";

/// The name of the `list_directory` tool.
pub const LIST_DIRECTORY_NAME: &'static str = "list_directory";

/// What the `list_directory` tool does.
pub const LIST_DIRECTORY_DESCRIPTION: &'static str = "List directory contents with depth control. Shows [DIR] and [FILE] prefixes.";

/// The input schema of the `list_directory` tool, as JSON.
pub const LIST_DIRECTORY_SCHEMA: &'static str = "{\"type\":\"object\",\"properties\":{\"path\":{\"type\":\"string\",\"description\":\"Directory path\"},\"depth\":{\"type\":\"integer\",\"description\":\"Recursion depth (default: 2)\",\"default\":2}},\"required\":[\"path\"]}";

/// The name of the `create_directory` tool.
pub const CREATE_DIRECTORY_NAME: &'static str = "create_directory";

/// What the `create_directory` tool does.
pub const CREATE_DIRECTORY_DESCRIPTION: &'static str = "Create directory(ies) recursively.";

/// The input schema of the `create_directory` tool, as JSON.
pub const CREATE_DIRECTORY_SCHEMA: &'static str = "{\"type\":\"object\",\"properties\":{\"path\":{\"type\":\"string\",\"description\":\"Directory path\"}},\"required\":[\"path\"]}";

/// The name of the `move_file` tool.
pub const MOVE_FILE_NAME: &'static str = "move_file";

/// What the `move_file` tool does.
pub const MOVE_FILE_DESCRIPTION: &'static str = "Move or rename a file/directory.";

/// The input schema of the `move_file` tool, as JSON.
pub const MOVE_FILE_SCHEMA: &'static str = "{\"type\":\"object\",\"properties\":{\"source\":{\"type\":\"string\",\"description\":\"Source path\"},\"destination\":{\"type\":\"string\",\"description\":\"Destination path\"}},\"required\":[\"source\",\"destination\"]}";

/// The name of the `get_file_info` tool.
pub const GET_FILE_INFO_NAME: &'static str = "get_file_info";

/// What the `get_file_info` tool does.
pub const GET_FILE_INFO_DESCRIPTION: &'static str = "Get metadata for a file or directory (size, modified, permissions).";

/// The input schema of the `get_file_info` tool, as JSON.
pub const GET_FILE_INFO_SCHEMA: &'static str = "{\"type\":\"object\",\"properties\":{\"file_path\":{\"type\":\"string\",\"description\":\"Path to file/directory\"}},\"required\":[\"file_path\"]}";

/// The name of the `search_files` tool.
pub const SEARCH_FILES_NAME: &'static str = "search_files";

/// What the `search_files` tool does.
pub const SEARCH_FILES_DESCRIPTION: &'static str = "Search for files by name pattern, content pattern, or glob pattern.";

/// The input schema of the `search_files` tool, as JSON.
pub const SEARCH_FILES_SCHEMA: &'static str = "{\"type\":\"object\",\"properties\":{\"root_path\":{\"type\":\"string\",\"description\":\"Root directory to search\"},\"pattern\":{\"type\":\"string\",\"description\":\"Search pattern (substring or glob)\"},\"search_type\":{\"type\":\"string\",\"enum\":[\"files\",\"content\",\"glob\"],\"description\":\"Search by filename, file content, or glob pattern\",\"default\":\"files\"}},\"required\":[\"root_path\",\"pattern\"]}";

/// The name of the `get_environment_info` tool.
pub const GET_ENVIRONMENT_INFO_NAME: &'static str = "get_environment_info";

/// What the `get_environment_info` tool does.
pub const GET_ENVIRONMENT_INFO_DESCRIPTION: &'static str = "Get system environment information (OS, shell, current directory, env vars).";

/// The input schema of the `get_environment_info` tool, as JSON.
pub const GET_ENVIRONMENT_INFO_SCHEMA: &'static str = "{\"type\":\"object\",\"properties\":{\"include_env_vars\":{\"type\":\"boolean\",\"description\":\"Include environment variables\",\"default\":false}}}";

/// The name of the `edit_block` tool.
pub const EDIT_BLOCK_NAME: &'static str = "edit_block";

/// What the `edit_block` tool does.
pub const EDIT_BLOCK_DESCRIPTION: &'static str = "Apply surgical text replacements using SEARCH/REPLACE blocks.\n\nBest practice: Make multiple small, focused edits rather than one large edit.\n\nFormat:\n```\nfilepath.ext\n<<<<<<< SEARCH\nexact text to find\n=======\nreplacement text\n>>>>>>> REPLACE\n```\n\nSupports fuzzy matching if exact text is not found.\nUse expected_replacements parameter (default: 1).";

/// The input schema of the `edit_block` tool, as JSON.
pub const EDIT_BLOCK_SCHEMA: &'static str = "{\"type\":\"object\",\"properties\":{\"file_path\":{\"type\":\"string\",\"description\":\"Path to the file to edit\"},\"old_string\":{\"type\":\"string\",\"description\":\"Text to search for\"},\"new_string\":{\"type\":\"string\",\"description\":\"Replacement text\"},\"expected_replacements\":{\"type\":\"integer\",\"description\":\"Expected number of matches\",\"default\":1}},\"required\":[\"file_path\",\"old_string\",\"new_string\"]}";

/// The name of the `start_process` tool.
pub const START_PROCESS_NAME: &'static str = "start_process";

/// What the `start_process` tool does.
pub const START_PROCESS_DESCRIPTION: &'static str = "Execute a command and get output. For long-running processes, use session_id to keep the process alive.";

/// The input schema of the `start_process` tool, as JSON.
pub const START_PROCESS_SCHEMA: &'static str = "{\"type\":\"object\",\"properties\":{\"command\":{\"type\":\"string\",\"description\":\"Command to execute\"},\"session_id\":{\"type\":\"string\",\"description\":\"Optional session ID to keep process alive for later interaction\"},\"timeout\":{\"type\":\"integer\",\"description\":\"Max execution time in seconds (0 = no limit)\",\"default\":30}},\"required\":[\"command\"]}";

/// The name of the `read_process_output` tool.
pub const READ_PROCESS_OUTPUT_NAME: &'static str = "read_process_output";

/// What the `read_process_output` tool does.
pub const READ_PROCESS_OUTPUT_DESCRIPTION: &'static str = "Read output from a running process session.";

/// The input schema of the `read_process_output` tool, as JSON.
pub const READ_PROCESS_OUTPUT_SCHEMA: &'static str = "{\"type\":\"object\",\"properties\":{\"session_id\":{\"type\":\"string\",\"description\":\"Session ID\"},\"offset\":{\"type\":\"integer\",\"description\":\"Line offset (negative = tail)\",\"default\":0},\"length\":{\"type\":\"integer\",\"description\":\"Max lines to read\",\"default\":1000}},\"required\":[\"session_id\"]}";

/// The name of the `interact_with_process` tool.
pub const INTERACT_WITH_PROCESS_NAME: &'static str = "interact_with_process";

/// What the `interact_with_process` tool does.
pub const INTERACT_WITH_PROCESS_DESCRIPTION: &'static str = "Send input to a running process (stdin).";

/// The input schema of the `interact_with_process` tool, as JSON.
pub const INTERACT_WITH_PROCESS_SCHEMA: &'static str = "{\"type\":\"object\",\"properties\":{\"session_id\":{\"type\":\"string\",\"description\":\"Session ID\"},\"input\":{\"type\":\"string\",\"description\":\"Input text to send\"}},\"required\":[\"session_id\",\"input\"]}";

/// The name of the `force_terminate` tool.
pub const FORCE_TERMINATE_NAME: &'static str = "force_terminate";

/// What the `force_terminate` tool does.
pub const FORCE_TERMINATE_DESCRIPTION: &'static str = "Force terminate a running process session.";

/// The input schema of the `force_terminate` tool, as JSON.
pub const FORCE_TERMINATE_SCHEMA: &'static str = "{\"type\":\"object\",\"properties\":{\"session_id\":{\"type\":\"string\",\"description\":\"Session ID to kill\"}},\"required\":[\"session_id\"]}";

/// The name of the `ask_llm` tool.
pub const ASK_LLM_NAME: &'static str = "ask_llm";

/// What the `ask_llm` tool does.
pub const ASK_LLM_DESCRIPTION: &'static str = "Send a prompt to the LLM (OpenCode Zen) and get a response. Use for code generation, analysis, explanations, and general knowledge.";

/// The input schema of the `ask_llm` tool, as JSON.
pub const ASK_LLM_SCHEMA: &'static str = "{\"type\":\"object\",\"properties\":{\"prompt\":{\"type\":\"string\",\"description\":\"The prompt/question to send to the LLM\"},\"system\":{\"type\":\"string\",\"description\":\"Optional system prompt to set context/behavior\",\"default\":\"\"},\"model\":{\"type\":\"string\",\"description\":\"Model override: deepseek-v4-flash-free, nemotron-3-super-free, big-pickle\",\"default\":\"\"}},\"required\":[\"prompt\"]}";

/// The name of the `browser_action` tool.
pub const BROWSER_ACTION_NAME: &'static str = "browser_action";

/// What the `browser_action` tool does.
pub const BROWSER_ACTION_DESCRIPTION: &'static str = "Interact with web pages. Uses Obscura CDP headless browser for full automation (screenshot, click, type, execute_js), falls back to HTTP for simple navigate/get_html.\n\nActions:\n- navigate: Fetch a URL via HTTP and return visible text content\n- get_html: Fetch a URL via HTTP and return raw HTML\n- screenshot: Navigate via Obscura CDP, capture screenshot saved to /tmp/\n- click: Navigate via Obscura CDP, click element by CSS selector\n- type: Navigate via Obscura CDP, type text into an input field\n- execute_js: Navigate via Obscura CDP, run JavaScript in page context\n\nUse navigate for reading articles, documentation, and general web content.\nUse CDP actions (screenshot/click/type/execute_js) for interactive web automation.\nInstall Obscura with: cargo install obscura";

/// The input schema of the `browser_action` tool, as JSON.
pub const BROWSER_ACTION_SCHEMA: &'static str = "{\"type\":\"object\",\"properties\":{\"action\":{\"type\":\"string\",\"enum\":[\"navigate\",\"get_html\",\"screenshot\",\"click\",\"type\",\"execute_js\"],\"description\":\"Action to perform\"},\"url\":{\"type\":\"string\",\"description\":\"URL to navigate to\"},\"selector\":{\"type\":\"string\",\"description\":\"CSS selector (for click/type actions)\"},\"value\":{\"type\":\"string\",\"description\":\"Text value (for type action)\"},\"script\":{\"type\":\"string\",\"description\":\"JavaScript code (for execute_js action)\"}},\"required\":[\"action\"]}";

/// The name of the `call_mcp_server` tool.
pub const CALL_MCP_SERVER_NAME: &'static str = "call_mcp_server";

/// What the `call_mcp_server` tool does.
pub const CALL_MCP_SERVER_DESCRIPTION: &'static str = "Call a tool on another MCP server. Supports: grep_app, websearch, ms-learn, context7, obscura. Use to search web, look up docs, search code, browse with CDP, etc.\n\nExamples:\n- grep_app searchGitHub: {\"query\": \"useState(\", \"language\": [\"TypeScript\"]}\n- websearch web_search_exa: {\"query\": \"rust async tutorial\"}\n- context7 resolve-library-id: {\"libraryName\": \"Next.js\", \"query\": \"app router\"}\n- obscura browser_action: {\"action\": \"navigate\", \"url\": \"https://...\"}";

/// The input schema of the `call_mcp_server` tool, as JSON.
pub const CALL_MCP_SERVER_SCHEMA: &'static str = "{\"type\":\"object\",\"properties\":{\"server\":{\"type\":\"string\",\"description\":\"MCP server name\",\"enum\":[\"grep_app\",\"websearch\",\"ms-learn\",\"context7\",\"obscura\"]},\"tool\":{\"type\":\"string\",\"description\":\"Tool name to call on the server\"},\"arguments\":{\"type\":\"object\",\"description\":\"Arguments to pass to the tool\",\"default\":{}}},\"required\":[\"server\",\"tool\"]}";

/// The name of the `deep_research` tool.
pub const DEEP_RESEARCH_NAME: &'static str = "deep_research";

/// What the `deep_research` tool does.
pub const DEEP_RESEARCH_DESCRIPTION: &'static str = "Perform multi-source research on a topic. Calls grep.app for code, fetches web pages for context, then synthesizes via LLM.\n\nHow it works:\n1. Searches GitHub code (via grep.app)\n2. Fetches web pages for context\n3. Generates a synthesized report using LLM";

/// The input schema of the `deep_research` tool, as JSON.
pub const DEEP_RESEARCH_SCHEMA: &'static str = "{\"type\":\"object\",\"properties\":{\"query\":{\"type\":\"string\",\"description\":\"Research query\"},\"depth\":{\"type\":\"integer\",\"description\":\"1=quick (code+LLM), 2=standard (+web fetch)\",\"default\":1,\"minimum\":1,\"maximum\":2}},\"required\":[\"query\"]}";

/// The name of the `web_search` tool.
pub const WEB_SEARCH_NAME: &'static str = "web_search";

/// What the `web_search` tool does.
pub const WEB_SEARCH_DESCRIPTION: &'static str = "Tìm kiếm thông tin trên web. Dùng Brave Search API (nếu có key) hoặc DuckDuckGo fallback. Trả về tiêu đề + URL + snippet.";

/// The input schema of the `web_search` tool, as JSON.
pub const WEB_SEARCH_SCHEMA: &'static str = "{\"type\":\"object\",\"properties\":{\"query\":{\"type\":\"string\",\"description\":\"Từ khoá tìm kiếm\"},\"count\":{\"type\":\"integer\",\"description\":\"Số kết quả (mặc định 5)\",\"default\":5}},\"required\":[\"query\"]}";

/// A definition as three texts: name, description, input schema.
pub open spec fn def_view(d: ToolDefinition) -> (Seq<char>, Seq<char>, Seq<char>) {
    (d.name@, d.description@, d.input_schema@)
}

pub open spec fn defs_view(v: Seq<ToolDefinition>) -> Seq<(Seq<char>, Seq<char>, Seq<char>)> {
    v.map_values(|d: ToolDefinition| def_view(d))
}

/// The built-in tools, in the order they are offered.
pub open spec fn builtin_table() -> Seq<(Seq<char>, Seq<char>, Seq<char>)> {
    seq![
        (READ_FILE_NAME@, READ_FILE_DESCRIPTION@, READ_FILE_SCHEMA@),
        (WRITE_FILE_NAME@, WRITE_FILE_DESCRIPTION@, WRITE_FILE_SCHEMA@),
        (LIST_DIRECTORY_NAME@, LIST_DIRECTORY_DESCRIPTION@, LIST_DIRECTORY_SCHEMA@),
        (CREATE_DIRECTORY_NAME@, CREATE_DIRECTORY_DESCRIPTION@, CREATE_DIRECTORY_SCHEMA@),
        (MOVE_FILE_NAME@, MOVE_FILE_DESCRIPTION@, MOVE_FILE_SCHEMA@),
        (GET_FILE_INFO_NAME@, GET_FILE_INFO_DESCRIPTION@, GET_FILE_INFO_SCHEMA@),
        (SEARCH_FILES_NAME@, SEARCH_FILES_DESCRIPTION@, SEARCH_FILES_SCHEMA@),
        (GET_ENVIRONMENT_INFO_NAME@, GET_ENVIRONMENT_INFO_DESCRIPTION@, GET_ENVIRONMENT_INFO_SCHEMA@),
        (EDIT_BLOCK_NAME@, EDIT_BLOCK_DESCRIPTION@, EDIT_BLOCK_SCHEMA@),
        (START_PROCESS_NAME@, START_PROCESS_DESCRIPTION@, START_PROCESS_SCHEMA@),
        (READ_PROCESS_OUTPUT_NAME@, READ_PROCESS_OUTPUT_DESCRIPTION@, READ_PROCESS_OUTPUT_SCHEMA@),
        (INTERACT_WITH_PROCESS_NAME@, INTERACT_WITH_PROCESS_DESCRIPTION@, INTERACT_WITH_PROCESS_SCHEMA@),
        (FORCE_TERMINATE_NAME@, FORCE_TERMINATE_DESCRIPTION@, FORCE_TERMINATE_SCHEMA@),
        (ASK_LLM_NAME@, ASK_LLM_DESCRIPTION@, ASK_LLM_SCHEMA@),
        (BROWSER_ACTION_NAME@, BROWSER_ACTION_DESCRIPTION@, BROWSER_ACTION_SCHEMA@),
        (CALL_MCP_SERVER_NAME@, CALL_MCP_SERVER_DESCRIPTION@, CALL_MCP_SERVER_SCHEMA@),
        (DEEP_RESEARCH_NAME@, DEEP_RESEARCH_DESCRIPTION@, DEEP_RESEARCH_SCHEMA@),
    ]
}

/// A definition from its three texts.
pub fn definition(name: &str, description: &str, schema: &str) -> (d: ToolDefinition)
    ensures
        def_view(d) == (name@, description@, schema@),
{
    ToolDefinition { name: owned(name), description: owned(description), input_schema: owned(schema) }
}

/// The definition of the `read_file` tool.
pub fn read_file_definition() -> (d: ToolDefinition)
    ensures
        def_view(d) == (READ_FILE_NAME@, READ_FILE_DESCRIPTION@, READ_FILE_SCHEMA@),
{
    definition(READ_FILE_NAME, READ_FILE_DESCRIPTION, READ_FILE_SCHEMA)
}

/// The definition of the `write_file` tool.
pub fn write_file_definition() -> (d: ToolDefinition)
    ensures
        def_view(d) == (WRITE_FILE_NAME@, WRITE_FILE_DESCRIPTION@, WRITE_FILE_SCHEMA@),
{
    definition(WRITE_FILE_NAME, WRITE_FILE_DESCRIPTION, WRITE_FILE_SCHEMA)
}

/// The definition of the `list_directory` tool.
pub fn list_directory_definition() -> (d: ToolDefinition)
    ensures
        def_view(d) == (LIST_DIRECTORY_NAME@, LIST_DIRECTORY_DESCRIPTION@, LIST_DIRECTORY_SCHEMA@),
{
    definition(LIST_DIRECTORY_NAME, LIST_DIRECTORY_DESCRIPTION, LIST_DIRECTORY_SCHEMA)
}

/// The definition of the `create_directory` tool.
pub fn create_directory_definition() -> (d: ToolDefinition)
    ensures
        def_view(d) == (CREATE_DIRECTORY_NAME@, CREATE_DIRECTORY_DESCRIPTION@, CREATE_DIRECTORY_SCHEMA@),
{
    definition(CREATE_DIRECTORY_NAME, CREATE_DIRECTORY_DESCRIPTION, CREATE_DIRECTORY_SCHEMA)
}

/// The definition of the `move_file` tool.
pub fn move_file_definition() -> (d: ToolDefinition)
    ensures
        def_view(d) == (MOVE_FILE_NAME@, MOVE_FILE_DESCRIPTION@, MOVE_FILE_SCHEMA@),
{
    definition(MOVE_FILE_NAME, MOVE_FILE_DESCRIPTION, MOVE_FILE_SCHEMA)
}

/// The definition of the `get_file_info` tool.
pub fn get_file_info_definition() -> (d: ToolDefinition)
    ensures
        def_view(d) == (GET_FILE_INFO_NAME@, GET_FILE_INFO_DESCRIPTION@, GET_FILE_INFO_SCHEMA@),
{
    definition(GET_FILE_INFO_NAME, GET_FILE_INFO_DESCRIPTION, GET_FILE_INFO_SCHEMA)
}

/// The definition of the `search_files` tool.
pub fn search_files_definition() -> (d: ToolDefinition)
    ensures
        def_view(d) == (SEARCH_FILES_NAME@, SEARCH_FILES_DESCRIPTION@, SEARCH_FILES_SCHEMA@),
{
    definition(SEARCH_FILES_NAME, SEARCH_FILES_DESCRIPTION, SEARCH_FILES_SCHEMA)
}

/// The definition of the `get_environment_info` tool.
pub fn get_environment_info_definition() -> (d: ToolDefinition)
    ensures
        def_view(d) == (GET_ENVIRONMENT_INFO_NAME@, GET_ENVIRONMENT_INFO_DESCRIPTION@, GET_ENVIRONMENT_INFO_SCHEMA@),
{
    definition(GET_ENVIRONMENT_INFO_NAME, GET_ENVIRONMENT_INFO_DESCRIPTION, GET_ENVIRONMENT_INFO_SCHEMA)
}

/// The definition of the `edit_block` tool.
pub fn edit_block_definition() -> (d: ToolDefinition)
    ensures
        def_view(d) == (EDIT_BLOCK_NAME@, EDIT_BLOCK_DESCRIPTION@, EDIT_BLOCK_SCHEMA@),
{
    definition(EDIT_BLOCK_NAME, EDIT_BLOCK_DESCRIPTION, EDIT_BLOCK_SCHEMA)
}

/// The definition of the `start_process` tool.
pub fn start_process_definition() -> (d: ToolDefinition)
    ensures
        def_view(d) == (START_PROCESS_NAME@, START_PROCESS_DESCRIPTION@, START_PROCESS_SCHEMA@),
{
    definition(START_PROCESS_NAME, START_PROCESS_DESCRIPTION, START_PROCESS_SCHEMA)
}

/// The definition of the `read_process_output` tool.
pub fn read_process_output_definition() -> (d: ToolDefinition)
    ensures
        def_view(d) == (READ_PROCESS_OUTPUT_NAME@, READ_PROCESS_OUTPUT_DESCRIPTION@, READ_PROCESS_OUTPUT_SCHEMA@),
{
    definition(READ_PROCESS_OUTPUT_NAME, READ_PROCESS_OUTPUT_DESCRIPTION, READ_PROCESS_OUTPUT_SCHEMA)
}

/// The definition of the `interact_with_process` tool.
pub fn interact_with_process_definition() -> (d: ToolDefinition)
    ensures
        def_view(d) == (INTERACT_WITH_PROCESS_NAME@, INTERACT_WITH_PROCESS_DESCRIPTION@, INTERACT_WITH_PROCESS_SCHEMA@),
{
    definition(INTERACT_WITH_PROCESS_NAME, INTERACT_WITH_PROCESS_DESCRIPTION, INTERACT_WITH_PROCESS_SCHEMA)
}

/// The definition of the `force_terminate` tool.
pub fn force_terminate_definition() -> (d: ToolDefinition)
    ensures
        def_view(d) == (FORCE_TERMINATE_NAME@, FORCE_TERMINATE_DESCRIPTION@, FORCE_TERMINATE_SCHEMA@),
{
    definition(FORCE_TERMINATE_NAME, FORCE_TERMINATE_DESCRIPTION, FORCE_TERMINATE_SCHEMA)
}

/// The definition of the `ask_llm` tool.
pub fn ask_llm_definition() -> (d: ToolDefinition)
    ensures
        def_view(d) == (ASK_LLM_NAME@, ASK_LLM_DESCRIPTION@, ASK_LLM_SCHEMA@),
{
    definition(ASK_LLM_NAME, ASK_LLM_DESCRIPTION, ASK_LLM_SCHEMA)
}

/// The definition of the `browser_action` tool.
pub fn browser_action_definition() -> (d: ToolDefinition)
    ensures
        def_view(d) == (BROWSER_ACTION_NAME@, BROWSER_ACTION_DESCRIPTION@, BROWSER_ACTION_SCHEMA@),
{
    definition(BROWSER_ACTION_NAME, BROWSER_ACTION_DESCRIPTION, BROWSER_ACTION_SCHEMA)
}

/// The definition of the `call_mcp_server` tool.
pub fn call_mcp_server_definition() -> (d: ToolDefinition)
    ensures
        def_view(d) == (CALL_MCP_SERVER_NAME@, CALL_MCP_SERVER_DESCRIPTION@, CALL_MCP_SERVER_SCHEMA@),
{
    definition(CALL_MCP_SERVER_NAME, CALL_MCP_SERVER_DESCRIPTION, CALL_MCP_SERVER_SCHEMA)
}

/// The definition of the `deep_research` tool.
pub fn deep_research_definition() -> (d: ToolDefinition)
    ensures
        def_view(d) == (DEEP_RESEARCH_NAME@, DEEP_RESEARCH_DESCRIPTION@, DEEP_RESEARCH_SCHEMA@),
{
    definition(DEEP_RESEARCH_NAME, DEEP_RESEARCH_DESCRIPTION, DEEP_RESEARCH_SCHEMA)
}

/// The definitions of the built-in tools, in order.
pub fn builtin_definitions() -> (v: Vec<ToolDefinition>)
    ensures
        defs_view(v@) == builtin_table(),
{
    let mut v: Vec<ToolDefinition> = Vec::new();
    v.push(read_file_definition());
    v.push(write_file_definition());
    v.push(list_directory_definition());
    v.push(create_directory_definition());
    v.push(move_file_definition());
    v.push(get_file_info_definition());
    v.push(search_files_definition());
    v.push(get_environment_info_definition());
    v.push(edit_block_definition());
    v.push(start_process_definition());
    v.push(read_process_output_definition());
    v.push(interact_with_process_definition());
    v.push(force_terminate_definition());
    v.push(ask_llm_definition());
    v.push(browser_action_definition());
    v.push(call_mcp_server_definition());
    v.push(deep_research_definition());
    assert(defs_view(v@) =~= builtin_table());
    v
}

/// The definition of the web search tool (offered by no registry).
pub fn web_search_definition() -> (d: ToolDefinition)
    ensures
        def_view(d) == (WEB_SEARCH_NAME@, WEB_SEARCH_DESCRIPTION@, WEB_SEARCH_SCHEMA@),
{
    definition(WEB_SEARCH_NAME, WEB_SEARCH_DESCRIPTION, WEB_SEARCH_SCHEMA)
}

/// The index of the built-in tool a name stands for (the first one of
/// that name).
pub fn builtin_index(name: &str) -> (r: Option<usize>)
    ensures
        match r {
            Some(i) => i < builtin_table().len() && builtin_table()[i as int].0 == name@
                && forall|k: int| 0 <= k < i ==> builtin_table()[k].0 != name@,
            None => forall|k: int| 0 <= k < builtin_table().len() ==> builtin_table()[k].0 != name@,
        },
{
    let defs = builtin_definitions();
    let target = owned(name);
    let mut i: usize = 0;
    while i < defs.len()
        invariant
            i <= defs.len(),
            defs_view(defs@) == builtin_table(),
            target@ == name@,
            forall|k: int| 0 <= k < i ==> builtin_table()[k].0 != name@,
        decreases defs.len() - i,
    {
        assert(builtin_table()[i as int] == def_view(defs@[i as int]));
        if defs[i].name == target {
            return Some(i);
        }
        i += 1;
    }
    None
}

/// Every tool offered: the built-in ones, then the plugins' ones.
pub fn get_all_tool_definitions(plugins: &crate::plugin::PluginManager) -> (v: Vec<ToolDefinition>)
    ensures
        defs_view(v@) == builtin_table() + crate::plugin::plugin_tools(plugins.plugins()),
{
    let mut v = builtin_definitions();
    let more = crate::plugin::get_tool_definitions(plugins);
    let ghost before = v@;
    let mut k: usize = 0;
    while k < more.len()
        invariant
            k <= more.len(),
            defs_view(v@) == defs_view(before) + defs_view(more@).take(k as int),
        decreases more.len() - k,
    {
        let d = more[k].clone();
        proof {
            assert(defs_view(v@.push(d)) =~= defs_view(v@).push(def_view(d)));
            assert(defs_view(more@).take(k + 1) =~= defs_view(more@).take(k as int).push(def_view(more@[k as int])));
        }
        v.push(d);
        k += 1;
    }
    assert(defs_view(more@).take(more.len() as int) =~= defs_view(more@));
    v
}

/// Who answers a call of a tool.
pub enum ToolRoute {
    /// The built-in tool at this index.
    Builtin(usize),
    /// The plugin at this index.
    Plugin(usize),
    /// Nobody: the error to answer with.
    NotFound(String),
}

/// Who answers a call of `name`: a built-in tool first, then a plugin,
/// else the "Tool not found" error.
pub fn route_tool(name: &str, plugins: &crate::plugin::PluginManager) -> (r: ToolRoute)
    ensures
        match r {
            ToolRoute::Builtin(i) => i < builtin_table().len() && builtin_table()[i as int].0 == name@,
            ToolRoute::Plugin(p) => (forall|k: int| 0 <= k < builtin_table().len() ==> builtin_table()[k].0 != name@)
                && p < plugins.plugins().len() && crate::plugin::offers(plugins.plugins()[p as int], name@),
            ToolRoute::NotFound(e) => (forall|k: int| 0 <= k < builtin_table().len() ==> builtin_table()[k].0 != name@)
                && (forall|k: int| 0 <= k < plugins.plugins().len() ==> !crate::plugin::offers(#[trigger] plugins.plugins()[k], name@))
                && e@ == "Tool not found: "@ + name@,
        },
{
    match builtin_index(name) {
        Some(i) => ToolRoute::Builtin(i),
        None => match plugins.find_tool(name) {
            Some(p) => ToolRoute::Plugin(p),
            None => {
                let mut m: Vec<char> = Vec::new();
                push_str(&mut m, "Tool not found: ");
                push_str(&mut m, name);
                ToolRoute::NotFound(string_of(m.as_slice()))
            },
        },
    }
}

} // verus!

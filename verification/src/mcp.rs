//! The decisions of the line-based JSON-RPC tool server: what each incoming
//! line is answered with, and when the session ends.
//!
//! The caller reads lines, parses them, and hands each one here as an
//! [`Incoming`]; it then performs the returned [`ServerAction`] (writing the
//! reply, running a tool) and reads the next line.

use vstd::prelude::*;
use crate::text::{trim_seq, trim, chars_of, string_of, push_str, push_all, owned};

verus! {

/// The protocol version the server announces.
pub const PROTOCOL_VERSION: &'static str = "2024-11-05";
/// The server's name in its announcement.
pub const SERVER_NAME: &'static str = "agents-rust";
/// The server's version in its announcement.
pub const SERVER_VERSION: &'static str = "0.1.0";
/// JSON-RPC code for a line that is not valid JSON-RPC.
pub const PARSE_ERROR: i64 = -32700;
/// JSON-RPC code for an unknown method or tool.
pub const METHOD_NOT_FOUND: i64 = -32601;

/// A non-blank line, as the caller parsed it.
pub enum Incoming {
    /// The line could not be parsed; the parser's message.
    Unparsable(String),
    /// A message: its method, whether it carries an id, and for a tool call
    /// the name of the tool (empty where absent).
    Message { method: Option<String>, has_id: bool, tool_name: String },
}

/// A reply to send.
pub enum Reply {
    /// The answer to `initialize`.
    Initialize,
    /// The list of tools.
    ToolsList,
    /// Run the named tool and answer with its outcome.
    CallTool { name: String },
    /// An error answer with a code and a message.
    Error { code: i64, message: String },
}

/// What the caller does with a line.
pub enum ServerAction {
    /// Nothing.
    Ignore,
    /// Send the reply to the message's id (a null id for a parse error).
    Respond(Reply),
    /// End the session.
    Stop,
}

/// The server: the names of the registered tools, and whether the client
/// has announced that it is initialized.
pub struct McpServer {
    names: Vec<String>,
    initialized: bool,
}

pub open spec fn parse_error_message(e: Seq<char>) -> Seq<char> {
    "Parse error: "@ + e
}

pub open spec fn tool_not_found_message(name: Seq<char>) -> Seq<char> {
    "Tool not found: "@ + name
}

pub open spec fn method_not_found_message(m: Seq<char>) -> Seq<char> {
    "Method not found: "@ + m
}

/// Whether `r` is the error reply with this code and message.
pub open spec fn is_error_reply(r: Reply, code: i64, msg: Seq<char>) -> bool {
    r matches Reply::Error { code: c, message: m } && c == code && m@ == msg
}

/// What the server does with one message, given the registered names.
pub open spec fn answer(
    names: Seq<Seq<char>>,
    method: Seq<char>,
    has_id: bool,
    tool: Seq<char>,
    a: ServerAction,
) -> bool {
    if method == "notifications/exit"@ {
        a is Stop
    } else if !has_id || method == "notifications/initialized"@ {
        a is Ignore
    } else if method == "initialize"@ {
        a matches ServerAction::Respond(Reply::Initialize)
    } else if method == "tools/list"@ {
        a matches ServerAction::Respond(Reply::ToolsList)
    } else if method == "tools/call"@ {
        if names.contains(tool) {
            a matches ServerAction::Respond(Reply::CallTool { name }) && name@ == tool
        } else {
            a matches ServerAction::Respond(r) && is_error_reply(
                r,
                METHOD_NOT_FOUND,
                tool_not_found_message(tool),
            )
        }
    } else {
        a matches ServerAction::Respond(r) && is_error_reply(
            r,
            METHOD_NOT_FOUND,
            method_not_found_message(method),
        )
    }
}

/// Whether a line is skipped before parsing: it holds only whitespace.
pub fn line_is_blank(line: &str) -> (b: bool)
    ensures
        b == (trim_seq(line@).len() == 0),
{
    let c = chars_of(line);
    trim(c.as_slice()).len() == 0
}

fn eq_str(a: &str, b: &str) -> (r: bool)
    ensures
        r == (a@ == b@),
{
    owned(a) == owned(b)
}

impl McpServer {
    pub closed spec fn tool_names(&self) -> Seq<Seq<char>> {
        self.names@.map_values(|s: String| s@)
    }

    pub closed spec fn is_initialized(&self) -> bool {
        self.initialized
    }

    /// A server with no tools, not yet initialized.
    pub fn new() -> (s: Self)
        ensures
            s.tool_names() == Seq::<Seq<char>>::empty(),
            !s.is_initialized(),
    {
        McpServer { names: Vec::new(), initialized: false }
    }

    /// Whether a tool of this name is registered.
    pub fn is_registered(&self, name: &str) -> (b: bool)
        ensures
            b == self.tool_names().contains(name@),
    {
        let mut i: usize = 0;
        while i < self.names.len()
            invariant
                i <= self.names.len(),
                forall|j: int| 0 <= j < i ==> self.names@[j]@ != name@,
            decreases self.names.len() - i,
        {
            if eq_str(self.names[i].as_str(), name) {
                assert(self.tool_names()[i as int] == name@);
                return true;
            }
            i += 1;
        }
        proof {
            if self.tool_names().contains(name@) {
                let j = choose|j: int|
                    0 <= j < self.tool_names().len() && self.tool_names()[j] == name@;
                assert(self.names@[j]@ == name@);
            }
        }
        false
    }

    /// Registers a tool under a name. A name registered twice stays once:
    /// the caller's handler for it is replaced.
    pub fn register_tool(&mut self, name: &str)
        ensures
            final(self).is_initialized() == old(self).is_initialized(),
            final(self).tool_names().contains(name@),
            forall|n: Seq<char>| #[trigger]
                final(self).tool_names().contains(n) <==> (old(self).tool_names().contains(n)
                    || n == name@),
    {
        if !self.is_registered(name) {
            let ghost before = self.tool_names();
            self.names.push(owned(name));
            proof {
                assert(self.tool_names() =~= before.push(name@));
                assert(self.tool_names()[before.len() as int] == name@);
                assert forall|n: Seq<char>| #[trigger]
                    self.tool_names().contains(n) <==> (before.contains(n) || n == name@) by {
                    if before.contains(n) {
                        let j = choose|j: int| 0 <= j < before.len() && before[j] == n;
                        assert(self.tool_names()[j] == n);
                    }
                }
            }
        }
    }

    /// Handles one parsed line: updates the state and says what to do.
    ///
    /// A parse error is answered with code -32700; a message without a
    /// method is ignored; `notifications/initialized` marks the session as
    /// initialized; `notifications/exit` ends it; a message without an id
    /// gets no answer; `initialize` and `tools/list` are answered; a call
    /// of a registered tool runs it, one of an unknown tool is answered
    /// with -32601, as is any other method.
    pub fn step(&mut self, incoming: Incoming) -> (a: ServerAction)
        ensures
            final(self).tool_names() == old(self).tool_names(),
            match incoming {
                Incoming::Unparsable(e) => {
                    &&& final(self).is_initialized() == old(self).is_initialized()
                    &&& a matches ServerAction::Respond(r) && is_error_reply(
                        r,
                        PARSE_ERROR,
                        parse_error_message(e@),
                    )
                },
                Incoming::Message { method, has_id, tool_name } => match method {
                    None => a is Ignore && final(self).is_initialized()
                        == old(self).is_initialized(),
                    Some(m) => {
                        &&& final(self).is_initialized() == (old(self).is_initialized() || m@
                            == "notifications/initialized"@)
                        &&& answer(old(self).tool_names(), m@, has_id, tool_name@, a)
                    },
                },
            },
    {
        match incoming {
            Incoming::Unparsable(e) => {
                let mut msg: Vec<char> = Vec::new();
                push_str(&mut msg, "Parse error: ");
                let ec = chars_of(e.as_str());
                push_all(&mut msg, ec.as_slice());
                proof {
                    reveal_strlit("Parse error: ");
                }
                ServerAction::Respond(
                    Reply::Error { code: PARSE_ERROR, message: string_of(msg.as_slice()) },
                )
            },
            Incoming::Message { method, has_id, tool_name } => {
                let m = match method {
                    None => {
                        return ServerAction::Ignore;
                    },
                    Some(m) => m,
                };
                if eq_str(m.as_str(), "notifications/exit") {
                    proof {
                        reveal_strlit("notifications/exit");
                        reveal_strlit("notifications/initialized");
                        assert("notifications/exit"@.len() != "notifications/initialized"@.len());
                    }
                    return ServerAction::Stop;
                }
                if eq_str(m.as_str(), "notifications/initialized") {
                    self.initialized = true;
                    return ServerAction::Ignore;
                }
                if !has_id {
                    return ServerAction::Ignore;
                }
                if eq_str(m.as_str(), "initialize") {
                    ServerAction::Respond(Reply::Initialize)
                } else if eq_str(m.as_str(), "tools/list") {
                    ServerAction::Respond(Reply::ToolsList)
                } else if eq_str(m.as_str(), "tools/call") {
                    if self.is_registered(tool_name.as_str()) {
                        ServerAction::Respond(Reply::CallTool { name: tool_name })
                    } else {
                        let mut msg: Vec<char> = Vec::new();
                        push_str(&mut msg, "Tool not found: ");
                        let tc = chars_of(tool_name.as_str());
                        push_all(&mut msg, tc.as_slice());
                        proof {
                            reveal_strlit("Tool not found: ");
                        }
                        ServerAction::Respond(
                            Reply::Error {
                                code: METHOD_NOT_FOUND,
                                message: string_of(msg.as_slice()),
                            },
                        )
                    }
                } else {
                    let mut msg: Vec<char> = Vec::new();
                    push_str(&mut msg, "Method not found: ");
                    let mc = chars_of(m.as_str());
                    push_all(&mut msg, mc.as_slice());
                    proof {
                        reveal_strlit("Method not found: ");
                    }
                    ServerAction::Respond(
                        Reply::Error { code: METHOD_NOT_FOUND, message: string_of(msg.as_slice()) },
                    )
                }
            },
        }
    }
}

/// A message without an id is never answered, whatever its method, except
/// that `notifications/exit` still ends the session.
pub proof fn lemma_no_id_no_answer(
    names: Seq<Seq<char>>,
    method: Seq<char>,
    tool: Seq<char>,
    a: ServerAction,
)
    requires
        answer(names, method, false, tool, a),
    ensures
        a is Ignore || (a is Stop && method == "notifications/exit"@),
{
}

/// A call of a tool that is not registered is always answered with the
/// "Tool not found" error, never run.
pub proof fn lemma_unknown_tool_refused(
    names: Seq<Seq<char>>,
    tool: Seq<char>,
    a: ServerAction,
)
    requires
        answer(names, "tools/call"@, true, tool, a),
        !names.contains(tool),
    ensures
        a matches ServerAction::Respond(r) && is_error_reply(
            r,
            METHOD_NOT_FOUND,
            tool_not_found_message(tool),
        ),
{
    reveal_strlit("tools/call");
    reveal_strlit("notifications/exit");
    reveal_strlit("notifications/initialized");
    reveal_strlit("initialize");
    reveal_strlit("tools/list");
    assert("tools/call"@.len() != "notifications/exit"@.len());
    assert("tools/call"@.len() != "notifications/initialized"@.len());
    assert("tools/call"@[0] != "initialize"@[0]);
    assert("tools/call"@[0] != "tools/list"@[0] || "tools/call"@[6] != "tools/list"@[6]);
}

} // verus!

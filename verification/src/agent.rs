//! The tool-using loop of an agent: ask the model, run the tools it calls,
//! feed their answers back, and stop at its answer or at the iteration
//! limit.
//!
//! The caller performs each step (the model request, the tool runs) and
//! reports back; the decisions and the conversation live here.

use vstd::prelude::*;
use crate::text::{chars_of, string_of, push_str, owned, contains_seq};
use crate::conversation::{
    ChatMessage, ChatMessageView, ToolCall, ToolCallView, message_views, call_views, copy_calls,
    tool_message_view,
};

verus! {

/// What the caller read of a model reply: no choice at all, or the first
/// choice's text and tool calls.
pub enum ModelReply {
    NoChoice,
    Message { content: Option<String>, tool_calls: Option<Vec<ToolCall>> },
}

/// What to do next.
pub enum LoopStep {
    /// Send the conversation to the model.
    AskModel,
    /// Run these tool calls, record each answer, then ask the model again.
    RunTools(Vec<ToolCall>),
    /// Stop with this outcome.
    Finish(Result<String, String>),
}

/// The state of a tool-using loop: the conversation, the iterations used,
/// the limit, and the error given at the limit.
pub struct ToolLoop {
    messages: Vec<ChatMessage>,
    iteration: usize,
    max_iterations: usize,
    limit_error: String,
}

pub open spec fn empty_response_error() -> Seq<char> {
    "Empty response from LLM"@
}

pub open spec fn no_answer_error() -> Seq<char> {
    "LLM returned empty response with no tool calls"@
}

/// The message recording the model's tool calls.
pub open spec fn calls_message_view(calls: Seq<ToolCallView>) -> ChatMessageView {
    ChatMessageView {
        role: "assistant"@,
        content: None,
        tool_calls: Some(calls),
        tool_call_id: None,
    }
}

impl ToolLoop {
    pub closed spec fn conversation(&self) -> Seq<ChatMessageView> {
        message_views(self.messages@)
    }

    pub closed spec fn iterations(&self) -> nat {
        self.iteration as nat
    }

    pub closed spec fn limit(&self) -> nat {
        self.max_iterations as nat
    }

    pub closed spec fn limit_message(&self) -> Seq<char> {
        self.limit_error@
    }

    /// A loop over a conversation that stops with `limit_error` after
    /// `max_iterations` requests to the model.
    pub fn new(messages: Vec<ChatMessage>, max_iterations: usize, limit_error: &str) -> (l: Self)
        ensures
            l.conversation() == message_views(messages@),
            l.iterations() == 0,
            l.limit() == max_iterations,
            l.limit_message() == limit_error@,
    {
        ToolLoop { messages, iteration: 0, max_iterations, limit_error: owned(limit_error) }
    }

    /// The conversation so far.
    pub fn messages(&self) -> (m: &Vec<ChatMessage>)
        ensures
            message_views(m@) == self.conversation(),
    {
        &self.messages
    }

    /// Starts an iteration: ask the model, unless the limit is reached.
    pub fn begin(&mut self) -> (s: LoopStep)
        ensures
            final(self).conversation() == old(self).conversation(),
            final(self).limit() == old(self).limit(),
            final(self).limit_message() == old(self).limit_message(),
            if old(self).iterations() >= old(self).limit() {
                &&& s matches LoopStep::Finish(Err(e)) && e@ == old(self).limit_message()
                &&& final(self).iterations() == old(self).iterations()
            } else {
                &&& s is AskModel
                &&& final(self).iterations() == old(self).iterations() + 1
                &&& final(self).iterations() <= final(self).limit()
            },
    {
        if self.iteration >= self.max_iterations {
            return LoopStep::Finish(Err(self.limit_error.clone()));
        }
        self.iteration = self.iteration + 1;
        LoopStep::AskModel
    }

    /// Decides on the model's reply: run the tools it calls (recording the
    /// call in the conversation), or finish with its text, or fail when it
    /// gave neither.
    pub fn on_reply(&mut self, reply: ModelReply) -> (s: LoopStep)
        ensures
            final(self).iterations() == old(self).iterations(),
            final(self).limit() == old(self).limit(),
            final(self).limit_message() == old(self).limit_message(),
            match reply {
                ModelReply::NoChoice => {
                    &&& s matches LoopStep::Finish(Err(e)) && e@ == empty_response_error()
                    &&& final(self).conversation() == old(self).conversation()
                },
                ModelReply::Message { content, tool_calls } => {
                    if tool_calls matches Some(calls) && calls@.len() > 0 {
                        &&& s matches LoopStep::RunTools(run) && call_views(run@) == call_views(
                            tool_calls->0@,
                        )
                        &&& final(self).conversation() == old(self).conversation().push(
                            calls_message_view(call_views(tool_calls->0@)),
                        )
                    } else {
                        &&& final(self).conversation() == old(self).conversation()
                        &&& match content {
                            Some(c) => s matches LoopStep::Finish(Ok(t)) && t@ == c@,
                            None => s matches LoopStep::Finish(Err(e)) && e@ == no_answer_error(),
                        }
                    }
                },
            },
    {
        match reply {
            ModelReply::NoChoice => LoopStep::Finish(Err(owned("Empty response from LLM"))),
            ModelReply::Message { content, tool_calls } => {
                let has_calls = match &tool_calls {
                    Some(c) => c.len() > 0,
                    None => false,
                };
                if has_calls {
                    let calls = match tool_calls {
                        Some(c) => c,
                        None => Vec::new(),
                    };
                    let run = copy_calls(&calls);
                    let ghost cv = call_views(calls@);
                    let m = ChatMessage::assistant(None, Some(calls));
                    proof {
                        assert(m@ == calls_message_view(cv));
                        assert(message_views(self.messages@.push(m)) =~= message_views(
                            self.messages@,
                        ).push(m@));
                    }
                    self.messages.push(m);
                    LoopStep::RunTools(run)
                } else {
                    match content {
                        Some(c) => LoopStep::Finish(Ok(c)),
                        None => LoopStep::Finish(
                            Err(owned("LLM returned empty response with no tool calls")),
                        ),
                    }
                }
            },
        }
    }

    /// Records a tool's answer to the call `id`: its output, or its error
    /// prefixed by `Error: `.
    pub fn record_tool_result(&mut self, id: &str, outcome: Result<String, String>)
        ensures
            final(self).iterations() == old(self).iterations(),
            final(self).limit() == old(self).limit(),
            final(self).limit_message() == old(self).limit_message(),
            final(self).conversation() == old(self).conversation().push(
                tool_message_view(
                    id@,
                    match outcome {
                        Ok(o) => o@,
                        Err(e) => "Error: "@ + e@,
                    },
                ),
            ),
    {
        let text = match outcome {
            Ok(o) => o,
            Err(e) => {
                let mut m: Vec<char> = Vec::new();
                push_str(&mut m, "Error: ");
                push_str(&mut m, e.as_str());
                string_of(m.as_slice())
            },
        };
        let t = ChatMessage::tool(id, text.as_str());
        proof {
            assert(message_views(self.messages@.push(t)) =~= message_views(self.messages@).push(t@));
        }
        self.messages.push(t);
    }
}

/// The model name a reply reports, when it differs from the configured
/// primary model: the agent then switches to it.
pub fn fallback_model(reply_model: Option<&str>, primary: &str) -> (r: Option<String>)
    ensures
        match reply_model {
            Some(m) => if m@ != primary@ {
                r matches Some(x) && x@ == m@
            } else {
                r is None
            },
            None => r is None,
        },
{
    match reply_model {
        Some(m) => {
            if owned(m) != owned(primary) {
                Some(owned(m))
            } else {
                None
            }
        },
        None => None,
    }
}

/// The error for a call of a tool that is not registered.
pub fn unknown_tool_error(name: &str) -> (e: String)
    ensures
        e@ == "Unknown tool: "@ + name@,
{
    let mut m: Vec<char> = Vec::new();
    push_str(&mut m, "Unknown tool: ");
    push_str(&mut m, name);
    string_of(m.as_slice())
}

/// The error for tool arguments that are not JSON.
pub fn bad_arguments_error(detail: &str) -> (e: String)
    ensures
        e@ == "Failed to parse tool arguments: "@ + detail@,
{
    let mut m: Vec<char> = Vec::new();
    push_str(&mut m, "Failed to parse tool arguments: ");
    push_str(&mut m, detail);
    string_of(m.as_slice())
}

/// The iteration limit of the interactive agent.
pub const AGENT_MAX_ITERATIONS: usize = 20;

/// The loop of the interactive agent over a conversation.
pub fn agent_loop(messages: Vec<ChatMessage>) -> (l: ToolLoop)
    ensures
        l.conversation() == message_views(messages@),
        l.iterations() == 0,
        l.limit() == 20,
        l.limit_message() == "Agent reached maximum iterations"@,
{
    ToolLoop::new(messages, AGENT_MAX_ITERATIONS, "Agent reached maximum iterations")
}

/// The loop of an orchestrated worker: its instruction as the system
/// message, then its task.
pub fn worker_loop(instruction: &str, task: &str, max_iterations: usize) -> (l: ToolLoop)
    ensures
        l.conversation() == seq![
            ChatMessageView { role: "system"@, content: Some(instruction@), tool_calls: None, tool_call_id: None },
            ChatMessageView { role: "user"@, content: Some(task@), tool_calls: None, tool_call_id: None },
        ],
        l.iterations() == 0,
        l.limit() == max_iterations,
        l.limit_message() == "Worker reached maximum iterations"@,
{
    let mut v: Vec<ChatMessage> = Vec::new();
    v.push(ChatMessage::system(instruction));
    v.push(ChatMessage::user(task));
    let l = ToolLoop::new(v, max_iterations, "Worker reached maximum iterations");
    assert(l.conversation() =~= seq![
        ChatMessageView { role: "system"@, content: Some(instruction@), tool_calls: None, tool_call_id: None },
        ChatMessageView { role: "user"@, content: Some(task@), tool_calls: None, tool_call_id: None },
    ]);
    l
}

} // verus!

//! Chat messages and the management of a conversation's context: token
//! estimates, compressing bulky tool results, and trimming old messages.

use vstd::prelude::*;
use crate::text::{decimal, chars_of, string_of, push_str, push_u64, owned, str_views};
use crate::fuzzy::{utf8_len, utf8_size};

verus! {

/// A call of a tool that the model asked for.
pub struct ToolCall {
    pub id: String,
    pub name: String,
    pub arguments: String,
}

pub struct ToolCallView {
    pub id: Seq<char>,
    pub name: Seq<char>,
    pub arguments: Seq<char>,
}

impl View for ToolCall {
    type V = ToolCallView;

    open spec fn view(&self) -> ToolCallView {
        ToolCallView { id: self.id@, name: self.name@, arguments: self.arguments@ }
    }
}

pub open spec fn call_views(v: Seq<ToolCall>) -> Seq<ToolCallView> {
    v.map_values(|c: ToolCall| c@)
}

impl ToolCall {
    pub fn duplicate(&self) -> (r: ToolCall)
        ensures
            r@ == self@,
    {
        ToolCall { id: self.id.clone(), name: self.name.clone(), arguments: self.arguments.clone() }
    }
}

/// Copies a list of tool calls.
pub fn copy_calls(v: &Vec<ToolCall>) -> (r: Vec<ToolCall>)
    ensures
        call_views(r@) == call_views(v@),
{
    let mut r: Vec<ToolCall> = Vec::new();
    let mut i: usize = 0;
    while i < v.len()
        invariant
            i <= v.len(),
            call_views(r@) == call_views(v@).take(i as int),
        decreases v.len() - i,
    {
        let c = v[i].duplicate();
        proof {
            assert(call_views(r@.push(c)) =~= call_views(r@).push(c@));
            assert(call_views(v@).take(i + 1) =~= call_views(v@).take(i as int).push(v@[i as int]@));
        }
        r.push(c);
        i += 1;
    }
    assert(call_views(v@).take(v.len() as int) =~= call_views(v@));
    r
}

/// A message of a conversation: who speaks, what they say, the tools the
/// model calls, and for a tool's answer the call it answers.
pub struct ChatMessage {
    pub role: String,
    pub content: Option<String>,
    pub tool_calls: Option<Vec<ToolCall>>,
    pub tool_call_id: Option<String>,
}

pub struct ChatMessageView {
    pub role: Seq<char>,
    pub content: Option<Seq<char>>,
    pub tool_calls: Option<Seq<ToolCallView>>,
    pub tool_call_id: Option<Seq<char>>,
}

pub open spec fn opt_view(o: Option<String>) -> Option<Seq<char>> {
    match o {
        Some(s) => Some(s@),
        None => None,
    }
}

impl View for ChatMessage {
    type V = ChatMessageView;

    open spec fn view(&self) -> ChatMessageView {
        ChatMessageView {
            role: self.role@,
            content: opt_view(self.content),
            tool_calls: match self.tool_calls {
                Some(v) => Some(call_views(v@)),
                None => None,
            },
            tool_call_id: opt_view(self.tool_call_id),
        }
    }
}

pub open spec fn message_views(v: Seq<ChatMessage>) -> Seq<ChatMessageView> {
    v.map_values(|m: ChatMessage| m@)
}

fn copy_opt(o: &Option<String>) -> (r: Option<String>)
    ensures
        opt_view(r) == opt_view(*o),
{
    match o {
        Some(s) => Some(s.clone()),
        None => None,
    }
}

/// The message a tool's answer becomes.
pub open spec fn tool_message_view(id: Seq<char>, content: Seq<char>) -> ChatMessageView {
    ChatMessageView {
        role: "tool"@,
        content: Some(content),
        tool_calls: None,
        tool_call_id: Some(id),
    }
}

impl ChatMessage {
    pub fn duplicate(&self) -> (r: ChatMessage)
        ensures
            r@ == self@,
    {
        ChatMessage {
            role: self.role.clone(),
            content: copy_opt(&self.content),
            tool_calls: match &self.tool_calls {
                Some(v) => Some(copy_calls(v)),
                None => None,
            },
            tool_call_id: copy_opt(&self.tool_call_id),
        }
    }

    /// A system instruction.
    pub fn system(text: &str) -> (m: ChatMessage)
        ensures
            m@ == (ChatMessageView {
                role: "system"@,
                content: Some(text@),
                tool_calls: None,
                tool_call_id: None,
            }),
    {
        ChatMessage {
            role: owned("system"),
            content: Some(owned(text)),
            tool_calls: None,
            tool_call_id: None,
        }
    }

    /// A user's message.
    pub fn user(text: &str) -> (m: ChatMessage)
        ensures
            m@ == (ChatMessageView {
                role: "user"@,
                content: Some(text@),
                tool_calls: None,
                tool_call_id: None,
            }),
    {
        ChatMessage { role: owned("user"), content: Some(owned(text)), tool_calls: None, tool_call_id: None }
    }

    /// A message of the model.
    pub fn assistant(content: Option<String>, tool_calls: Option<Vec<ToolCall>>) -> (m: ChatMessage)
        ensures
            m.role@ == "assistant"@,
            m.content == content,
            m.tool_calls == tool_calls,
            m.tool_call_id is None,
    {
        ChatMessage { role: owned("assistant"), content, tool_calls, tool_call_id: None }
    }

    /// A tool's answer to the call `id`.
    pub fn tool(id: &str, content: &str) -> (m: ChatMessage)
        ensures
            m@ == tool_message_view(id@, content@),
    {
        ChatMessage {
            role: owned("tool"),
            content: Some(owned(content)),
            tool_calls: None,
            tool_call_id: Some(owned(id)),
        }
    }
}

/// A rough token count: a token for four bytes, plus ten.
pub open spec fn token_estimate(text: Seq<char>) -> nat {
    utf8_len(text) / 4 + 10
}

/// Estimates the tokens of a text: its byte length over four, plus ten.
pub fn estimate_tokens(text: &str) -> (n: usize)
    requires
        utf8_len(text@) <= usize::MAX,
    ensures
        n == token_estimate(text@),
{
    let b = utf8_size(text);
    b / 4 + 10
}

/// What compression keeps of a message: a tool answer whose content is
/// estimated above a tenth of the budget becomes a note of its size, a tool
/// message without content is dropped, and every other message stays.
pub open spec fn compressed(msgs: Seq<ChatMessageView>, max_tokens: nat) -> Seq<ChatMessageView>
    decreases msgs.len(),
{
    if msgs.len() == 0 {
        seq![]
    } else {
        let rest = compressed(msgs.drop_last(), max_tokens);
        let m = msgs.last();
        if m.role == "tool"@ {
            match m.content {
                None => rest,
                Some(c) => if token_estimate(c) > max_tokens / 10 {
                    rest.push(
                        tool_message_view(
                            match m.tool_call_id {
                                Some(id) => id,
                                None => seq![],
                            },
                            "[tool result: "@ + decimal(utf8_len(c)) + " bytes]"@,
                        ),
                    )
                } else {
                    rest.push(m)
                },
            }
        } else {
            rest.push(m)
        }
    }
}

/// The messages of a conversation with system messages first, in order,
/// then the last ones of the others that fit.
pub open spec fn systems(msgs: Seq<ChatMessageView>) -> Seq<ChatMessageView>
    decreases msgs.len(),
{
    if msgs.len() == 0 {
        seq![]
    } else if msgs.last().role == "system"@ {
        systems(msgs.drop_last()).push(msgs.last())
    } else {
        systems(msgs.drop_last())
    }
}

pub open spec fn non_systems(msgs: Seq<ChatMessageView>) -> Seq<ChatMessageView>
    decreases msgs.len(),
{
    if msgs.len() == 0 {
        seq![]
    } else if msgs.last().role != "system"@ {
        non_systems(msgs.drop_last()).push(msgs.last())
    } else {
        non_systems(msgs.drop_last())
    }
}

pub open spec fn trimmed(msgs: Seq<ChatMessageView>, max_messages: nat) -> Seq<ChatMessageView> {
    if msgs.len() <= max_messages {
        msgs
    } else {
        let s = systems(msgs);
        let o = non_systems(msgs);
        let room = max_messages - s.len();
        let start = if o.len() > room {
            o.len() - room
        } else {
            0
        };
        s + o.skip(start)
    }
}

/// The context budget of a conversation.
pub struct ContextManager {
    pub max_tokens: usize,
}

impl ContextManager {
    pub fn new(max_tokens: usize) -> (c: Self)
        ensures
            c.max_tokens == max_tokens,
    {
        ContextManager { max_tokens }
    }

    /// Replaces bulky tool answers by a note of their size, and drops tool
    /// messages without content.
    pub fn compress_messages(&self, messages: &Vec<ChatMessage>) -> (r: Vec<ChatMessage>)
        requires
            forall|i: int| 0 <= i < messages@.len() ==> match #[trigger] messages@[i].content {
                Some(c) => utf8_len(c@) <= usize::MAX,
                None => true,
            },
        ensures
            message_views(r@) == compressed(message_views(messages@), self.max_tokens as nat),
    {
        let mut out: Vec<ChatMessage> = Vec::new();
        let mut i: usize = 0;
        let tool = owned("tool");
        while i < messages.len()
            invariant
                i <= messages.len(),
                tool@ == "tool"@,
                forall|j: int| 0 <= j < messages@.len() ==> match #[trigger] messages@[j].content {
                    Some(c) => utf8_len(c@) <= usize::MAX,
                    None => true,
                },
                message_views(out@) == compressed(
                    message_views(messages@).take(i as int),
                    self.max_tokens as nat,
                ),
            decreases messages.len() - i,
        {
            let m = &messages[i];
            let ghost mv = message_views(messages@);
            proof {
                assert(mv.take(i + 1).drop_last() =~= mv.take(i as int));
                assert(mv.take(i + 1).last() == m@);
            }
            if m.role == tool {
                match &m.content {
                    None => {},
                    Some(c) => {
                        assert(utf8_len(c@) <= usize::MAX);
                        if estimate_tokens(c.as_str()) > self.max_tokens / 10 {
                            let bytes = utf8_size(c.as_str());
                            let mut note: Vec<char> = Vec::new();
                            push_str(&mut note, "[tool result: ");
                            push_u64(&mut note, bytes as u64);
                            push_str(&mut note, " bytes]");
                            let ns = string_of(note.as_slice());
                            let id = match &m.tool_call_id {
                                Some(x) => x.clone(),
                                None => String::new(),
                            };
                            let t = ChatMessage::tool(id.as_str(), ns.as_str());
                            proof {
                                assert(message_views(out@.push(t)) =~= message_views(out@).push(t@));
                            }
                            out.push(t);
                        } else {
                            let d = m.duplicate();
                            proof {
                                assert(message_views(out@.push(d)) =~= message_views(out@).push(d@));
                            }
                            out.push(d);
                        }
                    },
                }
            } else {
                let d = m.duplicate();
                proof {
                    assert(message_views(out@.push(d)) =~= message_views(out@).push(d@));
                }
                out.push(d);
            }
            i += 1;
        }
        assert(message_views(messages@).take(messages.len() as int) =~= message_views(messages@));
        out
    }

    /// Keeps a conversation within `max_messages`: all system messages,
    /// then as many of the latest other messages as there is room for.
    pub fn trim_conversation(&self, messages: &Vec<ChatMessage>, max_messages: usize) -> (r: Vec<
        ChatMessage,
    >)
        requires
            messages@.len() > max_messages ==> systems(message_views(messages@)).len()
                <= max_messages,
        ensures
            message_views(r@) == trimmed(message_views(messages@), max_messages as nat),
    {
        let ghost mv = message_views(messages@);
        let system = owned("system");
        if messages.len() <= max_messages {
            let mut all: Vec<ChatMessage> = Vec::new();
            let mut i: usize = 0;
            while i < messages.len()
                invariant
                    i <= messages.len(),
                    mv == message_views(messages@),
                    message_views(all@) == mv.take(i as int),
                decreases messages.len() - i,
            {
                let d = messages[i].duplicate();
                proof {
                    assert(message_views(all@.push(d)) =~= message_views(all@).push(d@));
                    assert(mv.take(i + 1) =~= mv.take(i as int).push(mv[i as int]));
                }
                all.push(d);
                i += 1;
            }
            assert(mv.take(messages.len() as int) =~= mv);
            return all;
        }
        let mut kept: Vec<ChatMessage> = Vec::new();
        let mut others: Vec<ChatMessage> = Vec::new();
        let mut i: usize = 0;
        while i < messages.len()
            invariant
                i <= messages.len(),
                mv == message_views(messages@),
                system@ == "system"@,
                message_views(kept@) == systems(mv.take(i as int)),
                message_views(others@) == non_systems(mv.take(i as int)),
            decreases messages.len() - i,
        {
            proof {
                assert(mv.take(i + 1).drop_last() =~= mv.take(i as int));
                assert(mv.take(i + 1).last() == mv[i as int]);
            }
            let d = messages[i].duplicate();
            if messages[i].role == system {
                proof {
                    assert(message_views(kept@.push(d)) =~= message_views(kept@).push(d@));
                }
                kept.push(d);
            } else {
                proof {
                    assert(message_views(others@.push(d)) =~= message_views(others@).push(d@));
                }
                others.push(d);
            }
            i += 1;
        }
        assert(mv.take(messages.len() as int) =~= mv);
        let room = max_messages - kept.len();
        let start = if others.len() > room {
            others.len() - room
        } else {
            0
        };
        let ghost base = message_views(kept@);
        let ghost ov = message_views(others@);
        let mut k = start;
        while k < others.len()
            invariant
                start <= k <= others@.len(),
                ov == message_views(others@),
                ov == non_systems(mv),
                message_views(kept@) == base + ov.subrange(start as int, k as int),
            decreases others.len() - k,
        {
            let d = others[k].duplicate();
            proof {
                assert(message_views(kept@.push(d)) =~= message_views(kept@).push(d@));
                assert(ov.subrange(start as int, k + 1) =~= ov.subrange(start as int, k as int).push(ov[k as int]));
                assert(ov[k as int] == others@[k as int]@);
            }
            kept.push(d);
            k += 1;
        }
        assert(ov.subrange(start as int, others.len() as int) =~= ov.skip(start as int));
        kept
    }
}

/// The prompt that asks for a summary of `text` at a given length.
pub fn summarize_prompt(text: &str, target_length: &str) -> (s: String)
    ensures
        s@ == "Tóm tắt nội dung sau đây, giữ lại thông tin quan trọng nhất.\nYêu cầu: tóm tắt "@
            + target_length@ + ".\nNội dung:\n"@ + text@,
{
    let mut m: Vec<char> = Vec::new();
    push_str(&mut m, "Tóm tắt nội dung sau đây, giữ lại thông tin quan trọng nhất.\nYêu cầu: tóm tắt ");
    push_str(&mut m, target_length);
    push_str(&mut m, ".\nNội dung:\n");
    push_str(&mut m, text);
    string_of(m.as_slice())
}

/// Compression never adds messages.
pub proof fn lemma_compressed_len(msgs: Seq<ChatMessageView>, max_tokens: nat)
    ensures
        compressed(msgs, max_tokens).len() <= msgs.len(),
    decreases msgs.len(),
{
    if msgs.len() > 0 {
        lemma_compressed_len(msgs.drop_last(), max_tokens);
    }
}

proof fn lemma_split_len(msgs: Seq<ChatMessageView>)
    ensures
        systems(msgs).len() + non_systems(msgs).len() == msgs.len(),
    decreases msgs.len(),
{
    if msgs.len() > 0 {
        lemma_split_len(msgs.drop_last());
    }
}

/// A trimmed conversation fits its limit whenever its system messages do,
/// and keeps every system message.
pub proof fn lemma_trimmed_fits(msgs: Seq<ChatMessageView>, max_messages: nat)
    requires
        msgs.len() > max_messages ==> systems(msgs).len() <= max_messages,
    ensures
        trimmed(msgs, max_messages).len() <= max_messages,
        msgs.len() > max_messages ==> trimmed(msgs, max_messages).take(systems(msgs).len() as int)
            == systems(msgs),
{
    if msgs.len() > max_messages {
        lemma_split_len(msgs);
        let s = systems(msgs);
        let o = non_systems(msgs);
        let room = max_messages - s.len();
        let start = if o.len() > room {
            o.len() - room
        } else {
            0
        };
        assert((s + o.skip(start)).take(s.len() as int) =~= s);
    }
}

/// Trimming keeps a conversation that fits as it is; one that does not fit
/// becomes exactly `max_messages` long: every system message in order,
/// then the latest non-system messages, as many as there is room for (the
/// last `max_messages - systems` of them, in order).
pub proof fn lemma_trimmed_keeps_latest(msgs: Seq<ChatMessageView>, max_messages: nat)
    requires
        msgs.len() > max_messages ==> systems(msgs).len() <= max_messages,
    ensures
        msgs.len() <= max_messages ==> trimmed(msgs, max_messages) == msgs,
        msgs.len() > max_messages ==> {
            let s = systems(msgs);
            let o = non_systems(msgs);
            let r = trimmed(msgs, max_messages);
            let room = max_messages - s.len();
            &&& r.len() == max_messages
            &&& r.take(s.len() as int) == s
            &&& r.skip(s.len() as int) == o.subrange(o.len() - room, o.len() as int)
            &&& forall|k: int|
                0 <= k < room ==> #[trigger] r[s.len() + k] == o[o.len() - room + k]
        },
{
    if msgs.len() > max_messages {
        lemma_split_len(msgs);
        let s = systems(msgs);
        let o = non_systems(msgs);
        let r = trimmed(msgs, max_messages);
        let room = max_messages - s.len();
        assert(o.len() > room);
        assert(r =~= s + o.skip(o.len() - room));
        assert(r.take(s.len() as int) =~= s);
        assert(r.skip(s.len() as int) =~= o.subrange(o.len() - room, o.len() as int));
        assert forall|k: int| 0 <= k < room implies #[trigger] r[s.len() + k] == o[o.len() - room
            + k] by {
            assert(r[s.len() + k] == r.skip(s.len() as int)[k]);
        }
    }
}

/// The system messages and the others of a conversation are the messages
/// with and without the `system` role, each in their order.
pub proof fn lemma_split_is_filter(msgs: Seq<ChatMessageView>)
    ensures
        systems(msgs) == msgs.filter(|m: ChatMessageView| m.role == "system"@),
        non_systems(msgs) == msgs.filter(|m: ChatMessageView| m.role != "system"@),
    decreases msgs.len(),
{
    reveal(Seq::filter);
    if msgs.len() > 0 {
        lemma_split_is_filter(msgs.drop_last());
    }
}

} // verus!

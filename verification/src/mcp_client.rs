//! Calling tools on other MCP servers: which server a name stands for, the
//! ids of requests, reading server-sent events, and what a call's reply
//! comes to.

use vstd::prelude::*;
use crate::text::{
    lines, join, starts_with_seq, chars_of, string_of, split_lines, starts_with, slice_vec,
    push_str, push_all, join_vecs, owned, views,
};
use crate::tool::{ToolResult, is_text_result, single_text};

verus! {

/// Whether a text is a JSON document, as `serde_json` parses one.
pub uninterp spec fn json_valid(s: Seq<char>) -> bool;

/// Wraps `serde_json::from_str::<serde_json::Value>`: whether the text
/// parses as JSON. The parse depends on the text alone; what JSON accepts
/// is left to the name.
#[verifier::external_body]
fn is_json(s: &str) -> (b: bool)
    ensures
        b == json_valid(s@),
{
    serde_json::from_str::<serde_json::Value>(s).is_ok()
}

/// The prefix of a server-sent event's data line.
pub open spec fn data_prefix() -> Seq<char> {
    "data: "@
}

/// The payload of the last data line that holds JSON, if any.
pub open spec fn last_payload(ls: Seq<Seq<char>>) -> Option<Seq<char>>
    decreases ls.len(),
{
    if ls.len() == 0 {
        None
    } else {
        let l = ls.last();
        if starts_with_seq(l, data_prefix()) && json_valid(l.skip(6)) {
            Some(l.skip(6))
        } else {
            last_payload(ls.drop_last())
        }
    }
}

/// The error when an event stream holds no JSON data: it shows the first
/// 200 characters of the stream.
pub open spec fn no_sse_data_message(data: Seq<char>) -> Seq<char> {
    "No valid SSE data found: "@ + (if data.len() > 200 {
        data.take(200)
    } else {
        data
    })
}

/// Finds the JSON of a server-sent event stream: the payload of its last
/// `data: ` line that parses as JSON.
pub fn parse_sse_event(data: &str) -> (r: Result<String, String>)
    ensures
        match r {
            Ok(p) => last_payload(lines(data@)) == Some(p@),
            Err(m) => last_payload(lines(data@)) is None && m@ == no_sse_data_message(data@),
        },
{
    let d = chars_of(data);
    let ls = split_lines(d.as_slice());
    let prefix = chars_of("data: ");
    proof {
        reveal_strlit("data: ");
    }
    let mut i: usize = ls.len();
    assert(views(ls@).take(ls.len() as int) =~= views(ls@));
    while i > 0
        invariant
            i <= ls.len(),
            views(ls@) == lines(data@),
            prefix@ == data_prefix(),
            prefix@.len() == 6,
            last_payload(lines(data@)) == last_payload(views(ls@).take(i as int)),
        decreases i,
    {
        let l = &ls[i - 1];
        proof {
            assert(views(ls@).take(i as int).last() == l@);
            assert(views(ls@).take(i as int).drop_last() =~= views(ls@).take(i - 1));
        }
        if starts_with(l.as_slice(), prefix.as_slice()) {
            let rest = slice_vec(l.as_slice(), 6, l.len());
            let rs = string_of(rest.as_slice());
            proof {
                assert(rest@ =~= l@.skip(6));
            }
            if is_json(rs.as_str()) {
                return Ok(rs);
            }
        }
        i -= 1;
    }
    proof {
        assert(views(ls@).take(0) =~= Seq::<Seq<char>>::empty());
    }
    let mut m: Vec<char> = Vec::new();
    push_str(&mut m, "No valid SSE data found: ");
    let shown = if d.len() > 200 {
        slice_vec(d.as_slice(), 0, 200)
    } else {
        slice_vec(d.as_slice(), 0, d.len())
    };
    push_all(&mut m, shown.as_slice());
    proof {
        if d@.len() > 200 {
            assert(d@.subrange(0, 200) =~= d@.take(200));
        } else {
            assert(d@.subrange(0, d@.len() as int) =~= d@);
        }
    }
    Err(string_of(m.as_slice()))
}

/// What the caller read of a `tools/call` reply: the error's message when
/// the reply holds an error (empty where the message is missing), whether
/// it holds a result, and the result's content items (their `text`
/// fields) when it holds a content list.
pub struct CallReply {
    pub error: Option<String>,
    pub has_result: bool,
    pub content: Option<Vec<Option<String>>>,
}

/// The texts of the content items that have one.
pub open spec fn present_texts(items: Seq<Option<String>>) -> Seq<Seq<char>>
    decreases items.len(),
{
    if items.len() == 0 {
        seq![]
    } else {
        let rest = present_texts(items.drop_last());
        match items.last() {
            Some(t) => rest.push(t@),
            None => rest,
        }
    }
}

/// The separator between the texts of a multi-part reply.
pub open spec fn part_separator() -> Seq<char> {
    "\n\n---\n\n"@
}

/// What a `tools/call` reply to `tool` comes to: the server's error, a
/// missing result or content, or the texts of the content joined.
pub fn finish_call(tool: &str, reply: CallReply) -> (r: Result<ToolResult, String>)
    ensures
        match reply.error {
            Some(msg) => r matches Err(e) && e@ == tool@ + " error: "@ + msg@,
            None => if !reply.has_result {
                r matches Err(e) && e@ == "No result in response"@
            } else {
                match reply.content {
                    None => r matches Err(e) && e@ == "No content in result"@,
                    Some(items) => r matches Ok(t) && is_text_result(
                        t,
                        join(present_texts(items@), part_separator()),
                        Some(false),
                    ),
                }
            },
        },
{
    match reply.error {
        Some(msg) => {
            let mut e: Vec<char> = Vec::new();
            push_str(&mut e, tool);
            push_str(&mut e, " error: ");
            push_str(&mut e, msg.as_str());
            return Err(string_of(e.as_slice()));
        },
        None => {},
    }
    if !reply.has_result {
        return Err(owned("No result in response"));
    }
    let items = match reply.content {
        None => {
            return Err(owned("No content in result"));
        },
        Some(items) => items,
    };
    let mut texts: Vec<Vec<char>> = Vec::new();
    let mut i: usize = 0;
    while i < items.len()
        invariant
            i <= items.len(),
            views(texts@) == present_texts(items@.take(i as int)),
        decreases items.len() - i,
    {
        proof {
            assert(items@.take(i + 1).drop_last() =~= items@.take(i as int));
        }
        match &items[i] {
            Some(t) => {
                let c = chars_of(t.as_str());
                proof {
                    crate::text::lemma_views_push(texts@, c);
                }
                texts.push(c);
            },
            None => {},
        }
        i += 1;
    }
    proof {
        assert(items@.take(items.len() as int) =~= items@);
    }
    let sep = chars_of("\n\n---\n\n");
    let joined = join_vecs(&texts, sep.as_slice());
    Ok(single_text(string_of(joined.as_slice()), Some(false)))
}

/// A server reached over HTTP, or one started as a local command.
pub enum McpTarget {
    Remote { url: String },
    Local { command: Vec<String> },
}

/// The servers reached over HTTP: names and URLs.
pub open spec fn remote_servers() -> Seq<(Seq<char>, Seq<char>)> {
    seq![
        ("grep_app"@, "https://mcp.grep.app"@),
        ("websearch"@, "https://mcp.exa.ai/mcp?tools=web_search_exa"@),
        ("ms-learn"@, "https://learn.microsoft.com/api/mcp"@),
    ]
}

/// The servers started as local commands: names and command lines.
pub open spec fn local_servers() -> Seq<(Seq<char>, Seq<Seq<char>>)> {
    seq![
        ("context7"@, seq!["npx"@, "@upstash/context7-mcp@latest"@]),
        ("obscura"@, seq!["npx"@, "@obscuraai/mcp-server"@]),
    ]
}

/// The error for a server name that is not known.
pub open spec fn unknown_server_message(name: Seq<char>) -> Seq<char> {
    "Unknown server: "@ + name + ". Available: grep_app, websearch, context7, obscura, ms-learn"@
}

/// Which server a name stands for.
pub open spec fn target_of(name: Seq<char>, t: McpTarget) -> bool {
    if exists|i: int| 0 <= i < remote_servers().len() && remote_servers()[i].0 == name {
        let i = choose|i: int| 0 <= i < remote_servers().len() && remote_servers()[i].0 == name;
        t matches McpTarget::Remote { url } && url@ == remote_servers()[i].1
    } else {
        let i = choose|i: int| 0 <= i < local_servers().len() && local_servers()[i].0 == name;
        t matches McpTarget::Local { command } && command@.map_values(|s: String| s@)
            == local_servers()[i].1
    }
}

pub open spec fn is_known_server(name: Seq<char>) -> bool {
    (exists|i: int| 0 <= i < remote_servers().len() && remote_servers()[i].0 == name) || (exists|
        i: int,
    | 0 <= i < local_servers().len() && local_servers()[i].0 == name)
}

proof fn lemma_first_chars()
    ensures
        "grep_app"@.len() > 0 && "grep_app"@[0] == 'g',
        "websearch"@.len() > 0 && "websearch"@[0] == 'w',
        "ms-learn"@.len() > 0 && "ms-learn"@[0] == 'm',
        "context7"@.len() > 0 && "context7"@[0] == 'c',
        "obscura"@.len() > 0 && "obscura"@[0] == 'o',
{
    reveal_strlit("grep_app");
    reveal_strlit("websearch");
    reveal_strlit("ms-learn");
    reveal_strlit("context7");
    reveal_strlit("obscura");
}

fn same(a: &str, b: &str) -> (r: bool)
    ensures
        r == (a@ == b@),
{
    owned(a) == owned(b)
}

fn strings2(a: &str, b: &str) -> (v: Vec<String>)
    ensures
        v@.map_values(|s: String| s@) == seq![a@, b@],
{
    let mut v: Vec<String> = Vec::new();
    v.push(owned(a));
    v.push(owned(b));
    assert(v@.map_values(|s: String| s@) =~= seq![a@, b@]);
    v
}

/// The server a name stands for: one of the HTTP servers, else one of the
/// local commands, else an error listing the known names.
pub fn resolve_server(name: &str) -> (r: Result<McpTarget, String>)
    ensures
        match r {
            Ok(t) => is_known_server(name@) && target_of(name@, t),
            Err(e) => !is_known_server(name@) && e@ == unknown_server_message(name@),
        },
{
    proof {
        lemma_first_chars();
    }
    let ghost rs = remote_servers();
    let ghost ls = local_servers();
    if same(name, "grep_app") {
        assert(rs[0].0 == name@);
        proof {
            let i = choose|i: int| 0 <= i < rs.len() && rs[i].0 == name@;
            assert(i == 0);
        }
        return Ok(McpTarget::Remote { url: owned("https://mcp.grep.app") });
    }
    if same(name, "websearch") {
        assert(rs[1].0 == name@);
        proof {
            let i = choose|i: int| 0 <= i < rs.len() && rs[i].0 == name@;
            assert(i == 1);
        }
        return Ok(McpTarget::Remote { url: owned("https://mcp.exa.ai/mcp?tools=web_search_exa") });
    }
    if same(name, "ms-learn") {
        assert(rs[2].0 == name@);
        proof {
            let i = choose|i: int| 0 <= i < rs.len() && rs[i].0 == name@;
            assert(i == 2);
        }
        return Ok(McpTarget::Remote { url: owned("https://learn.microsoft.com/api/mcp") });
    }
    assert(forall|i: int| 0 <= i < rs.len() ==> rs[i].0 != name@);
    if same(name, "context7") {
        assert(ls[0].0 == name@);
        proof {
            let i = choose|i: int| 0 <= i < ls.len() && ls[i].0 == name@;
            assert(i == 0);
        }
        return Ok(McpTarget::Local { command: strings2("npx", "@upstash/context7-mcp@latest") });
    }
    if same(name, "obscura") {
        assert(ls[1].0 == name@);
        proof {
            let i = choose|i: int| 0 <= i < ls.len() && ls[i].0 == name@;
            assert(i == 1);
        }
        return Ok(McpTarget::Local { command: strings2("npx", "@obscuraai/mcp-server") });
    }
    assert(forall|i: int| 0 <= i < ls.len() ==> ls[i].0 != name@);
    let mut e: Vec<char> = Vec::new();
    push_str(&mut e, "Unknown server: ");
    push_str(&mut e, name);
    push_str(&mut e, ". Available: grep_app, websearch, context7, obscura, ms-learn");
    Err(string_of(e.as_slice()))
}

/// The names of all servers, HTTP ones first.
pub open spec fn server_names_spec() -> Seq<Seq<char>> {
    seq!["grep_app"@, "websearch"@, "ms-learn"@, "context7"@, "obscura"@]
}

/// The names of all servers, HTTP ones first.
pub fn server_names() -> (v: Vec<String>)
    ensures
        v@.map_values(|s: String| s@) == server_names_spec(),
{
    let mut v: Vec<String> = Vec::new();
    v.push(owned("grep_app"));
    v.push(owned("websearch"));
    v.push(owned("ms-learn"));
    v.push(owned("context7"));
    v.push(owned("obscura"));
    assert(v@.map_values(|s: String| s@) =~= server_names_spec());
    v
}

/// The request ids of a client: a counter that starts at 100 and hands
/// out each value once, wrapping at the end of `u64`.
pub struct IdCounter {
    pub next: u64,
}

impl IdCounter {
    pub fn new() -> (c: Self)
        ensures
            c.next == 100,
    {
        IdCounter { next: 100 }
    }

    /// The next id.
    pub fn next_id(&mut self) -> (id: u64)
        ensures
            id == old(self).next,
            final(self).next == (if old(self).next == u64::MAX {
                0
            } else {
                old(self).next + 1
            }),
    {
        let id = self.next;
        self.next = if id == u64::MAX {
            0
        } else {
            id + 1
        };
        id
    }
}

/// Two ids in a row differ.
pub proof fn lemma_ids_differ(c: IdCounter)
    ensures
        c.next != (if c.next == u64::MAX {
            0
        } else {
            c.next + 1
        }),
{
}

/// What the reply to `initialize` means for the call that follows: a reply
/// carrying an error stops it with `<label> error: <reply>` (the remote
/// client labels it `Initialize`, the local one `Init`).
pub fn check_init_reply(label: &str, has_error: bool, reply: &str) -> (r: Result<(), String>)
    ensures
        has_error ==> (r matches Err(e) && e@ == label@ + " error: "@ + reply@),
        !has_error ==> r is Ok,
{
    if has_error {
        let mut m: Vec<char> = Vec::new();
        push_str(&mut m, label);
        push_str(&mut m, " error: ");
        push_str(&mut m, reply);
        Err(string_of(m.as_slice()))
    } else {
        Ok(())
    }
}

} // verus!

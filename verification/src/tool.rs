//! The shapes that tools exchange: definitions, results and their content,
//! and the helpers that build results.

use vstd::prelude::*;
use crate::text::{join, join_vecs, chars_of, string_of, to_vec};

verus! {

/// What a tool is called, what it does, and the JSON schema of its input
/// (as JSON text).
pub struct ToolDefinition {
    pub name: String,
    pub description: String,
    pub input_schema: String,
}

impl Clone for ToolDefinition {
    fn clone(&self) -> (r: Self)
        ensures
            r.name@ == self.name@,
            r.description@ == self.description@,
            r.input_schema@ == self.input_schema@,
    {
        ToolDefinition {
            name: self.name.clone(),
            description: self.description.clone(),
            input_schema: self.input_schema.clone(),
        }
    }
}

/// A text resource embedded in a tool result.
pub struct ResourceContent {
    pub uri: String,
    pub text: String,
}

/// One piece of a tool's output.
pub enum ToolContent {
    Text { text: String },
    Resource { resource: ResourceContent },
}

/// A tool's output: its content, and whether it reports an error.
pub struct ToolResult {
    pub content: Vec<ToolContent>,
    pub is_error: Option<bool>,
}

/// The text carried by a piece of content.
pub open spec fn content_text_of(c: ToolContent) -> Seq<char> {
    match c {
        ToolContent::Text { text } => text@,
        ToolContent::Resource { resource } => resource.text@,
    }
}

/// The texts of all pieces of content, in order.
pub open spec fn content_texts(cs: Seq<ToolContent>) -> Seq<Seq<char>> {
    cs.map_values(|c: ToolContent| content_text_of(c))
}

/// Whether `r` is a result with the single text `text` and the error flag `flag`.
pub open spec fn is_text_result(r: ToolResult, text: Seq<char>, flag: Option<bool>) -> bool {
    &&& r.content@.len() == 1
    &&& r.content@[0] matches ToolContent::Text { text: t } && t@ == text
    &&& r.is_error == flag
}

/// A successful result holding one text.
pub fn text_result(text: String) -> (r: Result<ToolResult, String>)
    ensures
        r matches Ok(t) && is_text_result(t, text@, None),
{
    let ghost s = text@;
    let mut content: Vec<ToolContent> = Vec::new();
    content.push(ToolContent::Text { text });
    Ok(ToolResult { content, is_error: None })
}

/// A result holding one text and flagged as an error. It is still returned
/// as `Ok`: the tool ran, and its output says what went wrong.
pub fn error_result(text: String) -> (r: Result<ToolResult, String>)
    ensures
        r matches Ok(t) && is_text_result(t, text@, Some(true)),
{
    let mut content: Vec<ToolContent> = Vec::new();
    content.push(ToolContent::Text { text });
    Ok(ToolResult { content, is_error: Some(true) })
}

/// A result holding one text with the given error flag.
pub fn single_text(text: String, flag: Option<bool>) -> (r: ToolResult)
    ensures
        is_text_result(r, text@, flag),
{
    let mut content: Vec<ToolContent> = Vec::new();
    content.push(ToolContent::Text { text });
    ToolResult { content, is_error: flag }
}

/// What a call answers when its handler failed: the error as the single
/// text of a result flagged as an error.
pub fn call_outcome(outcome: Result<ToolResult, String>) -> (r: ToolResult)
    ensures
        match outcome {
            Ok(t) => r == t,
            Err(e) => is_text_result(r, e@, Some(true)),
        },
{
    match outcome {
        Ok(t) => t,
        Err(e) => single_text(e, Some(true)),
    }
}

/// The texts of a result's content, one per line.
pub fn result_text(r: &ToolResult) -> (s: String)
    ensures
        s@ == join(content_texts(r.content@), seq!['\n']),
{
    let mut parts: Vec<Vec<char>> = Vec::new();
    let mut i: usize = 0;
    while i < r.content.len()
        invariant
            i <= r.content.len(),
            parts@.len() == i,
            forall|j: int| 0 <= j < i ==> parts@[j]@ == content_text_of(r.content@[j]),
        decreases r.content.len() - i,
    {
        let t = match &r.content[i] {
            ToolContent::Text { text } => chars_of(text.as_str()),
            ToolContent::Resource { resource } => chars_of(resource.text.as_str()),
        };
        parts.push(t);
        i += 1;
    }
    let sep: Vec<char> = vec!['\n'];
    let joined = join_vecs(&parts, sep.as_slice());
    proof {
        assert(crate::text::views(parts@) =~= content_texts(r.content@));
        assert(sep@ =~= seq!['\n']);
    }
    string_of(joined.as_slice())
}

} // verus!

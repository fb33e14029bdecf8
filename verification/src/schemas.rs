//! JSON schemas of single tool parameters, as JSON text with the keys in
//! the order `serde_json` writes them (sorted).

use vstd::prelude::*;
use crate::browser::{json_quoted, json_string};
use crate::text::{join, push_str, string_of};

verus! {

/// `{"description":<desc>,"type":<ty>}`.
pub open spec fn typed_schema(desc: Seq<char>, ty: Seq<char>) -> Seq<char> {
    "{\"description\":"@ + json_quoted(desc) + ",\"type\":\""@ + ty + "\"}"@
}

/// The quoted variants, comma-separated, in brackets.
pub open spec fn json_string_list(vs: Seq<Seq<char>>) -> Seq<char> {
    "["@ + join(vs.map_values(|v: Seq<char>| json_quoted(v)), ","@) + "]"@
}

fn typed(desc: &str, ty: &str) -> (s: String)
    ensures
        s@ == typed_schema(desc@, ty@),
{
    let q = json_string(desc);
    let mut m: Vec<char> = Vec::new();
    push_str(&mut m, "{\"description\":");
    push_str(&mut m, q.as_str());
    push_str(&mut m, ",\"type\":\"");
    push_str(&mut m, ty);
    push_str(&mut m, "\"}");
    string_of(m.as_slice())
}

/// A string parameter.
pub fn string_schema(desc: &str) -> (s: String)
    ensures
        s@ == typed_schema(desc@, "string"@),
{
    typed(desc, "string")
}

/// An optional string parameter (the same schema: optionality lives in
/// the object's `required` list).
pub fn optional_string_schema(desc: &str) -> (s: String)
    ensures
        s@ == typed_schema(desc@, "string"@),
{
    typed(desc, "string")
}

/// An integer parameter.
pub fn integer_schema(desc: &str) -> (s: String)
    ensures
        s@ == typed_schema(desc@, "integer"@),
{
    typed(desc, "integer")
}

/// An optional integer parameter.
pub fn optional_integer_schema(desc: &str) -> (s: String)
    ensures
        s@ == typed_schema(desc@, "integer"@),
{
    typed(desc, "integer")
}

/// A boolean parameter.
pub fn boolean_schema(desc: &str) -> (s: String)
    ensures
        s@ == typed_schema(desc@, "boolean"@),
{
    typed(desc, "boolean")
}

/// A string parameter limited to the given variants.
pub fn enum_schema(desc: &str, variants: &[&str]) -> (s: String)
    ensures
        s@ == "{\"description\":"@ + json_quoted(desc@) + ",\"enum\":"@ + json_string_list(
            variants@.map_values(|v: &str| v@),
        ) + ",\"type\":\"string\"}"@,
{
    let ghost vs = variants@.map_values(|v: &str| v@);
    let ghost qs = vs.map_values(|v: Seq<char>| json_quoted(v));
    let mut body: Vec<char> = Vec::new();
    let mut i: usize = 0;
    while i < variants.len()
        invariant
            i <= variants@.len(),
            vs == variants@.map_values(|v: &str| v@),
            qs == vs.map_values(|v: Seq<char>| json_quoted(v)),
            body@ == join(qs.take(i as int), ","@),
        decreases variants.len() - i,
    {
        let q = json_string(variants[i]);
        proof {
            assert(qs.take(i + 1).drop_last() =~= qs.take(i as int));
            assert(qs[i as int] == q@);
        }
        if i > 0 {
            push_str(&mut body, ",");
        }
        push_str(&mut body, q.as_str());
        i += 1;
    }
    assert(qs.take(variants@.len() as int) =~= qs);
    let dq = json_string(desc);
    let mut m: Vec<char> = Vec::new();
    push_str(&mut m, "{\"description\":");
    push_str(&mut m, dq.as_str());
    push_str(&mut m, ",\"enum\":");
    push_str(&mut m, "[");
    crate::text::push_all(&mut m, body.as_slice());
    push_str(&mut m, "]");
    push_str(&mut m, ",\"type\":\"string\"}");
    assert(m@ =~= "{\"description\":"@ + json_quoted(desc@) + ",\"enum\":"@ + json_string_list(vs)
        + ",\"type\":\"string\"}"@);
    string_of(m.as_slice())
}

} // verus!

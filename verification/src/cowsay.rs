//! The cowsay plugin's logic: reading a string field out of JSON
//! arguments, drawing the cow, and escaping the drawing into a JSON reply.

use vstd::prelude::*;
use crate::text::{
    first_match, trim_start_seq, lines, chars_of, string_of, find_from, slice_vec, trim_start,
    push_all, push_str, split_lines, views, owned,
};
use crate::fuzzy::{utf8_len};

verus! {

/// The characters of a JSON string body up to its closing quote, with the
/// escapes `\"`, `\n` and `\\` decoded and any other escape kept as it is.
pub open spec fn unescaped(s: Seq<char>) -> Seq<char>
    decreases s.len(),
{
    if s.len() == 0 {
        seq![]
    } else if s[0] == '"' {
        seq![]
    } else if s[0] == '\\' {
        if s.len() == 1 {
            seq![]
        } else {
            let c = s[1];
            let d: Seq<char> = if c == '"' {
                seq!['"']
            } else if c == 'n' {
                seq!['\n']
            } else if c == '\\' {
                seq!['\\']
            } else {
                seq!['\\', c]
            };
            d + unescaped(s.skip(2))
        }
    } else {
        seq![s[0]] + unescaped(s.skip(1))
    }
}

/// The string value of `key` in a JSON text, read loosely: after the first
/// `"key"`, past the next `:` and any whitespace, a string in quotes.
pub open spec fn json_string_field(json: Seq<char>, key: Seq<char>) -> Option<Seq<char>> {
    let search = seq!['"'] + key + seq!['"'];
    match first_match(json, search) {
        None => None,
        Some(ks) => {
            let after_key = json.skip(ks + search.len());
            match first_match(after_key, seq![':']) {
                None => None,
                Some(colon) => {
                    let after_colon = trim_start_seq(after_key.skip(colon + 1));
                    if after_colon.len() > 0 && after_colon[0] == '"' {
                        Some(unescaped(after_colon.skip(1)))
                    } else {
                        None
                    }
                },
            }
        },
    }
}

fn unescape_chars(s: &[char]) -> (r: Vec<char>)
    ensures
        r@ == unescaped(s@),
{
    let mut out: Vec<char> = Vec::new();
    let mut i: usize = 0;
    assert(s@.skip(0) =~= s@);
    while i < s.len()
        invariant
            i <= s.len(),
            unescaped(s@) == out@ + unescaped(s@.skip(i as int)),
        decreases s.len() - i,
    {
        let ghost t = s@.skip(i as int);
        let c = s[i];
        if c == '"' {
            assert(unescaped(t) == Seq::<char>::empty());
            assert(out@ + unescaped(t) =~= out@);
            return out;
        } else if c == '\\' {
            if i + 1 >= s.len() {
                assert(unescaped(t) == Seq::<char>::empty());
                assert(out@ + unescaped(t) =~= out@);
                return out;
            }
            let d = s[i + 1];
            let ghost before = out@;
            if d == '"' {
                out.push('"');
            } else if d == 'n' {
                out.push('\n');
            } else if d == '\\' {
                out.push('\\');
            } else {
                out.push('\\');
                out.push(d);
            }
            proof {
                assert(t.skip(2) =~= s@.skip(i + 2));
                assert(t[1] == d);
            }
            i += 2;
        } else {
            out.push(c);
            proof {
                assert(t.skip(1) =~= s@.skip(i + 1));
            }
            i += 1;
        }
    }
    assert(s@.skip(i as int) =~= Seq::<char>::empty());
    assert(out@ + unescaped(s@.skip(i as int)) =~= out@);
    out
}

/// Reads the string value of `key` out of a JSON text (loosely, without a
/// full parse).
pub fn extract_json_string(json: &str, key: &str) -> (r: Option<String>)
    ensures
        match r {
            Some(v) => json_string_field(json@, key@) == Some(v@),
            None => json_string_field(json@, key@) is None,
        },
{
    let j = chars_of(json);
    let jl = j.len();
    let mut search: Vec<char> = Vec::new();
    search.push('"');
    push_str(&mut search, key);
    search.push('"');
    assert(search@ =~= seq!['"'] + key@ + seq!['"']);
    assert(j@.skip(0) =~= j@);
    let ks = match find_from(j.as_slice(), search.as_slice(), 0) {
        None => {
            return None;
        },
        Some(ks) => ks,
    };
    let after_key = slice_vec(j.as_slice(), ks + search.len(), jl);
    assert(after_key@ =~= j@.skip(ks + search@.len()));
    let colon_pat: Vec<char> = vec![':'];
    assert(colon_pat@ =~= seq![':']);
    assert(after_key@.skip(0) =~= after_key@);
    let colon = match find_from(after_key.as_slice(), colon_pat.as_slice(), 0) {
        None => {
            return None;
        },
        Some(c) => c,
    };
    let rest = slice_vec(after_key.as_slice(), colon + 1, after_key.len());
    assert(rest@ =~= after_key@.skip(colon + 1));
    let after_colon = trim_start(rest.as_slice());
    if after_colon.len() > 0 && after_colon[0] == '"' {
        let content = slice_vec(after_colon.as_slice(), 1, after_colon.len());
        assert(content@ =~= after_colon@.skip(1));
        let v = unescape_chars(content.as_slice());
        Some(string_of(v.as_slice()))
    } else {
        None
    }
}

/// `n` copies of `c`.
pub open spec fn repeat(c: char, n: nat) -> Seq<char> {
    Seq::new(n, |i: int| c)
}

/// The largest UTF-8 length among the lines.
pub open spec fn widest(ls: Seq<Seq<char>>) -> nat
    decreases ls.len(),
{
    if ls.len() == 0 {
        0
    } else {
        let w = widest(ls.drop_last());
        let l = utf8_len(ls.last());
        if l > w {
            l
        } else {
            w
        }
    }
}

/// The framed lines of the speech bubble, each padded to the widest.
pub open spec fn bubble_lines(ls: Seq<Seq<char>>, width: nat) -> Seq<char>
    decreases ls.len(),
{
    if ls.len() == 0 {
        seq![]
    } else {
        bubble_lines(ls.drop_last(), width) + "| "@ + ls.last() + repeat(
            ' ',
            (width - utf8_len(ls.last())) as nat,
        ) + " |\n"@
    }
}

/// The cow under the bubble.
pub open spec fn cow_art() -> Seq<char> {
    "        \\   ^__^\n"@ + "         \\  (oo)\\_______\n"@ + "            (__)\\       )\\/\\\n"@
        + "                ||----w |\n"@ + "                ||     ||\n"@
}

/// The cow saying `text`: a bubble as wide as the widest line (counted in
/// bytes), one framed line per line of text, and the cow below.
pub open spec fn cow_says(text: Seq<char>) -> Seq<char> {
    let ls = lines(text);
    let w = widest(ls);
    seq![' '] + repeat('_', w + 2) + seq!['\n'] + bubble_lines(ls, w) + seq![' '] + repeat(
        '-',
        w + 2,
    ) + seq!['\n'] + cow_art()
}

fn push_repeat(out: &mut Vec<char>, c: char, n: u128)
    ensures
        final(out)@ == old(out)@ + repeat(c, n as nat),
{
    let mut k: u128 = 0;
    while k < n
        invariant
            k <= n,
            out@ == old(out)@ + repeat(c, k as nat),
        decreases n - k,
    {
        out.push(c);
        k += 1;
        assert(out@ =~= old(out)@ + repeat(c, k as nat));
    }
}

proof fn lemma_widest(ls: Seq<Seq<char>>, i: int)
    requires
        0 <= i < ls.len(),
    ensures
        utf8_len(ls[i]) <= widest(ls),
    decreases ls.len(),
{
    if i < ls.len() - 1 {
        lemma_widest(ls.drop_last(), i);
    }
}

/// Draws the cow saying `text`.
pub fn cowsay(text: &str) -> (r: String)
    ensures
        r@ == cow_says(text@),
{
    let t = chars_of(text);
    let ls = split_lines(t.as_slice());
    let ghost lv = views(ls@);
    assert(lv.len() == ls@.len());
    let mut widths: Vec<u128> = Vec::new();
    let mut w: u128 = 0;
    let mut i: usize = 0;
    while i < ls.len()
        invariant
            i <= ls.len(),
            lv == views(ls@),
            lv.len() == ls@.len(),
            w == widest(lv.take(i as int)),
            w <= 4 * usize::MAX,
            widths@.len() == i,
            forall|j: int| 0 <= j < i ==> widths@[j] == utf8_len(lv[j]),
        decreases ls.len() - i,
    {
        let li = ls[i].len();
        let l = crate::fuzzy::utf8_count_chars(ls[i].as_slice());
        proof {
            assert(lv.take(i + 1).drop_last() =~= lv.take(i as int));
            assert(lv.take(i + 1).last() == ls@[i as int]@);
        }
        widths.push(l);
        if l > w {
            w = l;
        }
        i += 1;
    }
    assert(lv.take(ls.len() as int) =~= lv);
    assert(w + 2 <= u128::MAX);
    let mut out: Vec<char> = Vec::new();
    out.push(' ');
    push_repeat(&mut out, '_', w + 2);
    out.push('\n');
    let ghost head = out@;
    let mut k: usize = 0;
    while k < ls.len()
        invariant
            k <= ls.len(),
            lv == views(ls@),
            lv.len() == ls@.len(),
            w == widest(lv),
            widths@.len() == ls@.len(),
            forall|j: int| 0 <= j < ls@.len() ==> widths@[j] == utf8_len(lv[j]),
            out@ == head + bubble_lines(lv.take(k as int), w as nat),
        decreases ls.len() - k,
    {
        proof {
            lemma_widest(lv, k as int);
            assert(lv.take(k + 1).drop_last() =~= lv.take(k as int));
            assert(lv.take(k + 1).last() == ls@[k as int]@);
        }
        push_str(&mut out, "| ");
        push_all(&mut out, ls[k].as_slice());
        push_repeat(&mut out, ' ', w - widths[k]);
        push_str(&mut out, " |\n");
        proof {
            assert(out@ =~= head + bubble_lines(lv.take(k + 1), w as nat));
        }
        k += 1;
    }
    assert(lv.take(ls.len() as int) =~= lv);
    out.push(' ');
    push_repeat(&mut out, '-', w + 2);
    out.push('\n');
    push_str(&mut out, "        \\   ^__^\n");
    push_str(&mut out, "         \\  (oo)\\_______\n");
    push_str(&mut out, "            (__)\\       )\\/\\\n");
    push_str(&mut out, "                ||----w |\n");
    push_str(&mut out, "                ||     ||\n");
    proof {
        assert(out@ =~= cow_says(text@));
    }
    string_of(out.as_slice())
}

/// How one character is written inside a JSON string by the plugin.
pub open spec fn json_escaped_char(c: char) -> Seq<char> {
    if c == '"' {
        seq!['\\', '"']
    } else if c == '\\' {
        seq!['\\', '\\']
    } else if c == '\n' {
        seq!['\\', 'n']
    } else if c == '\r' {
        seq!['\\', 'r']
    } else if c == '\t' {
        seq!['\\', 't']
    } else {
        seq![c]
    }
}

pub open spec fn json_escaped(s: Seq<char>) -> Seq<char>
    decreases s.len(),
{
    if s.len() == 0 {
        seq![]
    } else {
        json_escaped(s.drop_last()) + json_escaped_char(s.last())
    }
}

/// Escapes quotes, backslashes, newlines, carriage returns and tabs for a
/// JSON string.
pub fn escape_json(s: &str) -> (r: String)
    ensures
        r@ == json_escaped(s@),
{
    let c = chars_of(s);
    let mut out: Vec<char> = Vec::new();
    let mut i: usize = 0;
    while i < c.len()
        invariant
            i <= c.len(),
            out@ == json_escaped(c@.take(i as int)),
        decreases c.len() - i,
    {
        let ch = c[i];
        proof {
            assert(c@.take(i + 1).drop_last() =~= c@.take(i as int));
        }
        if ch == '"' {
            out.push('\\');
            out.push('"');
        } else if ch == '\\' {
            out.push('\\');
            out.push('\\');
        } else if ch == '\n' {
            out.push('\\');
            out.push('n');
        } else if ch == '\r' {
            out.push('\\');
            out.push('r');
        } else if ch == '\t' {
            out.push('\\');
            out.push('t');
        } else {
            out.push(ch);
        }
        proof {
            assert(out@ =~= json_escaped(c@.take(i + 1)));
        }
        i += 1;
    }
    assert(c@.take(c.len() as int) =~= c@);
    string_of(out.as_slice())
}

/// What the plugin says for a call: for `cowsay`, the cow saying the
/// `message` argument (or "Moo!" without one); for any other tool, the cow
/// saying that the tool is unknown. The reply is a JSON tool result.
pub open spec fn plugin_reply_text(tool: Seq<char>, args: Seq<char>) -> Seq<char> {
    let message = if tool == "cowsay"@ {
        match json_string_field(args, "message"@) {
            Some(m) => m,
            None => "Moo!"@,
        }
    } else {
        "Unknown tool: "@ + tool
    };
    "{\"content\":[{\"type\":\"text\",\"text\":\""@ + json_escaped(cow_says(message))
        + "\"}],\"isError\":false}"@
}

/// The plugin's reply to a call of `tool` with JSON arguments.
pub fn plugin_execute(tool: &str, args: &str) -> (r: String)
    ensures
        r@ == plugin_reply_text(tool@, args@),
{
    let message = if owned(tool) == owned("cowsay") {
        match extract_json_string(args, "message") {
            Some(m) => m,
            None => owned("Moo!"),
        }
    } else {
        let mut m: Vec<char> = Vec::new();
        push_str(&mut m, "Unknown tool: ");
        push_str(&mut m, tool);
        string_of(m.as_slice())
    };
    let drawn = cowsay(message.as_str());
    let escaped = escape_json(drawn.as_str());
    let mut out: Vec<char> = Vec::new();
    push_str(&mut out, "{\"content\":[{\"type\":\"text\",\"text\":\"");
    push_str(&mut out, escaped.as_str());
    push_str(&mut out, "\"}],\"isError\":false}");
    string_of(out.as_slice())
}

/// The tools the plugin describes: one, `cowsay`, with its schema.
pub open spec fn plugin_description() -> Seq<char> {
    "[{\"name\":\"cowsay\",\"description\":\"In ra mot con bo noi (cowsay) voi noi dung cho truoc\",\"input_schema\":{\"type\":\"object\",\"properties\":{\"message\":{\"type\":\"string\",\"description\":\"Noi dung de con bo noi\"}},\"required\":[\"message\"]}}]"@
}

/// The plugin's name, version and tool description.
pub fn plugin_describe() -> (r: (String, String, String))
    ensures
        r.0@ == "cowsay-wasm"@,
        r.1@ == "0.1.0"@,
        r.2@ == plugin_description(),
{
    (
        owned("cowsay-wasm"),
        owned("0.1.0"),
        owned(
            "[{\"name\":\"cowsay\",\"description\":\"In ra mot con bo noi (cowsay) voi noi dung cho truoc\",\"input_schema\":{\"type\":\"object\",\"properties\":{\"message\":{\"type\":\"string\",\"description\":\"Noi dung de con bo noi\"}},\"required\":[\"message\"]}}]",
        ),
    )
}

} // verus!

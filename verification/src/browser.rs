//! The browser tool's own logic: choosing the action, checking URLs,
//! reading the visible text and title of a page, previews, the scripts
//! sent to the headless browser, and decoding screenshots.

use vstd::prelude::*;
use base64::Engine;
use crate::text::{
    lines, join, trim_seq, decimal, starts_with_seq, chars_of, string_of, push_str, push_all,
    push_u64, split_lines, trim, join_vecs, views, slice_vec, starts_with, owned, str_views,
};
use crate::fuzzy::{utf8_len, utf8_count_chars};

verus! {

/// The actions of the browser tool.
pub enum BrowserAction {
    Navigate,
    GetHtml,
    Screenshot,
    Click,
    Type,
    ExecuteJs,
}

pub open spec fn action_named(a: BrowserAction) -> Seq<char> {
    match a {
        BrowserAction::Navigate => "navigate"@,
        BrowserAction::GetHtml => "get_html"@,
        BrowserAction::Screenshot => "screenshot"@,
        BrowserAction::Click => "click"@,
        BrowserAction::Type => "type"@,
        BrowserAction::ExecuteJs => "execute_js"@,
    }
}

pub open spec fn unknown_action_message(a: Seq<char>) -> Seq<char> {
    "Unknown action: "@ + a + ". Valid: navigate, get_html, screenshot, click, type, execute_js"@
}

/// The action a name stands for, or the message listing the valid ones.
pub fn parse_action(name: &str) -> (r: Result<BrowserAction, String>)
    ensures
        match r {
            Ok(a) => action_named(a) == name@,
            Err(m) => m@ == unknown_action_message(name@) && forall|a: BrowserAction|
                action_named(a) != name@,
        },
{
    let s = owned(name);
    if s == owned("navigate") {
        Ok(BrowserAction::Navigate)
    } else if s == owned("get_html") {
        Ok(BrowserAction::GetHtml)
    } else if s == owned("screenshot") {
        Ok(BrowserAction::Screenshot)
    } else if s == owned("click") {
        Ok(BrowserAction::Click)
    } else if s == owned("type") {
        Ok(BrowserAction::Type)
    } else if s == owned("execute_js") {
        Ok(BrowserAction::ExecuteJs)
    } else {
        let mut m: Vec<char> = Vec::new();
        push_str(&mut m, "Unknown action: ");
        push_str(&mut m, name);
        push_str(&mut m, ". Valid: navigate, get_html, screenshot, click, type, execute_js");
        Err(string_of(m.as_slice()))
    }
}

/// Checks the URL of a page fetch: present, and over HTTP or HTTPS.
pub fn validate_url(url: Option<&str>) -> (r: Result<String, String>)
    ensures
        match url {
            None => r matches Err(e) && e@ == "Missing: url (required for navigate/get_html)"@,
            Some(u) => if starts_with_seq(u@, "http://"@) || starts_with_seq(u@, "https://"@) {
                r matches Ok(v) && v@ == u@
            } else {
                r matches Err(e) && e@ == "Invalid URL: "@ + u@
                    + ". Must start with http:// or https://"@
            },
        },
{
    let u = match url {
        None => {
            return Err(owned("Missing: url (required for navigate/get_html)"));
        },
        Some(u) => u,
    };
    let c = chars_of(u);
    let http = chars_of("http://");
    let https = chars_of("https://");
    if !starts_with(c.as_slice(), http.as_slice()) && !starts_with(c.as_slice(), https.as_slice()) {
        let mut m: Vec<char> = Vec::new();
        push_str(&mut m, "Invalid URL: ");
        push_str(&mut m, u);
        push_str(&mut m, ". Must start with http:// or https://");
        return Err(string_of(m.as_slice()));
    }
    Ok(owned(u))
}

/// A preview of a text: its first `limit` characters, and, when its UTF-8
/// length exceeds `limit`, a note of that length.
pub open spec fn preview_of(text: Seq<char>, limit: nat) -> Seq<char> {
    let shown = if text.len() > limit {
        text.take(limit as int)
    } else {
        text
    };
    shown + if utf8_len(text) > limit {
        "\n\n... (truncated, "@ + decimal(utf8_len(text)) + " total chars)"@
    } else {
        seq![]
    }
}

/// The first `limit` characters of a text, and a note of its byte length
/// when that exceeds `limit`.
pub fn preview(text: &str, limit: usize) -> (s: String)
    requires
        utf8_len(text@) <= u64::MAX,
    ensures
        s@ == preview_of(text@, limit as nat),
{
    let c = chars_of(text);
    let shown = if c.len() > limit {
        slice_vec(c.as_slice(), 0, limit)
    } else {
        slice_vec(c.as_slice(), 0, c.len())
    };
    let n = utf8_count_chars(c.as_slice());
    let mut m: Vec<char> = Vec::new();
    push_all(&mut m, shown.as_slice());
    if n > limit as u128 {
        push_str(&mut m, "\n\n... (truncated, ");
        push_u64(&mut m, n as u64);
        push_str(&mut m, " total chars)");
    }
    proof {
        if c@.len() > limit {
            assert(shown@ =~= c@.take(limit as int));
        } else {
            assert(shown@ =~= c@);
        }
    }
    string_of(m.as_slice())
}

/// What a page shows: its title, then a preview of its text.
pub fn page_report(title: &str, text: &str) -> (s: String)
    requires
        utf8_len(text@) <= u64::MAX,
    ensures
        s@ == "Title: "@ + title@ + "\n\n"@ + preview_of(text@, 5000),
{
    let p = preview(text, 5000);
    let mut m: Vec<char> = Vec::new();
    push_str(&mut m, "Title: ");
    push_str(&mut m, title);
    push_str(&mut m, "\n\n");
    push_str(&mut m, p.as_str());
    string_of(m.as_slice())
}

/// The text nodes of the first `body` element of an HTML document, as
/// `scraper` parses it (`None` when there is no body).
pub uninterp spec fn html_body_texts(html: Seq<char>) -> Option<Seq<Seq<char>>>;

/// The text nodes of the first `title` element of an HTML document, as
/// `scraper` parses it (`None` when there is no title).
pub uninterp spec fn html_title_texts(html: Seq<char>) -> Option<Seq<Seq<char>>>;

/// Wraps `scraper::Html::parse_document` and a selection of `body`: the
/// text nodes of the first body element, in document order. The parse
/// depends on the text alone; HTML parsing is left to the name.
#[verifier::external_body]
fn body_texts(html: &str) -> (r: Option<Vec<String>>)
    ensures
        match r {
            Some(v) => html_body_texts(html@) == Some(str_views(v@)),
            None => html_body_texts(html@) is None,
        },
{
    let document = scraper::Html::parse_document(html);
    let sel = scraper::Selector::parse("body").unwrap();
    match document.select(&sel).next() {
        Some(b) => Some(b.text().map(String::from).collect()),
        None => None,
    }
}

/// Wraps `scraper::Html::parse_document` and a selection of `title`: the
/// text nodes of the first title element. The parse depends on the text
/// alone; HTML parsing is left to the name.
#[verifier::external_body]
fn title_texts(html: &str) -> (r: Option<Vec<String>>)
    ensures
        match r {
            Some(v) => html_title_texts(html@) == Some(str_views(v@)),
            None => html_title_texts(html@) is None,
        },
{
    let document = scraper::Html::parse_document(html);
    let sel = scraper::Selector::parse("title").unwrap();
    match document.select(&sel).next() {
        Some(b) => Some(b.text().map(String::from).collect()),
        None => None,
    }
}

/// The lines of a text trimmed, without the empty ones.
pub open spec fn nonblank_lines(ls: Seq<Seq<char>>) -> Seq<Seq<char>>
    decreases ls.len(),
{
    if ls.len() == 0 {
        seq![]
    } else {
        let rest = nonblank_lines(ls.drop_last());
        let t = trim_seq(ls.last());
        if t.len() > 0 {
            rest.push(t)
        } else {
            rest
        }
    }
}

/// The visible text of a page: the body's text nodes joined by spaces,
/// cut into lines, each trimmed, blank ones dropped, joined by newlines.
pub open spec fn visible_text(html: Seq<char>) -> Seq<char> {
    match html_body_texts(html) {
        None => seq![],
        Some(ts) => join(nonblank_lines(lines(join(ts, " "@))), "\n"@),
    }
}

/// The characters of each string.
pub fn strings_to_vecs(v: &Vec<String>) -> (r: Vec<Vec<char>>)
    ensures
        views(r@) == str_views(v@),
{
    let mut r: Vec<Vec<char>> = Vec::new();
    let mut i: usize = 0;
    while i < v.len()
        invariant
            i <= v.len(),
            views(r@) == str_views(v@).take(i as int),
        decreases v.len() - i,
    {
        let c = chars_of(v[i].as_str());
        proof {
            crate::text::lemma_views_push(r@, c);
            assert(str_views(v@).take(i + 1) =~= str_views(v@).take(i as int).push(c@));
        }
        r.push(c);
        i += 1;
    }
    assert(str_views(v@).take(v.len() as int) =~= str_views(v@));
    r
}

/// The non-blank lines of a text, trimmed, joined by newlines.
pub fn clean_lines(text: &[char]) -> (r: Vec<char>)
    ensures
        r@ == join(nonblank_lines(lines(text@)), "\n"@),
{
    let ls = split_lines(text);
    let mut kept: Vec<Vec<char>> = Vec::new();
    let mut i: usize = 0;
    while i < ls.len()
        invariant
            i <= ls.len(),
            views(kept@) == nonblank_lines(views(ls@).take(i as int)),
        decreases ls.len() - i,
    {
        proof {
            assert(views(ls@).take(i + 1).drop_last() =~= views(ls@).take(i as int));
            assert(views(ls@).take(i + 1).last() == ls@[i as int]@);
        }
        let t = trim(ls[i].as_slice());
        if t.len() > 0 {
            proof {
                crate::text::lemma_views_push(kept@, t);
            }
            kept.push(t);
        }
        i += 1;
    }
    proof {
        assert(views(ls@).take(ls.len() as int) =~= views(ls@));
    }
    let nl = chars_of("\n");
    join_vecs(&kept, nl.as_slice())
}

/// The visible text of a page.
pub fn extract_text(html: &str) -> (s: String)
    ensures
        s@ == visible_text(html@),
{
    match body_texts(html) {
        None => String::new(),
        Some(ts) => {
            let parts = strings_to_vecs(&ts);
            let sp = chars_of(" ");
            let joined = join_vecs(&parts, sp.as_slice());
            let r = clean_lines(joined.as_slice());
            string_of(r.as_slice())
        },
    }
}

/// The title of a page: its title element's text, trimmed.
pub open spec fn page_title(html: Seq<char>) -> Seq<char> {
    match html_title_texts(html) {
        None => seq![],
        Some(ts) => trim_seq(join(ts, seq![])),
    }
}

/// The title of a page.
pub fn extract_title(html: &str) -> (s: String)
    ensures
        s@ == page_title(html@),
{
    match title_texts(html) {
        None => String::new(),
        Some(ts) => {
            let parts = strings_to_vecs(&ts);
            let none: Vec<char> = Vec::new();
            let joined = join_vecs(&parts, none.as_slice());
            let t = trim(joined.as_slice());
            string_of(t.as_slice())
        },
    }
}

/// A CSS selector quoted for a single-quoted JavaScript string: each `\`
/// doubled, then each `'` escaped.
pub open spec fn js_quoted(s: Seq<char>) -> Seq<char>
    decreases s.len(),
{
    if s.len() == 0 {
        seq![]
    } else {
        let c = s.last();
        js_quoted(s.drop_last()) + if c == '\\' {
            seq!['\\', '\\']
        } else if c == '\'' {
            seq!['\\', '\'']
        } else {
            seq![c]
        }
    }
}

fn quote_selector(s: &str) -> (r: Vec<char>)
    ensures
        r@ == js_quoted(s@),
{
    let c = chars_of(s);
    let mut out: Vec<char> = Vec::new();
    let mut i: usize = 0;
    while i < c.len()
        invariant
            i <= c.len(),
            out@ == js_quoted(c@.take(i as int)),
        decreases c.len() - i,
    {
        proof {
            assert(c@.take(i + 1).drop_last() =~= c@.take(i as int));
        }
        let ch = c[i];
        if ch == '\\' {
            out.push('\\');
            out.push('\\');
        } else if ch == '\'' {
            out.push('\\');
            out.push('\'');
        } else {
            out.push(ch);
        }
        proof {
            assert(out@ =~= js_quoted(c@.take(i + 1)));
        }
        i += 1;
    }
    assert(c@.take(c.len() as int) =~= c@);
    out
}

/// The script that finds the centre of the element a selector picks.
pub open spec fn click_script_text(selector: Seq<char>) -> Seq<char> {
    "(function(){ const el = document.querySelector('"@ + js_quoted(selector)
        + "'); if(!el) return null; const r = el.getBoundingClientRect(); return {x: r.left + r.width/2, y: r.top + r.height/2}; })()"@
}

/// The script that locates the element to click.
pub fn click_script(selector: &str) -> (s: String)
    ensures
        s@ == click_script_text(selector@),
{
    let q = quote_selector(selector);
    let mut m: Vec<char> = Vec::new();
    push_str(&mut m, "(function(){ const el = document.querySelector('");
    push_all(&mut m, q.as_slice());
    push_str(
        &mut m,
        "'); if(!el) return null; const r = el.getBoundingClientRect(); return {x: r.left + r.width/2, y: r.top + r.height/2}; })()",
    );
    string_of(m.as_slice())
}

/// A string as `serde_json` writes it: in quotes, with `"` and `\`
/// escaped, the control characters with short escapes written so, and the
/// other control characters below 0x20 as `\u00` and two lower-case hex
/// digits.
pub open spec fn json_quoted_char(c: char) -> Seq<char> {
    let u = c as u32;
    if c == '"' {
        seq!['\\', '"']
    } else if c == '\\' {
        seq!['\\', '\\']
    } else if u == 8 {
        seq!['\\', 'b']
    } else if u == 9 {
        seq!['\\', 't']
    } else if u == 10 {
        seq!['\\', 'n']
    } else if u == 12 {
        seq!['\\', 'f']
    } else if u == 13 {
        seq!['\\', 'r']
    } else if u < 0x20 {
        seq!['\\', 'u', '0', '0', lower_hex((u / 16) as int), lower_hex((u % 16) as int)]
    } else {
        seq![c]
    }
}

pub open spec fn lower_hex(d: int) -> char {
    if d < 10 {
        crate::text::digit(d)
    } else if d == 10 {
        'a'
    } else if d == 11 {
        'b'
    } else if d == 12 {
        'c'
    } else if d == 13 {
        'd'
    } else if d == 14 {
        'e'
    } else {
        'f'
    }
}

pub open spec fn json_quoted_body(s: Seq<char>) -> Seq<char>
    decreases s.len(),
{
    if s.len() == 0 {
        seq![]
    } else {
        json_quoted_body(s.drop_last()) + json_quoted_char(s.last())
    }
}

pub open spec fn json_quoted(s: Seq<char>) -> Seq<char> {
    seq!['"'] + json_quoted_body(s) + seq!['"']
}

/// Wraps `serde_json::to_string` on a string: the JSON string literal, as
/// `serde_json` escapes it (quotes and backslashes, short escapes for
/// backspace, tab, newline, form feed and carriage return, `\u00XX` with
/// lower-case hex for the other control characters below 0x20).
#[verifier::external_body]
pub(crate) fn json_string(s: &str) -> (r: String)
    ensures
        r@ == json_quoted(s@),
{
    serde_json::to_string(s).unwrap_or_default()
}

/// The script that fills an input: focus it, set its value, and fire the
/// `input` and `change` events.
pub open spec fn fill_script_text(selector: Seq<char>, value: Seq<char>) -> Seq<char> {
    "(function(){ const el = document.querySelector('"@ + js_quoted(selector)
        + "'); if(!el) return; el.focus(); el.value = "@ + json_quoted(value)
        + "; el.dispatchEvent(new Event('input', { bubbles: true })); el.dispatchEvent(new Event('change', { bubbles: true })); })()"@
}

/// The script that types `value` into the element a selector picks.
pub fn fill_script(selector: &str, value: &str) -> (s: String)
    ensures
        s@ == fill_script_text(selector@, value@),
{
    let q = quote_selector(selector);
    let v = json_string(value);
    let mut m: Vec<char> = Vec::new();
    push_str(&mut m, "(function(){ const el = document.querySelector('");
    push_all(&mut m, q.as_slice());
    push_str(&mut m, "'); if(!el) return; el.focus(); el.value = ");
    push_str(&mut m, v.as_str());
    push_str(
        &mut m,
        "; el.dispatchEvent(new Event('input', { bubbles: true })); el.dispatchEvent(new Event('change', { bubbles: true })); })()",
    );
    string_of(m.as_slice())
}

/// What `base64`'s standard engine decodes a text to: the bytes, or the
/// message of its error.
pub uninterp spec fn base64_standard_decode(s: Seq<char>) -> Result<Seq<u8>, Seq<char>>;

/// Wraps `base64::engine::general_purpose::STANDARD.decode`: the bytes a
/// standard, padded base64 text stands for, or the decoder's error
/// message. Both depend on the text alone; the alphabet and the error
/// wording are left to the name.
#[verifier::external_body]
fn base64_decode(s: &str) -> (r: Result<Vec<u8>, String>)
    ensures
        match r {
            Ok(v) => base64_standard_decode(s@) == Ok::<Seq<u8>, Seq<char>>(v@),
            Err(e) => base64_standard_decode(s@) == Err::<Seq<u8>, Seq<char>>(e@),
        },
{
    base64::engine::general_purpose::STANDARD.decode(s).map_err(|e| e.to_string())
}

/// The bytes of a screenshot from the `data` field of the browser's reply.
pub fn decode_screenshot(data: Option<&str>) -> (r: Result<Vec<u8>, String>)
    ensures
        match data {
            None => r matches Err(e) && e@ == "No screenshot data in CDP response"@,
            Some(d) => match base64_standard_decode(d@) {
                Ok(bytes) => r matches Ok(v) && v@ == bytes,
                Err(msg) => r matches Err(e) && e@ == "Base64 decode failed: "@ + msg,
            },
        },
{
    match data {
        None => Err(owned("No screenshot data in CDP response")),
        Some(d) => match base64_decode(d) {
            Ok(v) => Ok(v),
            Err(msg) => {
                let mut m: Vec<char> = Vec::new();
                push_str(&mut m, "Base64 decode failed: ");
                push_str(&mut m, msg.as_str());
                Err(string_of(m.as_slice()))
            },
        },
    }
}

/// The report of a saved screenshot.
pub fn screenshot_report(url: &str, path: &str, size: usize) -> (s: String)
    ensures
        s@ == "Screenshot captured for "@ + url@ + "\nFile: "@ + path@ + "\nSize: "@ + decimal(
            size as nat,
        ) + " bytes"@,
{
    let mut m: Vec<char> = Vec::new();
    push_str(&mut m, "Screenshot captured for ");
    push_str(&mut m, url);
    push_str(&mut m, "\nFile: ");
    push_str(&mut m, path);
    push_str(&mut m, "\nSize: ");
    push_u64(&mut m, size as u64);
    push_str(&mut m, " bytes");
    string_of(m.as_slice())
}

/// Where a screenshot taken at `secs` (since the epoch) is saved.
pub fn screenshot_path(secs: u64) -> (s: String)
    ensures
        s@ == "/tmp/screenshot_"@ + decimal(secs as nat) + ".png"@,
{
    let mut m: Vec<char> = Vec::new();
    push_str(&mut m, "/tmp/screenshot_");
    push_u64(&mut m, secs);
    push_str(&mut m, ".png");
    string_of(m.as_slice())
}

/// The error a browser reply carries, with its message (or `unknown`).
pub fn cdp_error(message: Option<&str>) -> (e: String)
    ensures
        e@ == "CDP error: "@ + match message {
            Some(m) => m@,
            None => "unknown"@,
        },
{
    let mut m: Vec<char> = Vec::new();
    push_str(&mut m, "CDP error: ");
    match message {
        Some(x) => push_str(&mut m, x),
        None => push_str(&mut m, "unknown"),
    }
    string_of(m.as_slice())
}

/// The session of a new page: from a `Target.attachedToTarget` event that
/// carries a session id.
pub fn attached_session(method: Option<&str>, session_id: Option<&str>) -> (r: Option<String>)
    ensures
        match r {
            Some(s) => (method matches Some(m) && m@ == "Target.attachedToTarget"@) && (
            session_id matches Some(x) && s@ == x@),
            None => !(method matches Some(m) && m@ == "Target.attachedToTarget"@) || session_id is None,
        },
{
    match method {
        Some(m) => {
            if owned(m) == owned("Target.attachedToTarget") {
                match session_id {
                    Some(x) => Some(owned(x)),
                    None => None,
                }
            } else {
                None
            }
        },
        None => None,
    }
}

/// The messages of the other browser actions.
pub fn clicked_message(selector: &str, url: &str) -> (s: String)
    ensures
        s@ == "Clicked element '"@ + selector@ + "' on "@ + url@,
{
    let mut m: Vec<char> = Vec::new();
    push_str(&mut m, "Clicked element '");
    push_str(&mut m, selector);
    push_str(&mut m, "' on ");
    push_str(&mut m, url);
    string_of(m.as_slice())
}

pub fn typed_message(value: &str, selector: &str, url: &str) -> (s: String)
    ensures
        s@ == "Typed '"@ + value@ + "' into element '"@ + selector@ + "' on "@ + url@,
{
    let mut m: Vec<char> = Vec::new();
    push_str(&mut m, "Typed '");
    push_str(&mut m, value);
    push_str(&mut m, "' into element '");
    push_str(&mut m, selector);
    push_str(&mut m, "' on ");
    push_str(&mut m, url);
    string_of(m.as_slice())
}

pub fn js_result_message(result: &str) -> (s: String)
    ensures
        s@ == "JavaScript result:\n"@ + result@,
{
    let mut m: Vec<char> = Vec::new();
    push_str(&mut m, "JavaScript result:\n");
    push_str(&mut m, result);
    string_of(m.as_slice())
}

} // verus!

use agents_rust::browser::{cdp_error, attached_session, clicked_message, typed_message, js_result_message};
use agents_rust::dashboard::{http_port, http_response};
use agents_rust::web_search::{urlencoding, extract_between, strip_html_tags, parse_ddg_results, format_search_results, SearchResult};
use agents_rust::browser::{
    parse_action, BrowserAction, validate_url, preview, page_report, extract_text, extract_title,
    click_script, fill_script, decode_screenshot, screenshot_report, screenshot_path,
};
use agents_rust::research::{research_depth, result_urls, digest_page, web_section, code_section, research_sections, synthesis_prompt, join_sections};

#[test]
fn url_encoding_of_queries() {
    assert_eq!(urlencoding("a b&c"), "a+b%26c");
    assert_eq!(urlencoding("~-_.Az09"), "~-_.Az09");
    assert_eq!(urlencoding("é"), "%E9");
    assert_eq!(urlencoding(""), "");
}

#[test]
fn between_markers() {
    assert_eq!(extract_between("<a>x</a>", "<a>", "</a>"), Some("x".to_string()));
    assert_eq!(extract_between("<a>x</a>", "<a>", ""), Some("x</a>".to_string()));
    assert_eq!(extract_between("<a>x", "<a>", "</a>"), None);
    assert_eq!(extract_between("x", "<b>", ""), None);
}

#[test]
fn html_tags_are_stripped() {
    assert_eq!(strip_html_tags("  <b>Hi</b> there "), "Hi there");
    assert_eq!(strip_html_tags("a > b"), "a  b");
    assert_eq!(strip_html_tags("<p"), "");
}

#[test]
fn search_page_results() {
    let html = "<div class=\"result__body\"><a class=\"result__a\" href=\"https://x.com\">X <b>site</b></a><a class=\"result__snippet\" href=\"y\">Snip</a></div>";
    let rs = parse_ddg_results(html, 5).unwrap();
    assert_eq!(rs.len(), 1);
    assert_eq!(rs[0].title, "X site");
    assert_eq!(rs[0].url, "https://x.com");
    assert_eq!(rs[0].snippet, "Snip");
    assert_eq!(format_search_results(&rs), "1. [X site](https://x.com)\n   Snip");
    assert_eq!(parse_ddg_results(html, 0).unwrap().len(), 0);
}

#[test]
fn search_page_fallback_layout() {
    let html = "<h2 class=\"result__title\"><a href=\"https://a.b\">Alpha</a></h2>";
    let rs = parse_ddg_results(html, 3).unwrap();
    assert_eq!(rs.len(), 1);
    assert_eq!(rs[0].title, "Alpha");
    assert_eq!(rs[0].url, "https://a.b");
    assert_eq!(rs[0].snippet, "");
}

#[test]
fn search_results_are_numbered() {
    let rs = vec![
        SearchResult { title: "A".into(), url: "u1".into(), snippet: "s1".into() },
        SearchResult { title: "B".into(), url: "u2".into(), snippet: "s2".into() },
    ];
    assert_eq!(format_search_results(&rs), "1. [A](u1)\n   s1\n\n2. [B](u2)\n   s2");
}

#[test]
fn browser_actions() {
    assert!(matches!(parse_action("click"), Ok(BrowserAction::Click)));
    assert!(matches!(parse_action("execute_js"), Ok(BrowserAction::ExecuteJs)));
    assert_eq!(
        parse_action("fly").err(),
        Some("Unknown action: fly. Valid: navigate, get_html, screenshot, click, type, execute_js".to_string())
    );
}

#[test]
fn urls_are_checked() {
    assert_eq!(validate_url(Some("https://a.b")), Ok("https://a.b".to_string()));
    assert_eq!(
        validate_url(Some("ftp://x")),
        Err("Invalid URL: ftp://x. Must start with http:// or https://".to_string())
    );
    assert_eq!(validate_url(None), Err("Missing: url (required for navigate/get_html)".to_string()));
}

#[test]
fn previews_cut_long_text() {
    assert_eq!(preview("short", 10), "short");
    assert_eq!(preview("abcdef", 3), "abc\n\n... (truncated, 6 total chars)");
    assert_eq!(page_report("T", "body"), "Title: T\n\nbody");
}

#[test]
fn page_text_and_title() {
    let html = "<html><head><title> My Page </title></head><body><p>one</p>\n<p>two</p></body></html>";
    assert_eq!(extract_title(html), "My Page");
    assert_eq!(extract_text(html), "one\ntwo");
    assert_eq!(extract_title("<html><body>x</body></html>"), "");
}

#[test]
fn scripts_quote_their_inputs() {
    let c = click_script("a[name='q']");
    assert!(c.starts_with("(function(){ const el = document.querySelector('a[name=\\'q\\']'); if(!el) return null;"));
    let f = fill_script("#i", "x\"y");
    assert!(f.contains("el.value = \"x\\\"y\";"));
}

#[test]
fn screenshots_decode() {
    assert_eq!(decode_screenshot(Some("aGk=")), Ok(vec![104u8, 105u8]));
    assert!(decode_screenshot(Some("!!")).unwrap_err().starts_with("Base64 decode failed: "));
    assert_eq!(decode_screenshot(None), Err("No screenshot data in CDP response".to_string()));
    assert_eq!(screenshot_path(12), "/tmp/screenshot_12.png");
    assert_eq!(screenshot_report("u", "/tmp/s.png", 3), "Screenshot captured for u\nFile: /tmp/s.png\nSize: 3 bytes");
}

#[test]
fn research_pieces() {
    assert_eq!(research_depth(None), 1);
    assert_eq!(research_depth(Some(5)), 2);
    assert_eq!(research_depth(Some(0)), 0);
    let body = "<a href=\"https://a.com\">x</a><a href=\"https://duckduckgo.com/y\">z</a><a href=\"/rel\">r</a><a href=\"http://b.org\">w</a><a href=\"https://c.net\">";
    assert_eq!(result_urls(body), vec!["https://a.com".to_string(), "http://b.org".to_string()]);
    assert_eq!(digest_page("u", "<body><p>hi</p></body>"), "**u**\nhi");
    assert_eq!(web_section(&vec![]), "*No content*");
    assert_eq!(web_section(&vec!["a".into(), "b".into()]), "a\n\n---\n\nb");
    assert_eq!(code_section(&vec![]), "*Empty*");
    assert_eq!(code_section(&vec!["a".into(), "b".into()]), "a\n---\nb");
    let s = research_sections("q", Ok("code".into()), Some(Err("down".into())));
    assert_eq!(join_sections(&s), "# Research: q\n\n\n## 🔎 Code\n\ncode\n\n## 🌐 Web\n\n*Fetch error: down*\n\n---\n## 🧠 Synthesis\n");
    assert_eq!(synthesis_prompt("q", "raw"), "Query: q\n---\nraw\n---\nSynthesize:");
}

#[test]
fn browser_protocol_messages() {
    assert_eq!(cdp_error(Some("No node")), "CDP error: No node");
    assert_eq!(cdp_error(None), "CDP error: unknown");
    assert_eq!(attached_session(Some("Target.attachedToTarget"), Some("S1")), Some("S1".to_string()));
    assert_eq!(attached_session(Some("Target.attachedToTarget"), None), None);
    assert_eq!(attached_session(Some("Page.loadEventFired"), Some("S1")), None);
    assert_eq!(attached_session(None, Some("S1")), None);
    assert_eq!(clicked_message("#go", "http://a"), "Clicked element '#go' on http://a");
    assert_eq!(typed_message("hi", "#q", "http://a"), "Typed 'hi' into element '#q' on http://a");
    assert_eq!(js_result_message("42"), "JavaScript result:\n42");
}

#[test]
fn dashboard_http_answer() {
    assert_eq!(http_port(3000), 3001);
    assert_eq!(
        http_response("<p>é</p>"),
        "HTTP/1.1 200 OK\r\nContent-Type: text/html; charset=utf-8\r\nContent-Length: 9\r\nConnection: close\r\n\r\n<p>é</p>"
    );
}

fn percent_decode(t: &str) -> String {
    let b: Vec<char> = t.chars().collect();
    let mut out = String::new();
    let mut i = 0;
    while i < b.len() {
        if b[i] == '%' && i + 2 < b.len() {
            let v = u8::from_str_radix(&format!("{}{}", b[i + 1], b[i + 2]), 16).unwrap();
            out.push(v as char);
            i += 3;
        } else if b[i] == '+' {
            out.push(' ');
            i += 1;
        } else {
            out.push(b[i]);
            i += 1;
        }
    }
    out
}

#[test]
fn url_encoding_round_trips_on_ascii() {
    for q in ["a b&c", "rust + verus = 100%", "~-_.Az09", "q=1/2?x#y", ""] {
        assert_eq!(percent_decode(&urlencoding(q)), q);
    }
    assert_eq!(urlencoding("a b&c"), "a+b%26c");
}

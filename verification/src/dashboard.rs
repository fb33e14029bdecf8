//! The dashboard's own logic: its ports and the HTTP answer that serves
//! its page.

use vstd::prelude::*;
use crate::text::{decimal, chars_of, string_of, push_str, push_u64};
use crate::fuzzy::{utf8_len, utf8_size};

verus! {

/// The HTTP port that serves the page: the one after the WebSocket port.
pub fn http_port(ws_port: u16) -> (p: u16)
    requires
        ws_port < u16::MAX,
    ensures
        p == ws_port + 1,
{
    ws_port + 1
}

/// The HTTP answer carrying a page: status, type, byte length, closing.
pub open spec fn page_response(html: Seq<char>) -> Seq<char> {
    "HTTP/1.1 200 OK\r\nContent-Type: text/html; charset=utf-8\r\nContent-Length: "@ + decimal(
        utf8_len(html),
    ) + "\r\nConnection: close\r\n\r\n"@ + html
}

/// The HTTP answer carrying a page.
pub fn http_response(html: &str) -> (s: String)
    requires
        utf8_len(html@) <= usize::MAX,
    ensures
        s@ == page_response(html@),
{
    let n = utf8_size(html);
    let mut m: Vec<char> = Vec::new();
    push_str(&mut m, "HTTP/1.1 200 OK\r\nContent-Type: text/html; charset=utf-8\r\nContent-Length: ");
    push_u64(&mut m, n as u64);
    push_str(&mut m, "\r\nConnection: close\r\n\r\n");
    push_str(&mut m, html);
    string_of(m.as_slice())
}

} // verus!

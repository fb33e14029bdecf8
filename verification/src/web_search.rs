//! Web search support: encoding a query for a URL, and reading results out
//! of a search engine's HTML page.

use vstd::prelude::*;
use crate::fuzzy::{utf8_len, utf8_width, lemma_utf8_len_at_least};
use crate::text::{
    first_match, trim_seq, trim, chars_of, string_of, find_from, slice_vec, push_all, push_str,
    push_u64, digit, decimal, views, join, join_vecs, lemma_first_match_some, match_at,
};

verus! {

// ---------------------------------------------------------------------------
// URL encoding of a query
// ---------------------------------------------------------------------------

/// Characters a query keeps as they are.
pub open spec fn url_unreserved(c: char) -> bool {
    let u = c as u32;
    (97 <= u <= 122) || (65 <= u <= 90) || (48 <= u <= 57) || c == '-' || c == '_' || c == '.'
        || c == '~'
}

/// An upper-case hexadecimal digit.
pub open spec fn hex_digit(d: int) -> char {
    if d < 10 {
        digit(d)
    } else if d == 10 {
        'A'
    } else if d == 11 {
        'B'
    } else if d == 12 {
        'C'
    } else if d == 13 {
        'D'
    } else if d == 14 {
        'E'
    } else {
        'F'
    }
}

/// How one character is written in a query: unreserved ones as they are,
/// a space as `+`, any other as `%` and two hex digits of the low byte of
/// its code (the code cut to 8 bits, as `char as u8` does).
pub open spec fn encode_char(c: char) -> Seq<char> {
    if url_unreserved(c) {
        seq![c]
    } else if c == ' ' {
        seq!['+']
    } else {
        let b = (c as u32) % 256;
        seq!['%', hex_digit((b / 16) as int), hex_digit((b % 16) as int)]
    }
}

/// A query written for a URL, character by character.
pub open spec fn url_encoded(s: Seq<char>) -> Seq<char>
    decreases s.len(),
{
    if s.len() == 0 {
        seq![]
    } else {
        url_encoded(s.drop_last()) + encode_char(s.last())
    }
}

fn hex_char(d: u32) -> (c: char)
    requires
        d < 16,
    ensures
        c == hex_digit(d as int),
{
    match d {
        0 => '0',
        1 => '1',
        2 => '2',
        3 => '3',
        4 => '4',
        5 => '5',
        6 => '6',
        7 => '7',
        8 => '8',
        9 => '9',
        10 => 'A',
        11 => 'B',
        12 => 'C',
        13 => 'D',
        14 => 'E',
        _ => 'F',
    }
}

/// Encodes a query for a URL.
pub fn urlencoding(s: &str) -> (r: String)
    ensures
        r@ == url_encoded(s@),
{
    let c = chars_of(s);
    let mut out: Vec<char> = Vec::new();
    let mut i: usize = 0;
    while i < c.len()
        invariant
            i <= c.len(),
            out@ == url_encoded(c@.take(i as int)),
        decreases c.len() - i,
    {
        let ch = c[i];
        let u = ch as u32;
        proof {
            assert(c@.take(i + 1).drop_last() =~= c@.take(i as int));
        }
        if (97 <= u && u <= 122) || (65 <= u && u <= 90) || (48 <= u && u <= 57) || ch == '-'
            || ch == '_' || ch == '.' || ch == '~' {
            out.push(ch);
        } else if ch == ' ' {
            out.push('+');
        } else {
            let b = u % 256;
            out.push('%');
            out.push(hex_char(b / 16));
            out.push(hex_char(b % 16));
        }
        proof {
            assert(out@ =~= url_encoded(c@.take(i + 1)));
        }
        i += 1;
    }
    assert(c@.take(c.len() as int) =~= c@);
    string_of(out.as_slice())
}

/// The value of a hexadecimal digit (either case); 0 for any other
/// character.
pub open spec fn hex_value(c: char) -> int {
    if '0' <= c && c <= '9' {
        c as int - '0' as int
    } else if 'A' <= c && c <= 'F' {
        c as int - 'A' as int + 10
    } else if 'a' <= c && c <= 'f' {
        c as int - 'a' as int + 10
    } else {
        0
    }
}

/// Percent-decoding of a query, reading `+` as a space; each `%XY` stands
/// for the character with code `0xXY` (the ASCII reading of the byte).
pub open spec fn url_decoded(t: Seq<char>) -> Seq<char>
    decreases t.len(),
{
    if t.len() == 0 {
        seq![]
    } else if t[0] == '%' && t.len() >= 3 {
        seq![(16 * hex_value(t[1]) + hex_value(t[2])) as char] + url_decoded(t.skip(3))
    } else if t[0] == '+' {
        seq![' '] + url_decoded(t.skip(1))
    } else {
        seq![t[0]] + url_decoded(t.skip(1))
    }
}

/// Every character of a text is ASCII.
pub open spec fn is_ascii_query(s: Seq<char>) -> bool {
    forall|i: int| 0 <= i < s.len() ==> (#[trigger] s[i] as u32) < 0x80
}

proof fn lemma_encoded_front(s: Seq<char>)
    requires
        s.len() > 0,
    ensures
        url_encoded(s) == encode_char(s[0]) + url_encoded(s.skip(1)),
    decreases s.len(),
{
    if s.len() == 1 {
        assert(s.drop_last() =~= Seq::<char>::empty());
        assert(s.skip(1) =~= Seq::<char>::empty());
        assert(url_encoded(s.drop_last()) =~= Seq::<char>::empty());
        assert(url_encoded(s) =~= encode_char(s[0]));
    } else {
        let t = s.drop_last();
        lemma_encoded_front(t);
        assert(t.skip(1) =~= s.skip(1).drop_last());
        assert(s.skip(1).last() == s.last());
        assert(t[0] == s[0]);
    }
}

proof fn lemma_hex_round_trip(d: int)
    requires
        0 <= d < 16,
    ensures
        hex_value(hex_digit(d)) == d,
{
    assert(0 <= d < 16);
}

proof fn lemma_decode_char(c: char, rest: Seq<char>)
    requires
        (c as u32) < 0x80,
    ensures
        url_decoded(encode_char(c) + rest) == seq![c] + url_decoded(rest),
{
    let t = encode_char(c) + rest;
    if url_unreserved(c) {
        assert(t[0] == c);
        assert(t.skip(1) =~= rest);
    } else if c == ' ' {
        assert(t[0] == '+');
        assert(t.skip(1) =~= rest);
    } else {
        let b = (c as u32) % 256;
        assert(b == c as u32);
        lemma_hex_round_trip((b / 16) as int);
        lemma_hex_round_trip((b % 16) as int);
        assert(t[0] == '%');
        assert(t.skip(3) =~= rest);
        assert(16 * hex_value(t[1]) + hex_value(t[2]) == b);
        assert(((16 * hex_value(t[1]) + hex_value(t[2])) as char) == c);
    }
}

/// Decoding an encoded ASCII query gives the query back.
pub proof fn lemma_url_round_trip(s: Seq<char>)
    requires
        is_ascii_query(s),
    ensures
        url_decoded(url_encoded(s)) == s,
    decreases s.len(),
{
    if s.len() > 0 {
        let t = s.skip(1);
        assert forall|i: int| 0 <= i < t.len() implies (#[trigger] t[i] as u32) < 0x80 by {
            assert(t[i] == s[i + 1]);
        }
        lemma_url_round_trip(t);
        lemma_encoded_front(s);
        assert((s[0] as u32) < 0x80);
        lemma_decode_char(s[0], url_encoded(t));
        assert(seq![s[0]] + t =~= s);
    }
}

/// The bytes a percent-decoder reads out of an encoded query: each `%XY`
/// is the byte `0xXY`, `+` is a space, and any other character stands for
/// its own (ASCII) code.
pub open spec fn url_decoded_bytes(t: Seq<char>) -> Seq<u8>
    decreases t.len(),
{
    if t.len() == 0 {
        seq![]
    } else if t[0] == '%' && t.len() >= 3 {
        seq![(16 * hex_value(t[1]) + hex_value(t[2])) as u8] + url_decoded_bytes(t.skip(3))
    } else if t[0] == '+' {
        seq![32u8] + url_decoded_bytes(t.skip(1))
    } else {
        seq![(t[0] as u32) as u8] + url_decoded_bytes(t.skip(1))
    }
}

proof fn lemma_decode_byte(c: char, rest: Seq<char>)
    ensures
        url_decoded_bytes(encode_char(c) + rest) == seq![((c as u32) % 256) as u8]
            + url_decoded_bytes(rest),
{
    let t = encode_char(c) + rest;
    let b = (c as u32) % 256;
    if url_unreserved(c) {
        assert(t[0] == c);
        assert(t.skip(1) =~= rest);
        assert((c as u32) < 128);
        assert(b == c as u32);
    } else if c == ' ' {
        assert(t[0] == '+');
        assert(t.skip(1) =~= rest);
    } else {
        lemma_hex_round_trip((b / 16) as int);
        lemma_hex_round_trip((b % 16) as int);
        assert(t[0] == '%');
        assert(t.skip(3) =~= rest);
        assert(16 * hex_value(t[1]) + hex_value(t[2]) == b);
    }
}

proof fn lemma_ascii_iff_utf8_len(s: Seq<char>)
    ensures
        is_ascii_query(s) == (utf8_len(s) == s.len()),
    decreases s.len(),
{
    if s.len() > 0 {
        let t = s.drop_last();
        lemma_ascii_iff_utf8_len(t);
        lemma_utf8_len_at_least(t);
        if is_ascii_query(s) {
            assert forall|i: int| 0 <= i < t.len() implies (#[trigger] t[i] as u32) < 0x80 by {
                assert(t[i] == s[i]);
            }
            assert((s[s.len() - 1] as u32) < 0x80);
        }
        if utf8_len(s) == s.len() {
            assert(utf8_width(s.last()) == 1);
            assert forall|i: int| 0 <= i < s.len() implies (#[trigger] s[i] as u32) < 0x80 by {
                if i < t.len() {
                    assert(t[i] == s[i]);
                }
            }
        }
    }
}

/// What a percent-decoder reads back from an encoded query is one byte per
/// character, the low byte of its code. Read as UTF-8 this gives the query
/// back exactly when the query is ASCII: then the bytes are the query's
/// codes, and otherwise the query's UTF-8 form is longer than one byte per
/// character.
pub proof fn lemma_url_bytes(s: Seq<char>)
    ensures
        url_decoded_bytes(url_encoded(s)) == Seq::new(s.len(), |i: int| ((s[i] as u32) % 256) as u8),
        is_ascii_query(s) == (utf8_len(s) == s.len()),
        is_ascii_query(s) ==> forall|i: int| 0 <= i < s.len() ==> ((s[i] as u32) % 256) as u8 == #[trigger] s[i] as u32,
    decreases s.len(),
{
    lemma_ascii_iff_utf8_len(s);
    if s.len() > 0 {
        let t = s.skip(1);
        lemma_url_bytes(t);
        lemma_encoded_front(s);
        lemma_decode_byte(s[0], url_encoded(t));
        assert(url_decoded_bytes(url_encoded(s)) =~= Seq::new(s.len(), |i: int| ((s[i] as u32) % 256) as u8)) by {
            assert forall|i: int| 0 < i < s.len() implies t[i - 1] == s[i] by {}
        }
    } else {
        assert(url_encoded(s) =~= Seq::<char>::empty());
        assert(url_decoded_bytes(url_encoded(s)) =~= Seq::<u8>::empty());
    }
}

// ---------------------------------------------------------------------------
// Cutting pieces out of HTML
// ---------------------------------------------------------------------------

/// The text after the first `start` and before the next `end` (the whole
/// rest when `end` is empty).
pub open spec fn between(input: Seq<char>, start: Seq<char>, end: Seq<char>) -> Option<Seq<char>> {
    match first_match(input, start) {
        None => None,
        Some(p) => {
            let after = input.skip(p + start.len());
            if end.len() == 0 {
                Some(after)
            } else {
                match first_match(after, end) {
                    None => None,
                    Some(e) => Some(after.take(e)),
                }
            }
        },
    }
}

fn between_chars(input: &[char], start: &[char], end: &[char]) -> (r: Option<Vec<char>>)
    ensures
        match r {
            Some(v) => between(input@, start@, end@) == Some(v@),
            None => between(input@, start@, end@) is None,
        },
{
    assert(input@.skip(0) =~= input@);
    let p = match find_from(input, start, 0) {
        None => {
            return None;
        },
        Some(p) => p,
    };
    assert(match_at(input@, start@, p as int));
    assert(start@.len() == start.len() && input@.len() == input.len());
    assert(p + start.len() <= input.len());
    let from = p + start.len();
    let after = slice_vec(input, from, input.len());
    assert(after@ =~= input@.skip(from as int));
    if end.len() == 0 {
        return Some(after);
    }
    assert(after@.skip(0) =~= after@);
    match find_from(after.as_slice(), end, 0) {
        None => None,
        Some(e) => {
            let piece = slice_vec(after.as_slice(), 0, e);
            assert(piece@ =~= after@.take(e as int));
            Some(piece)
        },
    }
}

/// The text after the first `start` and before the next `end` (the whole
/// rest when `end` is empty).
pub fn extract_between(input: &str, start: &str, end: &str) -> (r: Option<String>)
    ensures
        match r {
            Some(s) => between(input@, start@, end@) == Some(s@),
            None => between(input@, start@, end@) is None,
        },
{
    let i = chars_of(input);
    let s = chars_of(start);
    let e = chars_of(end);
    match between_chars(i.as_slice(), s.as_slice(), e.as_slice()) {
        Some(v) => Some(string_of(v.as_slice())),
        None => None,
    }
}

/// Whether the scan is inside a tag after reading `s`: after the last `<`
/// or `>`, whichever came last (outside when neither came).
pub open spec fn in_tag_after(s: Seq<char>) -> bool
    decreases s.len(),
{
    if s.len() == 0 {
        false
    } else if s.last() == '<' {
        true
    } else if s.last() == '>' {
        false
    } else {
        in_tag_after(s.drop_last())
    }
}

/// The characters of `s` outside tags: `<` and `>` themselves, and what
/// stands between a `<` and the next `>`, are dropped.
pub open spec fn untagged(s: Seq<char>) -> Seq<char>
    decreases s.len(),
{
    if s.len() == 0 {
        seq![]
    } else {
        let c = s.last();
        let prev = untagged(s.drop_last());
        if c != '<' && c != '>' && !in_tag_after(s.drop_last()) {
            prev.push(c)
        } else {
            prev
        }
    }
}

fn strip_tags_chars(s: &[char]) -> (r: Vec<char>)
    ensures
        r@ == trim_seq(untagged(s@)),
{
    let mut out: Vec<char> = Vec::new();
    let mut in_tag = false;
    let mut i: usize = 0;
    while i < s.len()
        invariant
            i <= s.len(),
            out@ == untagged(s@.take(i as int)),
            in_tag == in_tag_after(s@.take(i as int)),
        decreases s.len() - i,
    {
        let c = s[i];
        proof {
            assert(s@.take(i + 1).drop_last() =~= s@.take(i as int));
        }
        if c == '<' {
            in_tag = true;
        } else if c == '>' {
            in_tag = false;
        } else if !in_tag {
            out.push(c);
        }
        i += 1;
    }
    assert(s@.take(s.len() as int) =~= s@);
    trim(out.as_slice())
}

/// Removes HTML tags and trims the rest.
pub fn strip_html_tags(s: &str) -> (r: String)
    ensures
        r@ == trim_seq(untagged(s@)),
{
    let c = chars_of(s);
    let v = strip_tags_chars(c.as_slice());
    string_of(v.as_slice())
}

/// The pieces of `s` between the occurrences of a non-empty `sep` (std's
/// `str::split`).
pub open spec fn split_on(s: Seq<char>, sep: Seq<char>) -> Seq<Seq<char>>
    decreases s.len(),
{
    if sep.len() == 0 {
        seq![s]
    } else {
        match first_match(s, sep) {
            Some(i) => if 0 <= i && i + sep.len() <= s.len() {
                seq![s.take(i)] + split_on(s.skip(i + sep.len()), sep)
            } else {
                seq![s]
            },
            None => seq![s],
        }
    }
}

/// std's `str::split` on characters, for a non-empty separator.
pub fn split_parts(s: &[char], sep: &[char]) -> (r: Vec<Vec<char>>)
    requires
        sep@.len() > 0,
    ensures
        views(r@) == split_on(s@, sep@),
{
    let mut r: Vec<Vec<char>> = Vec::new();
    let mut pos: usize = 0;
    assert(s@.skip(0) =~= s@);
    loop
        invariant
            pos <= s.len(),
            sep@.len() > 0,
            split_on(s@, sep@) == views(r@) + split_on(s@.skip(pos as int), sep@),
        decreases s.len() - pos,
    {
        let ghost t = s@.skip(pos as int);
        match find_from(s, sep, pos) {
            Some(i) => {
                proof {
                    lemma_first_match_some(t, sep@);
                    assert(t.skip(i - pos + sep@.len()) =~= s@.skip(i + sep@.len()));
                    assert(t.take(i - pos) =~= s@.subrange(pos as int, i as int));
                }
                let piece = slice_vec(s, pos, i);
                proof {
                    crate::text::lemma_views_push(r@, piece);
                }
                r.push(piece);
                pos = i + sep.len();
                proof {
                    assert(views(r@) + split_on(s@.skip(pos as int), sep@) =~= views(r@).drop_last()
                        + split_on(t, sep@));
                }
            },
            None => {
                let piece = slice_vec(s, pos, s.len());
                proof {
                    assert(piece@ =~= t);
                    crate::text::lemma_views_push(r@, piece);
                }
                r.push(piece);
                proof {
                    assert(split_on(t, sep@) == seq![t]);
                    assert(views(r@) =~= views(r@).drop_last() + seq![t]);
                }
                return r;
            },
        }
    }
}

// ---------------------------------------------------------------------------
// Search results
// ---------------------------------------------------------------------------

/// One result of a search.
pub struct SearchResult {
    pub title: String,
    pub url: String,
    pub snippet: String,
}

pub open spec fn or_empty(o: Option<Seq<char>>) -> Seq<char> {
    match o {
        Some(s) => s,
        None => seq![],
    }
}

/// The text of the first `open ...>` element up to its `</a>`, without tags.
pub open spec fn anchor_text(chunk: Seq<char>, open: Seq<char>) -> Seq<char> {
    match between(chunk, open, "</a>"@) {
        Some(s) => match between(s, ">"@, seq![]) {
            Some(x) => trim_seq(untagged(x)),
            None => seq![],
        },
        None => seq![],
    }
}

pub open spec fn body_marker() -> Seq<char> {
    "<div class=\"result__body\">"@
}

pub open spec fn title_marker() -> Seq<char> {
    "<h2 class=\"result__title\">"@
}

pub open spec fn link_open() -> Seq<char> {
    "<a class=\"result__a\""@
}

pub open spec fn snippet_open() -> Seq<char> {
    "<a class=\"result__snippet\""@
}

/// The link of a result: the first `href` value.
pub open spec fn chunk_url(chunk: Seq<char>) -> Seq<char> {
    or_empty(between(chunk, "href=\""@, "\""@))
}

/// A result read from a result body: title, link, snippet.
pub open spec fn body_entry(chunk: Seq<char>) -> (Seq<char>, Seq<char>, Seq<char>) {
    (anchor_text(chunk, link_open()), chunk_url(chunk), anchor_text(chunk, snippet_open()))
}

/// A result read from a result title (the simpler page layout).
pub open spec fn title_entry(chunk: Seq<char>) -> (Seq<char>, Seq<char>, Seq<char>) {
    let title = match between(chunk, ">"@, "</a>"@) {
        Some(s) => trim_seq(untagged(s)),
        None => seq![],
    };
    (title, chunk_url(chunk), anchor_text(chunk, snippet_open()))
}

pub open spec fn entry_of(chunk: Seq<char>, by_body: bool) -> (Seq<char>, Seq<char>, Seq<char>) {
    if by_body {
        body_entry(chunk)
    } else {
        title_entry(chunk)
    }
}

/// The results read from the chunks, in order, without those with no title.
pub open spec fn titled(chunks: Seq<Seq<char>>, by_body: bool) -> Seq<(Seq<char>, Seq<char>, Seq<char>)>
    decreases chunks.len(),
{
    if chunks.len() == 0 {
        seq![]
    } else {
        let rest = titled(chunks.drop_last(), by_body);
        let e = entry_of(chunks.last(), by_body);
        if e.0.len() > 0 {
            rest.push(e)
        } else {
            rest
        }
    }
}

pub open spec fn first_n<A>(s: Seq<A>, n: nat) -> Seq<A> {
    if s.len() <= n {
        s
    } else {
        s.take(n as int)
    }
}

/// The results of a page: at most `count` read from the result bodies, or
/// when there are none, at most `count` read from the result titles.
pub open spec fn page_results(html: Seq<char>, count: nat) -> Seq<(Seq<char>, Seq<char>, Seq<char>)> {
    let primary = first_n(titled(split_on(html, body_marker()).drop_first(), true), count);
    if primary.len() > 0 {
        primary
    } else {
        first_n(titled(split_on(html, title_marker()).drop_first(), false), count)
    }
}

pub open spec fn result_view(r: SearchResult) -> (Seq<char>, Seq<char>, Seq<char>) {
    (r.title@, r.url@, r.snippet@)
}

pub open spec fn results_view(rs: Seq<SearchResult>) -> Seq<(Seq<char>, Seq<char>, Seq<char>)> {
    rs.map_values(|r: SearchResult| result_view(r))
}

fn anchor_chars(chunk: &[char], open: &[char]) -> (r: Vec<char>)
    ensures
        r@ == anchor_text(chunk@, open@),
{
    let close = chars_of("</a>");
    let gt = chars_of(">");
    let none: Vec<char> = Vec::new();
    match between_chars(chunk, open, close.as_slice()) {
        Some(s) => match between_chars(s.as_slice(), gt.as_slice(), none.as_slice()) {
            Some(x) => strip_tags_chars(x.as_slice()),
            None => Vec::new(),
        },
        None => Vec::new(),
    }
}

fn entry_chars(chunk: &[char], by_body: bool) -> (r: SearchResult)
    ensures
        result_view(r) == entry_of(chunk@, by_body),
{
    let title = if by_body {
        let open = chars_of("<a class=\"result__a\"");
        anchor_chars(chunk, open.as_slice())
    } else {
        let gt = chars_of(">");
        let close = chars_of("</a>");
        match between_chars(chunk, gt.as_slice(), close.as_slice()) {
            Some(s) => strip_tags_chars(s.as_slice()),
            None => Vec::new(),
        }
    };
    let href = chars_of("href=\"");
    let quote = chars_of("\"");
    let url = match between_chars(chunk, href.as_slice(), quote.as_slice()) {
        Some(u) => u,
        None => Vec::new(),
    };
    let sopen = chars_of("<a class=\"result__snippet\"");
    let snippet = anchor_chars(chunk, sopen.as_slice());
    SearchResult {
        title: string_of(title.as_slice()),
        url: string_of(url.as_slice()),
        snippet: string_of(snippet.as_slice()),
    }
}

fn collect_results(html: &[char], marker: &[char], by_body: bool, count: usize) -> (r: Vec<SearchResult>)
    requires
        marker@.len() > 0,
    ensures
        results_view(r@) == first_n(titled(split_on(html@, marker@).drop_first(), by_body), count as nat),
{
    let chunks = split_parts(html, marker);
    let ghost cs = views(chunks@);
    let mut out: Vec<SearchResult> = Vec::new();
    let mut k: usize = 1;
    proof {
        assert(cs.len() >= 1);
        assert(cs.drop_first().take(0) =~= Seq::<Seq<char>>::empty());
    }
    while k < chunks.len() && out.len() < count
        invariant
            1 <= k <= chunks.len(),
            cs == views(chunks@),
            cs == split_on(html@, marker@),
            results_view(out@) == titled(cs.drop_first().take(k - 1), by_body),
            out@.len() <= count,
        decreases chunks.len() - k,
    {
        let e = entry_chars(chunks[k].as_slice(), by_body);
        proof {
            assert(cs.drop_first().take(k as int).drop_last() =~= cs.drop_first().take(k - 1));
            assert(cs.drop_first().take(k as int).last() == chunks@[k as int]@);
        }
        let ghost before = out@;
        if e.title.as_str().unicode_len() > 0 {
            out.push(e);
        }
        proof {
            assert(results_view(out@) =~= titled(cs.drop_first().take(k as int), by_body));
        }
        k += 1;
    }
    proof {
        let all = titled(cs.drop_first(), by_body);
        if k < chunks.len() {
            lemma_titled_prefix(cs.drop_first(), k - 1, by_body);
            assert(out@.len() == count);
            assert(results_view(out@).len() == out@.len());
            assert(all.len() >= count);
            if all.len() == count {
                assert(all.take(count as int) =~= all);
            }
        } else {
            assert(cs.drop_first().take(k - 1) =~= cs.drop_first());
        }
    }
    out
}

/// The results read from a page's chunks are the entries of the chunks,
/// in order, with exactly those without a title left out: a chunk with a
/// title always gives a result, whatever its link or snippet.
pub proof fn lemma_titled_keeps_titled(chunks: Seq<Seq<char>>, by_body: bool)
    ensures
        titled(chunks, by_body) == chunks.map_values(|c: Seq<char>| entry_of(c, by_body)).filter(
            |e: (Seq<char>, Seq<char>, Seq<char>)| e.0.len() > 0,
        ),
    decreases chunks.len(),
{
    reveal(Seq::filter);
    let f = |c: Seq<char>| entry_of(c, by_body);
    if chunks.len() > 0 {
        lemma_titled_keeps_titled(chunks.drop_last(), by_body);
        assert(chunks.map_values(f).drop_last() =~= chunks.drop_last().map_values(f));
    } else {
        assert(chunks.map_values(f) =~= Seq::<(Seq<char>, Seq<char>, Seq<char>)>::empty());
    }
}

/// A page read by result bodies gives as many results as asked for, or as
/// many as there are bodies with a title when that is fewer.
pub proof fn lemma_page_count(html: Seq<char>, count: nat)
    ensures
        ({
            let bodies = split_on(html, body_marker()).drop_first();
            let n = bodies.map_values(|c: Seq<char>| entry_of(c, true)).filter(
                |e: (Seq<char>, Seq<char>, Seq<char>)| e.0.len() > 0,
            ).len();
            n > 0 ==> page_results(html, count).len() == if count < n {
                count
            } else {
                n
            }
        }),
{
    lemma_titled_keeps_titled(split_on(html, body_marker()).drop_first(), true);
}

/// Reading more chunks only adds results after those already read.
proof fn lemma_titled_prefix(chunks: Seq<Seq<char>>, k: int, by_body: bool)
    requires
        0 <= k <= chunks.len(),
    ensures
        titled(chunks.take(k), by_body).len() <= titled(chunks, by_body).len(),
        titled(chunks, by_body).take(titled(chunks.take(k), by_body).len() as int) == titled(
            chunks.take(k),
            by_body,
        ),
    decreases chunks.len() - k,
{
    if k < chunks.len() {
        lemma_titled_prefix(chunks, k + 1, by_body);
        assert(chunks.take(k + 1).drop_last() =~= chunks.take(k));
        let a = titled(chunks.take(k), by_body);
        let b = titled(chunks.take(k + 1), by_body);
        let all = titled(chunks, by_body);
        assert(b.take(a.len() as int) =~= a);
        assert(all.take(a.len() as int) =~= all.take(b.len() as int).take(a.len() as int));
    } else {
        assert(chunks.take(k) =~= chunks);
        assert(titled(chunks, by_body).take(titled(chunks, by_body).len() as int) =~= titled(
            chunks,
            by_body,
        ));
    }
}

/// Reads up to `count` results out of a search page: from the result
/// bodies, or, when they yield none, from the result titles. A result
/// without a title is skipped. The page is never refused.
pub fn parse_ddg_results(html: &str, count: usize) -> (r: Result<Vec<SearchResult>, String>)
    ensures
        r matches Ok(v) && results_view(v@) == page_results(html@, count as nat),
{
    let h = chars_of(html);
    let body = chars_of("<div class=\"result__body\">");
    let title = chars_of("<h2 class=\"result__title\">");
    proof {
        reveal_strlit("<div class=\"result__body\">");
        reveal_strlit("<h2 class=\"result__title\">");
    }
    let primary = collect_results(h.as_slice(), body.as_slice(), true, count);
    if primary.len() > 0 {
        return Ok(primary);
    }
    let fallback = collect_results(h.as_slice(), title.as_slice(), false, count);
    Ok(fallback)
}

/// One result as the search tool shows it: its number, title and link,
/// then its snippet on an indented line.
pub open spec fn shown_result(n: nat, r: (Seq<char>, Seq<char>, Seq<char>)) -> Seq<char> {
    decimal(n) + ". ["@ + r.0 + "]("@ + r.1 + ")\n   "@ + r.2
}

pub open spec fn shown_results(rs: Seq<(Seq<char>, Seq<char>, Seq<char>)>) -> Seq<Seq<char>> {
    Seq::new(rs.len(), |i: int| shown_result((i + 1) as nat, rs[i]))
}

/// The search tool's output: the results shown one after another, with a
/// blank line between them.
pub fn format_search_results(results: &Vec<SearchResult>) -> (s: String)
    ensures
        s@ == join(shown_results(results_view(results@)), "\n\n"@),
{
    let mut parts: Vec<Vec<char>> = Vec::new();
    let mut i: usize = 0;
    while i < results.len()
        invariant
            i <= results.len(),
            views(parts@) == shown_results(results_view(results@)).take(i as int),
        decreases results.len() - i,
    {
        let r = &results[i];
        let mut line: Vec<char> = Vec::new();
        push_u64(&mut line, (i + 1) as u64);
        push_str(&mut line, ". [");
        push_str(&mut line, r.title.as_str());
        push_str(&mut line, "](");
        push_str(&mut line, r.url.as_str());
        push_str(&mut line, ")\n   ");
        push_str(&mut line, r.snippet.as_str());
        proof {
            crate::text::lemma_views_push(parts@, line);
            assert(line@ == shown_result((i + 1) as nat, result_view(results@[i as int])));
        }
        parts.push(line);
        proof {
            assert(views(parts@) =~= shown_results(results_view(results@)).take(i + 1));
        }
        i += 1;
    }
    let sep = chars_of("\n\n");
    let joined = join_vecs(&parts, sep.as_slice());
    proof {
        assert(shown_results(results_view(results@)).take(results.len() as int) =~= shown_results(
            results_view(results@),
        ));
    }
    string_of(joined.as_slice())
}

} // verus!

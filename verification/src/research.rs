//! The research tool's own logic: how deep to go, which links of a search
//! page to follow, the previews of fetched pages, and the report's layout.

use vstd::prelude::*;
use crate::text::{
    join, starts_with_seq, contains_seq, chars_of, string_of, push_str, push_all, join_vecs,
    views, slice_vec, starts_with, contains, owned, str_views, first_match, find_from,
};
use crate::web_search::{split_on, split_parts};
use crate::browser::{visible_text, extract_text};

verus! {

/// The depth of a research run: the requested depth (1 when absent),
/// capped at 2.
pub fn research_depth(requested: Option<u64>) -> (d: u8)
    ensures
        d == (match requested {
            None => 1,
            Some(x) => if x < 2 {
                x as u8
            } else {
                2
            },
        }),
{
    match requested {
        None => 1,
        Some(x) => if x < 2 {
            x as u8
        } else {
            2
        },
    }
}

/// The text up to the first `"` (std's `split('"').next()`).
pub open spec fn before_quote(p: Seq<char>) -> Seq<char> {
    match first_match(p, seq!['"']) {
        Some(i) => p.take(i),
        None => p,
    }
}

/// Whether a link is followed: it starts with `http` and does not point
/// back to the search engine.
pub open spec fn followed_link(u: Seq<char>) -> bool {
    starts_with_seq(u, "http"@) && !contains_seq(u, "duckduckgo"@)
}

/// The links of a page, in order: the text before the next `"` of every
/// piece that follows an `href="` (and of the text before the first).
pub open spec fn page_links(pieces: Seq<Seq<char>>) -> Seq<Seq<char>>
    decreases pieces.len(),
{
    if pieces.len() == 0 {
        seq![]
    } else {
        let rest = page_links(pieces.drop_last());
        let u = before_quote(pieces.last());
        if followed_link(u) {
            rest.push(u)
        } else {
            rest
        }
    }
}

/// The pages a research run reads: the first two links of the search page.
pub open spec fn research_links(body: Seq<char>) -> Seq<Seq<char>> {
    let all = page_links(split_on(body, "href=\""@));
    if all.len() <= 2 {
        all
    } else {
        all.take(2)
    }
}

fn before_quote_chars(p: &[char]) -> (r: Vec<char>)
    ensures
        r@ == before_quote(p@),
{
    let q: Vec<char> = vec!['"'];
    assert(q@ =~= seq!['"']);
    assert(p@.skip(0) =~= p@);
    match find_from(p, q.as_slice(), 0) {
        Some(i) => {
            let r = slice_vec(p, 0, i);
            assert(r@ =~= p@.take(i as int));
            r
        },
        None => {
            let r = slice_vec(p, 0, p.len());
            assert(r@ =~= p@);
            r
        },
    }
}

/// The links a research run follows on a search page: the first two that
/// start with `http` and do not point back to the search engine.
pub fn result_urls(body: &str) -> (r: Vec<String>)
    ensures
        str_views(r@) == research_links(body@),
{
    let b = chars_of(body);
    let marker = chars_of("href=\"");
    proof {
        reveal_strlit("href=\"");
    }
    let pieces = split_parts(b.as_slice(), marker.as_slice());
    let http = chars_of("http");
    let ddg = chars_of("duckduckgo");
    let mut out: Vec<String> = Vec::new();
    let mut i: usize = 0;
    while i < pieces.len() && out.len() < 2
        invariant
            i <= pieces.len(),
            http@ == "http"@,
            ddg@ == "duckduckgo"@,
            str_views(out@) == page_links(views(pieces@).take(i as int)),
            out@.len() <= 2,
        decreases pieces.len() - i,
    {
        proof {
            assert(views(pieces@).take(i + 1).drop_last() =~= views(pieces@).take(i as int));
            assert(views(pieces@).take(i + 1).last() == pieces@[i as int]@);
        }
        let u = before_quote_chars(pieces[i].as_slice());
        if starts_with(u.as_slice(), http.as_slice()) && !contains(u.as_slice(), ddg.as_slice()) {
            let s = string_of(u.as_slice());
            proof {
                assert(str_views(out@.push(s)) =~= str_views(out@).push(s@));
            }
            out.push(s);
        }
        i += 1;
    }
    proof {
        let all = page_links(views(pieces@));
        if i < pieces.len() {
            lemma_links_prefix(views(pieces@), i as int);
            assert(all.len() >= 2);
            if all.len() == 2 {
                assert(all.take(2) =~= all);
            }
        } else {
            assert(views(pieces@).take(i as int) =~= views(pieces@));
        }
    }
    out
}

proof fn lemma_links_prefix(pieces: Seq<Seq<char>>, k: int)
    requires
        0 <= k <= pieces.len(),
    ensures
        page_links(pieces.take(k)).len() <= page_links(pieces).len(),
        page_links(pieces).take(page_links(pieces.take(k)).len() as int) == page_links(
            pieces.take(k),
        ),
    decreases pieces.len() - k,
{
    if k < pieces.len() {
        lemma_links_prefix(pieces, k + 1);
        assert(pieces.take(k + 1).drop_last() =~= pieces.take(k));
        let a = page_links(pieces.take(k));
        let b = page_links(pieces.take(k + 1));
        let all = page_links(pieces);
        assert(b.take(a.len() as int) =~= a);
        assert(all.take(a.len() as int) =~= all.take(b.len() as int).take(a.len() as int));
    } else {
        assert(pieces.take(k) =~= pieces);
        assert(page_links(pieces).take(page_links(pieces).len() as int) =~= page_links(pieces));
    }
}

/// The preview of a fetched page: its link in bold, then the first 1000
/// characters of its visible text.
pub open spec fn page_digest(url: Seq<char>, html: Seq<char>) -> Seq<char> {
    let t = visible_text(html);
    "**"@ + url + "**\n"@ + (if t.len() > 1000 {
        t.take(1000)
    } else {
        t
    })
}

/// The preview of a fetched page.
pub fn digest_page(url: &str, html: &str) -> (s: String)
    ensures
        s@ == page_digest(url@, html@),
{
    let t = extract_text(html);
    let c = chars_of(t.as_str());
    let shown = if c.len() > 1000 {
        slice_vec(c.as_slice(), 0, 1000)
    } else {
        slice_vec(c.as_slice(), 0, c.len())
    };
    let mut m: Vec<char> = Vec::new();
    push_str(&mut m, "**");
    push_str(&mut m, url);
    push_str(&mut m, "**\n");
    push_all(&mut m, shown.as_slice());
    proof {
        if c@.len() > 1000 {
            assert(shown@ =~= c@.take(1000));
        } else {
            assert(shown@ =~= c@);
        }
    }
    string_of(m.as_slice())
}

/// The web section of a report: the page previews separated by rules, or
/// a note that nothing could be read.
pub fn web_section(digests: &Vec<String>) -> (s: String)
    ensures
        s@ == (if digests@.len() == 0 {
            "*No content*"@
        } else {
            join(str_views(digests@), "\n\n---\n\n"@)
        }),
{
    if digests.len() == 0 {
        return owned("*No content*");
    }
    let parts = crate::browser::strings_to_vecs(digests);
    let sep = chars_of("\n\n---\n\n");
    let j = join_vecs(&parts, sep.as_slice());
    string_of(j.as_slice())
}

/// The code section of a report from the texts of a code search reply.
pub fn code_section(texts: &Vec<String>) -> (s: String)
    ensures
        s@ == (if texts@.len() == 0 {
            "*Empty*"@
        } else {
            join(str_views(texts@), "\n---\n"@)
        }),
{
    if texts.len() == 0 {
        return owned("*Empty*");
    }
    let parts = crate::browser::strings_to_vecs(texts);
    let sep = chars_of("\n---\n");
    let j = join_vecs(&parts, sep.as_slice());
    string_of(j.as_slice())
}

/// The sections of a report before its synthesis: the title, the code
/// found (or the search error), and at depth 2 the pages read (or the
/// fetch error), then the synthesis heading.
pub open spec fn report_sections(
    query: Seq<char>,
    code: Result<Seq<char>, Seq<char>>,
    web: Option<Result<Seq<char>, Seq<char>>>,
) -> Seq<Seq<char>> {
    let head = seq!["# Research: "@ + query + "\n"@, "\n## 🔎 Code\n"@, match code {
        Ok(c) => c,
        Err(e) => "*Search error: "@ + e + "*"@,
    }];
    let mid = match web {
        None => seq![],
        Some(w) => seq!["\n## 🌐 Web\n"@, match w {
            Ok(t) => t,
            Err(e) => "*Fetch error: "@ + e + "*"@,
        }],
    };
    head + mid + seq!["\n---\n## 🧠 Synthesis\n"@]
}

fn bracketed(pre: &str, body: &str, post: &str) -> (r: String)
    ensures
        r@ == pre@ + body@ + post@,
{
    let mut m: Vec<char> = Vec::new();
    push_str(&mut m, pre);
    push_str(&mut m, body);
    push_str(&mut m, post);
    string_of(m.as_slice())
}

/// The sections of a report before its synthesis.
pub fn research_sections(
    query: &str,
    code: Result<String, String>,
    web: Option<Result<String, String>>,
) -> (v: Vec<String>)
    ensures
        str_views(v@) == report_sections(
            query@,
            match code {
                Ok(c) => Ok(c@),
                Err(e) => Err(e@),
            },
            match web {
                None => None,
                Some(w) => Some(
                    match w {
                        Ok(t) => Ok(t@),
                        Err(e) => Err(e@),
                    },
                ),
            },
        ),
{
    let mut v: Vec<String> = Vec::new();
    v.push(bracketed("# Research: ", query, "\n"));
    v.push(owned("\n## 🔎 Code\n"));
    v.push(
        match code {
            Ok(c) => c,
            Err(e) => bracketed("*Search error: ", e.as_str(), "*"),
        },
    );
    match web {
        None => {},
        Some(w) => {
            v.push(owned("\n## 🌐 Web\n"));
            v.push(
                match w {
                    Ok(t) => t,
                    Err(e) => bracketed("*Fetch error: ", e.as_str(), "*"),
                },
            );
        },
    }
    v.push(owned("\n---\n## 🧠 Synthesis\n"));
    proof {
        assert(str_views(v@) =~= report_sections(
            query@,
            match code {
                Ok(c) => Ok(c@),
                Err(e) => Err(e@),
            },
            match web {
                None => None,
                Some(w) => Some(
                    match w {
                        Ok(t) => Ok(t@),
                        Err(e) => Err(e@),
                    },
                ),
            },
        ));
    }
    v
}

/// The prompt that asks for the synthesis of the raw report.
pub fn synthesis_prompt(query: &str, raw: &str) -> (s: String)
    ensures
        s@ == "Query: "@ + query@ + "\n---\n"@ + raw@ + "\n---\nSynthesize:"@,
{
    let mut m: Vec<char> = Vec::new();
    push_str(&mut m, "Query: ");
    push_str(&mut m, query);
    push_str(&mut m, "\n---\n");
    push_str(&mut m, raw);
    push_str(&mut m, "\n---\nSynthesize:");
    string_of(m.as_slice())
}

/// Joins report sections with newlines.
pub fn join_sections(sections: &Vec<String>) -> (s: String)
    ensures
        s@ == join(str_views(sections@), "\n"@),
{
    let parts = crate::browser::strings_to_vecs(sections);
    let sep = chars_of("\n");
    let j = join_vecs(&parts, sep.as_slice());
    string_of(j.as_slice())
}

} // verus!

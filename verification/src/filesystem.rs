//! The file tools' own logic: paging through a file's lines, spotting
//! binary data, the reports of writes, listings and searches, and glob
//! patterns.

use vstd::prelude::*;
use crate::text::{
    lines, join, decimal, signed_decimal, chars_of, string_of, split_lines, count_lines,
    push_str, push_all, push_u64, push_i64, join_vecs, views, slice_vec, owned, starts_with_seq,
    contains_seq, lowercase, to_lowercase, contains, seq_eq, str_views, digit,
};
use crate::edit::{reading_header, push_reading_header};

verus! {

// ---------------------------------------------------------------------------
// Reading a window of lines
// ---------------------------------------------------------------------------

/// The first line shown: counted back from the end for a negative offset.
pub open spec fn window_start(total: int, offset: int) -> int {
    if offset < 0 {
        if total + offset > 0 {
            total + offset
        } else {
            0
        }
    } else {
        offset
    }
}

/// The line after the last one shown.
pub open spec fn window_end(total: int, offset: int, length: int) -> int {
    if offset < 0 {
        total
    } else if offset + length < total {
        offset + length
    } else {
        total
    }
}

/// What the file reader shows of a text for an offset and a length.
pub open spec fn read_window_text(content: Seq<char>, offset: int, length: int) -> Seq<char> {
    let ls = lines(content);
    let total = ls.len() as int;
    let start = window_start(total, offset);
    let end = window_end(total, offset, length);
    if start >= total {
        "[Reading 0 lines (total: "@ + decimal(total as nat) + " lines)]\n(offset "@
            + signed_decimal(offset) + " is beyond file end)"@
    } else {
        reading_header((end - start) as nat, start as nat, total as nat, (total - end) as nat)
            + "\n\n"@ + join(ls.subrange(start, end), "\n"@)
    }
}

/// Shows `length` lines of a text from line `offset` (0-based), or, for a
/// negative offset, its last `-offset` lines, under a header that says
/// which lines these are out of how many.
pub fn read_window(content: &str, offset: i64, length: usize) -> (r: String)
    requires
        offset > i64::MIN,
        offset >= 0 ==> offset as int + length as int <= usize::MAX,
    ensures
        r@ == read_window_text(content@, offset as int, length as int),
{
    let c = chars_of(content);
    let ls = split_lines(c.as_slice());
    let total = ls.len();
    proof {
        assert(views(ls@).len() == ls@.len());
    }
    let (start, end): (usize, usize) = if offset < 0 {
        let tail: u64 = (-offset) as u64;
        let start: usize = if (total as u64) > tail {
            ((total as u64) - tail) as usize
        } else {
            0
        };
        (start, total)
    } else {
        let start = offset as usize;
        let e: usize = if start + length < total {
            start + length
        } else {
            total
        };
        (start, e)
    };
    assert(start as int == window_start(total as int, offset as int));
    assert(end as int == window_end(total as int, offset as int, length as int));
    if start >= total {
        let mut m: Vec<char> = Vec::new();
        push_str(&mut m, "[Reading 0 lines (total: ");
        push_u64(&mut m, total as u64);
        push_str(&mut m, " lines)]\n(offset ");
        push_i64(&mut m, offset);
        push_str(&mut m, " is beyond file end)");
        return string_of(m.as_slice());
    }
    let mut window: Vec<Vec<char>> = Vec::new();
    let mut k: usize = start;
    while k < end
        invariant
            start <= k <= end,
            end <= ls@.len(),
            window@.len() == k - start,
            forall|j: int| 0 <= j < k - start ==> window@[j]@ == ls@[start + j]@,
        decreases end - k,
    {
        let l = slice_vec(ls[k].as_slice(), 0, ls[k].len());
        proof {
            assert(l@ =~= ls@[k as int]@);
        }
        window.push(l);
        k += 1;
    }
    let mut m: Vec<char> = Vec::new();
    push_reading_header(&mut m, end - start, start, total, total - end);
    push_str(&mut m, "\n\n");
    let sep = chars_of("\n");
    let body = join_vecs(&window, sep.as_slice());
    push_all(&mut m, body.as_slice());
    proof {
        assert(views(window@) =~= lines(content@).subrange(start as int, end as int));
    }
    string_of(m.as_slice())
}

/// A window never shows more lines than asked for (for a non-negative
/// offset), and the lines before, in and after it add up to the whole.
pub proof fn lemma_window_bounds(total: nat, offset: int, length: nat)
    ensures
        window_start(total as int, offset) < total ==> {
            &&& window_start(total as int, offset) <= window_end(total as int, offset, length as int) <= total
            &&& offset >= 0 ==> window_end(total as int, offset, length as int) - window_start(total as int, offset) <= length
            &&& window_start(total as int, offset) + (window_end(total as int, offset, length as int)
                - window_start(total as int, offset)) + (total - window_end(total as int, offset, length as int)) == total
        },
        offset < 0 ==> window_end(total as int, offset, length as int) - window_start(total as int, offset) <= -offset,
{
}

/// From a line `offset` inside the text, the reader shows the next
/// `length` lines, or all the rest when fewer remain: so it ends with the
/// last line whenever `offset + length` reaches the line count. For a
/// negative offset it shows the last `-offset` lines, or all of them.
pub proof fn lemma_window_lines(content: Seq<char>, offset: int, length: int)
    requires
        length >= 0,
    ensures
        ({
            let ls = lines(content);
            let total = ls.len() as int;
            let n = if length < total - offset {
                length
            } else {
                total - offset
            };
            0 <= offset < total ==> read_window_text(content, offset, length) == reading_header(
                n as nat,
                offset as nat,
                total as nat,
                (total - offset - n) as nat,
            ) + "\n\n"@ + join(ls.subrange(offset, offset + n), "\n"@)
        }),
        ({
            let ls = lines(content);
            let total = ls.len() as int;
            let first = if -offset < total {
                total + offset
            } else {
                0
            };
            offset < 0 && total > 0 ==> read_window_text(content, offset, length) == reading_header(
                (total - first) as nat,
                first as nat,
                total as nat,
                0,
            ) + "\n\n"@ + join(ls.subrange(first, total), "\n"@)
        }),
{
}

/// How many leading bytes are sampled for binary data.
pub const BINARY_SAMPLE: usize = 8192;

/// Whether data looks binary: a zero byte among its first 8192 bytes.
pub open spec fn looks_binary(data: Seq<u8>) -> bool {
    exists|i: int| 0 <= i < data.len() && i < BINARY_SAMPLE && data[i] == 0
}

/// Whether data looks binary: a zero byte among its first 8192 bytes.
pub fn is_binary(data: &[u8]) -> (b: bool)
    ensures
        b == looks_binary(data@),
{
    let n = if data.len() < BINARY_SAMPLE {
        data.len()
    } else {
        BINARY_SAMPLE
    };
    let mut i: usize = 0;
    while i < n
        invariant
            i <= n,
            n <= data.len(),
            n <= BINARY_SAMPLE,
            n == data.len() || n == BINARY_SAMPLE,
            forall|j: int| 0 <= j < i ==> data@[j] != 0,
        decreases n - i,
    {
        if data[i] == 0 {
            return true;
        }
        i += 1;
    }
    false
}

/// The notice shown instead of a binary file's contents.
pub fn binary_notice(size: u64) -> (s: String)
    ensures
        s@ == "[Binary file: "@ + decimal(size as nat) + " bytes. Contents not displayed.]"@,
{
    let mut m: Vec<char> = Vec::new();
    push_str(&mut m, "[Binary file: ");
    push_u64(&mut m, size);
    push_str(&mut m, " bytes. Contents not displayed.]");
    string_of(m.as_slice())
}

/// The refusal to read a directory as a file.
pub fn directory_notice(path: &str) -> (s: String)
    ensures
        s@ == "'"@ + path@ + "' is a directory. Use list_directory instead."@,
{
    let mut m: Vec<char> = Vec::new();
    push_str(&mut m, "'");
    push_str(&mut m, path);
    push_str(&mut m, "' is a directory. Use list_directory instead.");
    string_of(m.as_slice())
}

// ---------------------------------------------------------------------------
// Writing
// ---------------------------------------------------------------------------

/// How a write treats an existing file.
pub enum WriteMode {
    Append,
    Rewrite,
}

/// `append` appends; any other mode rewrites the file.
pub fn write_mode(mode: &str) -> (m: WriteMode)
    ensures
        (m is Append) == (mode@ == "append"@),
{
    if owned(mode) == owned("append") {
        WriteMode::Append
    } else {
        WriteMode::Rewrite
    }
}

/// The report of a write: how many lines went where, and a warning when
/// there are more than the recommended number.
pub open spec fn write_report_text(content: Seq<char>, path: Seq<char>, limit: nat) -> Seq<char> {
    let n = lines(content).len();
    let base = "Successfully wrote "@ + decimal(n) + " lines to "@ + path;
    if n > limit {
        base + "\n\nWARNING: File has "@ + decimal(n) + " lines (recommended max: "@ + decimal(limit)
            + "). Consider smaller chunks."@
    } else {
        base
    }
}

/// The report of a write of `content` to `file_path`.
pub fn write_report(content: &str, file_path: &str, limit: usize) -> (s: String)
    ensures
        s@ == write_report_text(content@, file_path@, limit as nat),
{
    let c = chars_of(content);
    let n = count_lines(c.as_slice());
    let mut m: Vec<char> = Vec::new();
    push_str(&mut m, "Successfully wrote ");
    push_u64(&mut m, n as u64);
    push_str(&mut m, " lines to ");
    push_str(&mut m, file_path);
    if n > limit {
        push_str(&mut m, "\n\nWARNING: File has ");
        push_u64(&mut m, n as u64);
        push_str(&mut m, " lines (recommended max: ");
        push_u64(&mut m, limit as u64);
        push_str(&mut m, "). Consider smaller chunks.");
    }
    string_of(m.as_slice())
}

// ---------------------------------------------------------------------------
// Listing
// ---------------------------------------------------------------------------

/// Whether the directory walk enters an entry: the root always, others
/// unless their name starts with `.`.
pub fn listing_keeps(depth: usize, name: &str) -> (b: bool)
    ensures
        b == (depth == 0 || !starts_with_seq(name@, "."@)),
{
    let c = chars_of(name);
    let dot = chars_of(".");
    depth == 0 || !crate::text::starts_with(c.as_slice(), dot.as_slice())
}

/// One line of a listing.
pub open spec fn listing_line(is_dir: bool, path: Seq<char>) -> Seq<char> {
    if is_dir {
        "[DIR] "@ + path
    } else {
        "[FILE] "@ + path
    }
}

/// The lines of a listing: entries with an empty path (the root) skipped.
pub open spec fn listing_lines(entries: Seq<(bool, Seq<char>)>) -> Seq<Seq<char>>
    decreases entries.len(),
{
    if entries.len() == 0 {
        seq![]
    } else {
        let rest = listing_lines(entries.drop_last());
        let e = entries.last();
        if e.1.len() > 0 {
            rest.push(listing_line(e.0, e.1))
        } else {
            rest
        }
    }
}

pub open spec fn entries_view(v: Seq<(bool, String)>) -> Seq<(bool, Seq<char>)> {
    v.map_values(|e: (bool, String)| (e.0, e.1@))
}

/// A directory listing: one `[DIR]` or `[FILE]` line per entry, in walk
/// order, without the root itself.
pub fn format_listing(entries: &Vec<(bool, String)>) -> (s: String)
    ensures
        s@ == join(listing_lines(entries_view(entries@)), "\n"@),
{
    let mut parts: Vec<Vec<char>> = Vec::new();
    let mut i: usize = 0;
    while i < entries.len()
        invariant
            i <= entries.len(),
            views(parts@) == listing_lines(entries_view(entries@).take(i as int)),
        decreases entries.len() - i,
    {
        proof {
            assert(entries_view(entries@).take(i + 1).drop_last() =~= entries_view(entries@).take(
                i as int,
            ));
        }
        let p = chars_of(entries[i].1.as_str());
        if p.len() > 0 {
            let mut line: Vec<char> = Vec::new();
            if entries[i].0 {
                push_str(&mut line, "[DIR] ");
            } else {
                push_str(&mut line, "[FILE] ");
            }
            push_all(&mut line, p.as_slice());
            proof {
                crate::text::lemma_views_push(parts@, line);
            }
            parts.push(line);
        }
        i += 1;
    }
    proof {
        assert(entries_view(entries@).take(entries.len() as int) =~= entries_view(entries@));
    }
    let sep = chars_of("\n");
    let joined = join_vecs(&parts, sep.as_slice());
    string_of(joined.as_slice())
}

// ---------------------------------------------------------------------------
// Glob patterns
// ---------------------------------------------------------------------------

/// ASCII letters compared without case (std's `char::eq_ignore_ascii_case`).
pub open spec fn ascii_lower(c: char) -> u32 {
    let u = c as u32;
    if 65 <= u <= 90 {
        (u + 32) as u32
    } else {
        u
    }
}

pub open spec fn same_ignoring_ascii_case(a: char, b: char) -> bool {
    ascii_lower(a) == ascii_lower(b)
}

/// Whether a name matches a glob pattern: `*` stands for any run of
/// characters, `?` for any one character, and other characters match
/// themselves, ASCII letters without regard to case.
pub open spec fn glob(p: Seq<char>, n: Seq<char>) -> bool
    decreases p.len() + n.len(),
{
    if p.len() == 0 {
        n.len() == 0
    } else if p.last() == '*' {
        glob(p.drop_last(), n) || (n.len() > 0 && glob(p, n.drop_last()))
    } else if n.len() == 0 {
        false
    } else if p.last() == '?' {
        glob(p.drop_last(), n.drop_last())
    } else {
        glob(p.drop_last(), n.drop_last()) && same_ignoring_ascii_case(p.last(), n.last())
    }
}

fn eq_ignore_ascii_case(a: char, b: char) -> (r: bool)
    ensures
        r == same_ignoring_ascii_case(a, b),
{
    let ua = a as u32;
    let ub = b as u32;
    let la = if 65 <= ua && ua <= 90 {
        ua + 32
    } else {
        ua
    };
    let lb = if 65 <= ub && ub <= 90 {
        ub + 32
    } else {
        ub
    };
    la == lb
}

/// Whether `name` matches the glob `pattern` (computed row by row over the
/// pattern's prefixes).
pub fn glob_match(pattern: &str, name: &str) -> (b: bool)
    ensures
        b == glob(pattern@, name@),
{
    let p = chars_of(pattern);
    let n = chars_of(name);
    let nl = n.len();
    // Row 0: the empty pattern matches only the empty name.
    let mut row: Vec<bool> = Vec::new();
    row.push(true);
    proof {
        assert(p@.take(0).len() == 0);
        assert(n@.take(0).len() == 0);
    }
    let mut j: usize = 0;
    while j < nl
        invariant
            j <= nl,
            nl == n@.len(),
            row@.len() == j + 1,
            forall|k: int| 0 <= k <= j ==> row@[k] == glob(p@.take(0), n@.take(k)),
        decreases nl - j,
    {
        row.push(false);
        proof {
            assert(p@.take(0).len() == 0);
            assert(n@.take(j + 1).len() == j + 1);
        }
        j += 1;
    }
    let mut i: usize = 0;
    while i < p.len()
        invariant
            i <= p.len(),
            nl == n@.len(),
            row@.len() == nl + 1,
            forall|k: int| 0 <= k <= nl ==> row@[k] == glob(p@.take(i as int), n@.take(k)),
        decreases p.len() - i,
    {
        let c = p[i];
        let ghost pi = p@.take(i + 1);
        proof {
            assert(pi.drop_last() =~= p@.take(i as int));
            assert(pi.last() == c);
        }
        let mut next: Vec<bool> = Vec::new();
        // Column 0: only a `*` can match the empty name.
        next.push(if c == '*' {
            row[0]
        } else {
            false
        });
        proof {
            assert(n@.take(0).len() == 0);
        }
        let mut m: usize = 0;
        while m < nl
            invariant
                m <= nl,
                nl == n@.len(),
                row@.len() == nl + 1,
                next@.len() == m + 1,
                pi == p@.take(i + 1),
                pi.len() > 0,
                pi.last() == c,
                pi.drop_last() == p@.take(i as int),
                forall|x: int| 0 <= x <= nl ==> row@[x] == glob(p@.take(i as int), n@.take(x)),
                forall|x: int| 0 <= x <= m ==> next@[x] == glob(pi, n@.take(x)),
            decreases nl - m,
        {
            let k = m + 1;
            let ghost nk = n@.take(k as int);
            proof {
                assert(nk.drop_last() =~= n@.take(k - 1));
                assert(nk.last() == n@[k - 1]);
            }
            let v = if c == '*' {
                row[k] || next[k - 1]
            } else if c == '?' {
                row[k - 1]
            } else {
                row[k - 1] && eq_ignore_ascii_case(c, n[k - 1])
            };
            next.push(v);
            m += 1;
        }
        row = next;
        i += 1;
    }
    proof {
        assert(p@.take(p.len() as int) =~= p@);
        assert(n@.take(nl as int) =~= n@);
    }
    row[nl]
}

/// A pattern of `*` alone matches every name.
pub proof fn lemma_star_matches_all(n: Seq<char>)
    ensures
        glob(seq!['*'], n),
    decreases n.len(),
{
    let star = seq!['*'];
    assert(star.drop_last() =~= Seq::<char>::empty());
    assert(star.last() == '*');
    if n.len() > 0 {
        lemma_star_matches_all(n.drop_last());
        assert(glob(star, n.drop_last()));
    } else {
        assert(glob(star.drop_last(), n));
    }
}

/// A pattern without `*` and `?` matches the names equal to it up to the
/// case of ASCII letters; in particular it matches itself.
pub proof fn lemma_literal_matches_self(p: Seq<char>)
    requires
        forall|i: int| 0 <= i < p.len() ==> p[i] != '*' && p[i] != '?',
    ensures
        glob(p, p),
    decreases p.len(),
{
    if p.len() > 0 {
        lemma_literal_matches_self(p.drop_last());
    }
}

/// A pattern without `*` only matches names of its own length.
pub proof fn lemma_glob_length(p: Seq<char>, n: Seq<char>)
    requires
        forall|i: int| 0 <= i < p.len() ==> p[i] != '*',
        glob(p, n),
    ensures
        n.len() == p.len(),
    decreases p.len() + n.len(),
{
    if p.len() > 0 && n.len() > 0 {
        lemma_glob_length(p.drop_last(), n.drop_last());
    }
}

// ---------------------------------------------------------------------------
// Searching
// ---------------------------------------------------------------------------

/// How a search matches files.
pub enum SearchKind {
    /// The file name against a glob pattern.
    Glob,
    /// The file name contains the pattern, ignoring case.
    Files,
    /// The file's text contains the pattern, ignoring case.
    Content,
    /// An unknown kind: nothing matches.
    Unknown,
}

/// The kind a search type names.
pub fn search_kind(search_type: &str) -> (k: SearchKind)
    ensures
        (k is Glob) == (search_type@ == "glob"@),
        (k is Files) == (search_type@ == "files"@),
        (k is Content) == (search_type@ == "content"@),
{
    let s = owned(search_type);
    proof {
        reveal_strlit("glob");
        reveal_strlit("files");
        reveal_strlit("content");
        assert("files"@[0] != "glob"@[0]);
        assert("content"@.len() != "glob"@.len());
        assert("content"@.len() != "files"@.len());
    }
    if s == owned("glob") {
        SearchKind::Glob
    } else if s == owned("files") {
        assert("files"@ != "glob"@) by {
            assert("files"@[0] != "glob"@[0]);
        }
        SearchKind::Files
    } else if s == owned("content") {
        assert("content"@.len() != "glob"@.len());
        assert("content"@.len() != "files"@.len());
        SearchKind::Content
    } else {
        SearchKind::Unknown
    }
}

/// Whether the walk of a search enters an entry: not when its name starts
/// with `.`.
pub fn search_keeps(name: &str) -> (b: bool)
    ensures
        b == !starts_with_seq(name@, "."@),
{
    let c = chars_of(name);
    let dot = chars_of(".");
    !crate::text::starts_with(c.as_slice(), dot.as_slice())
}

/// Whether a file's name matches a name search (glob or substring; a
/// content search is decided on the file's text).
pub open spec fn name_match(kind: SearchKind, pattern: Seq<char>, name: Seq<char>) -> bool {
    match kind {
        SearchKind::Glob => glob(pattern, name),
        SearchKind::Files => contains_seq(lowercase(name), lowercase(pattern)),
        _ => false,
    }
}

/// Whether a file's name matches a search of kind `Glob` or `Files`.
pub fn name_matches(kind: &SearchKind, pattern: &str, name: &str) -> (b: bool)
    ensures
        b == name_match(*kind, pattern@, name@),
{
    match kind {
        SearchKind::Glob => glob_match(pattern, name),
        SearchKind::Files => {
            let n = chars_of(name);
            let p = chars_of(pattern);
            let ln = to_lowercase(n.as_slice());
            let lp = to_lowercase(p.as_slice());
            contains(ln.as_slice(), lp.as_slice())
        },
        _ => false,
    }
}

/// Whether a file's text matches a content search.
pub fn content_matches(pattern: &str, content: &str) -> (b: bool)
    ensures
        b == contains_seq(lowercase(content@), lowercase(pattern@)),
{
    let c = chars_of(content);
    let p = chars_of(pattern);
    let lc = to_lowercase(c.as_slice());
    let lp = to_lowercase(p.as_slice());
    contains(lc.as_slice(), lp.as_slice())
}

/// The report of a search.
pub open spec fn search_report_text(
    found: Seq<Seq<char>>,
    search_type: Seq<char>,
    pattern: Seq<char>,
    root: Seq<char>,
) -> Seq<char> {
    if found.len() == 0 {
        "No "@ + search_type + " found matching pattern '"@ + pattern + "' in "@ + root
    } else {
        "Found "@ + decimal(found.len()) + " matching "@ + (if found.len() == 1 {
            "file"@
        } else {
            "files"@
        }) + ":\n"@ + join(found, "\n"@)
    }
}

/// The report of a search: the matching paths, or that there were none.
pub fn search_report(found: &Vec<String>, search_type: &str, pattern: &str, root: &str) -> (s: String)
    ensures
        s@ == search_report_text(str_views(found@), search_type@, pattern@, root@),
{
    let mut m: Vec<char> = Vec::new();
    if found.len() == 0 {
        push_str(&mut m, "No ");
        push_str(&mut m, search_type);
        push_str(&mut m, " found matching pattern '");
        push_str(&mut m, pattern);
        push_str(&mut m, "' in ");
        push_str(&mut m, root);
        return string_of(m.as_slice());
    }
    push_str(&mut m, "Found ");
    push_u64(&mut m, found.len() as u64);
    push_str(&mut m, " matching ");
    if found.len() == 1 {
        push_str(&mut m, "file");
    } else {
        push_str(&mut m, "files");
    }
    push_str(&mut m, ":\n");
    let mut parts: Vec<Vec<char>> = Vec::new();
    let mut i: usize = 0;
    while i < found.len()
        invariant
            i <= found.len(),
            parts@.len() == i,
            forall|j: int| 0 <= j < i ==> parts@[j]@ == found@[j]@,
        decreases found.len() - i,
    {
        parts.push(chars_of(found[i].as_str()));
        i += 1;
    }
    let sep = chars_of("\n");
    let joined = join_vecs(&parts, sep.as_slice());
    proof {
        assert(views(parts@) =~= str_views(found@));
    }
    push_all(&mut m, joined.as_slice());
    string_of(m.as_slice())
}

// ---------------------------------------------------------------------------
// Permissions
// ---------------------------------------------------------------------------

/// The octal digits of `n` (as `{:o}` formats it).
pub open spec fn octal(n: nat) -> Seq<char>
    decreases n,
{
    if n < 8 {
        seq![digit(n as int)]
    } else {
        octal(n / 8).push(digit((n % 8) as int))
    }
}

fn push_octal(out: &mut Vec<char>, n: u32)
    ensures
        final(out)@ == old(out)@ + octal(n as nat),
    decreases n,
{
    if n >= 8 {
        push_octal(out, n / 8);
    }
    out.push(crate::text::digit_char((n % 8) as u64));
    proof {
        if n >= 8 {
            assert(old(out)@ + octal(n as nat) =~= old(out)@ + octal((n / 8) as nat) + seq![
                digit((n % 8) as int),
            ]);
        } else {
            assert(old(out)@ + octal(n as nat) =~= old(out)@ + seq![digit(n as int)]);
        }
    }
}

/// The permission bits of a file mode, in octal (`{:o}` of `mode & 0o777`).
pub fn permission_text(mode: u32) -> (s: String)
    ensures
        s@ == octal((mode % 512) as nat),
{
    let bits = mode & 0o777;
    assert(mode & 0o777 == mode % 512) by (bit_vector);
    let mut m: Vec<char> = Vec::new();
    push_octal(&mut m, bits);
    string_of(m.as_slice())
}

// ---------------------------------------------------------------------------
// File information
// ---------------------------------------------------------------------------

/// The earliest second (since the epoch) chrono can represent in UTC:
/// January 1 of the year -262143.
pub const MIN_UTC_SECS: i64 = -8334601228800;

/// The last second (since the epoch) chrono can represent in UTC:
/// December 31 of the year 262142, 23:59:59.
pub const MAX_UTC_SECS: i64 = 8210266876799;

/// The instants chrono's `DateTime::from_timestamp` accepts: seconds within
/// its date range, and nanoseconds below one second, or below two seconds
/// on the last second of a minute (a leap second).
pub open spec fn utc_in_range(secs: i64, nanos: u32) -> bool {
    &&& MIN_UTC_SECS <= secs <= MAX_UTC_SECS
    &&& nanos < 2_000_000_000
    &&& (nanos < 1_000_000_000 || secs % 60 == 59)
}

/// The RFC 3339 text chrono gives for the UTC instant `secs` s + `nanos` ns
/// after the epoch.
pub uninterp spec fn rfc3339_utc(secs: i64, nanos: u32) -> Seq<char>;

/// Wraps `chrono::DateTime::<Utc>::from_timestamp` followed by
/// `to_rfc3339`: `None` exactly outside chrono's range (its date range, an
/// invalid nanosecond count), else the RFC 3339 text, which depends on the
/// instant alone; its exact calendar arithmetic is left to the name.
#[verifier::external_body]
fn utc_rfc3339(secs: i64, nanos: u32) -> (r: Option<String>)
    ensures
        r matches Some(s) ==> s@ == rfc3339_utc(secs, nanos),
        r is Some <==> utc_in_range(secs, nanos),
{
    chrono::DateTime::<chrono::Utc>::from_timestamp(secs, nanos).map(|d| d.to_rfc3339())
}

/// Whether chrono can represent the instant `secs` s + `nanos` ns after
/// the epoch.
pub fn utc_representable(secs: i64, nanos: u32) -> (b: bool)
    ensures
        b == utc_in_range(secs, nanos),
{
    if secs < MIN_UTC_SECS || secs > MAX_UTC_SECS || nanos >= 2_000_000_000 {
        return false;
    }
    if nanos < 1_000_000_000 {
        return true;
    }
    let off: u64 = (secs - MIN_UTC_SECS) as u64;
    proof {
        let k: int = 138910020480;
        assert(MIN_UTC_SECS == -60 * k);
        vstd::arithmetic::div_mod::lemma_mod_multiples_vanish(k, secs as int, 60);
        assert(off as int == 60 * k + secs);
    }
    off % 60 == 59
}

/// A file's times: an instant as seconds and nanoseconds since the epoch,
/// when the platform reports it.
pub type FileTime = Option<(i64, u32)>;

/// The text of a reported time: its RFC 3339 form, or empty when it is
/// not reported.
pub open spec fn time_text(t: FileTime) -> Seq<char> {
    match t {
        Some((s, n)) => rfc3339_utc(s, n),
        None => seq![],
    }
}

/// A reported time chrono can represent (there is nothing to check of an
/// unreported one).
pub open spec fn time_ok(t: FileTime) -> bool {
    match t {
        Some((s, n)) => utc_in_range(s, n),
        None => true,
    }
}

/// What the file information tool reports of a file.
pub struct FileInfo {
    pub size: u64,
    pub is_directory: bool,
    pub is_file: bool,
    pub permissions: String,
    pub modified: String,
    pub created: String,
}

fn time_string(t: FileTime) -> (s: String)
    requires
        time_ok(t),
    ensures
        s@ == time_text(t),
{
    match t {
        Some((secs, nanos)) => match utc_rfc3339(secs, nanos) {
            Some(text) => text,
            None => String::new(),
        },
        None => String::new(),
    }
}

/// The information reported of a file from its metadata: size, kind, the
/// permission bits in octal, and its modification and creation times in
/// RFC 3339 (empty where the platform reports none).
pub fn file_info(
    size: u64,
    is_directory: bool,
    is_file: bool,
    mode: u32,
    modified: FileTime,
    created: FileTime,
) -> (fi: FileInfo)
    requires
        time_ok(modified),
        time_ok(created),
    ensures
        fi.size == size,
        fi.is_directory == is_directory,
        fi.is_file == is_file,
        fi.permissions@ == octal((mode % 512) as nat),
        fi.modified@ == time_text(modified),
        fi.created@ == time_text(created),
{
    FileInfo {
        size,
        is_directory,
        is_file,
        permissions: permission_text(mode),
        modified: time_string(modified),
        created: time_string(created),
    }
}

} // verus!

//! Search-and-replace edits of a file's text: counting and replacing exact
//! occurrences, deciding what an edit does, and the report it gives.

use vstd::prelude::*;
use crate::text::{
    first_match, match_at, is_first_match, lines, join, decimal, views, chars_of, string_of,
    find_from, split_lines, owned, count_lines, push_str, push_all, push_u64, join_vecs, slice_vec,
    lemma_lines_prefix, lemma_first_match_some,
};
use crate::tool::{ToolResult, is_text_result, single_text};

verus! {

/// The number of non-overlapping occurrences of `n` in `h`, found left to
/// right (std's `str::matches(..).count()` for a non-empty pattern).
pub open spec fn occurrences(h: Seq<char>, n: Seq<char>) -> nat
    decreases h.len(),
{
    if n.len() == 0 {
        0
    } else {
        match first_match(h, n) {
            Some(i) => if 0 <= i && i + n.len() <= h.len() {
                1 + occurrences(h.skip(i + n.len()), n)
            } else {
                0
            },
            None => 0,
        }
    }
}

/// `h` with every non-overlapping occurrence of `n`, left to right,
/// replaced by `r` (std's `str::replace` for a non-empty pattern).
pub open spec fn replaced(h: Seq<char>, n: Seq<char>, r: Seq<char>) -> Seq<char>
    decreases h.len(),
{
    if n.len() == 0 {
        h
    } else {
        match first_match(h, n) {
            Some(i) => if 0 <= i && i + n.len() <= h.len() {
                h.take(i) + r + replaced(h.skip(i + n.len()), n, r)
            } else {
                h
            },
            None => h,
        }
    }
}

/// `h` with its first occurrence of `n` replaced by `r` (std's
/// `str::replacen(n, r, 1)`).
pub open spec fn replaced_once(h: Seq<char>, n: Seq<char>, r: Seq<char>) -> Seq<char> {
    match first_match(h, n) {
        Some(i) => h.take(i) + r + h.skip(i + n.len()),
        None => h,
    }
}

/// The number of occurrences of a non-empty `pat` in `text`.
pub fn count_matches(text: &str, pat: &str) -> (n: usize)
    requires
        pat@.len() > 0,
    ensures
        n == occurrences(text@, pat@),
{
    let h = chars_of(text);
    let p = chars_of(pat);
    let mut pos: usize = 0;
    let mut count: usize = 0;
    assert(h@.skip(0) =~= h@);
    loop
        invariant
            pos <= h.len(),
            p@.len() > 0,
            h@ == text@,
            p@ == pat@,
            occurrences(h@, p@) == count + occurrences(h@.skip(pos as int), p@),
            count <= pos,
        decreases h.len() - pos,
    {
        let ghost t = h@.skip(pos as int);
        match find_from(h.as_slice(), p.as_slice(), pos) {
            Some(i) => {
                proof {
                    lemma_first_match_some(t, p@);
                    assert(t.skip(i - pos + p@.len()) =~= h@.skip(i + p@.len()));
                }
                count = count + 1;
                pos = i + p.len();
            },
            None => {
                proof {
                    assert(occurrences(t, p@) == 0);
                }
                return count;
            },
        }
    }
}

/// `text` with every occurrence of a non-empty `pat` replaced by `with`.
pub fn replace_all(text: &str, pat: &str, with: &str) -> (r: String)
    requires
        pat@.len() > 0,
    ensures
        r@ == replaced(text@, pat@, with@),
{
    let h = chars_of(text);
    let p = chars_of(pat);
    let w = chars_of(with);
    let mut out: Vec<char> = Vec::new();
    let mut pos: usize = 0;
    assert(h@.skip(0) =~= h@);
    loop
        invariant
            pos <= h.len(),
            p@.len() > 0,
            h@ == text@,
            p@ == pat@,
            w@ == with@,
            replaced(h@, p@, w@) == out@ + replaced(h@.skip(pos as int), p@, w@),
        decreases h.len() - pos,
    {
        let ghost t = h@.skip(pos as int);
        match find_from(h.as_slice(), p.as_slice(), pos) {
            Some(i) => {
                proof {
                    lemma_first_match_some(t, p@);
                    assert(t.skip(i - pos + p@.len()) =~= h@.skip(i + p@.len()));
                    assert(t.take(i - pos) =~= h@.subrange(pos as int, i as int));
                    assert(replaced(t, p@, w@) == t.take(i - pos) + w@ + replaced(
                        h@.skip(i + p@.len()),
                        p@,
                        w@,
                    ));
                }
                let piece = slice_vec(h.as_slice(), pos, i);
                let ghost before = out@;
                let ghost old_pos = pos;
                push_all(&mut out, piece.as_slice());
                push_all(&mut out, w.as_slice());
                pos = i + p.len();
                proof {
                    assert(out@ == before + t.take(i - old_pos) + w@);
                    assert(out@ + replaced(h@.skip(pos as int), p@, w@) =~= before + replaced(
                        t,
                        p@,
                        w@,
                    ));
                }
            },
            None => {
                let rest = slice_vec(h.as_slice(), pos, h.len());
                push_all(&mut out, rest.as_slice());
                proof {
                    assert(rest@ =~= t);
                    assert(replaced(t, p@, w@) == t);
                }
                return string_of(out.as_slice());
            },
        }
    }
}

/// `text` with the first occurrence of `pat` replaced by `with`.
pub fn replace_first(text: &str, pat: &str, with: &str) -> (r: String)
    ensures
        r@ == replaced_once(text@, pat@, with@),
{
    let h = chars_of(text);
    let p = chars_of(pat);
    let w = chars_of(with);
    assert(h@.skip(0) =~= h@);
    match find_from(h.as_slice(), p.as_slice(), 0) {
        Some(i) => {
            let n_h = h.len();
            assert(match_at(h@, p@, i as int));
            let after: usize = i + p.len();
            let mut out = slice_vec(h.as_slice(), 0, i);
            push_all(&mut out, w.as_slice());
            let rest = slice_vec(h.as_slice(), after, n_h);
            push_all(&mut out, rest.as_slice());
            proof {
                assert(h@.subrange(0, i as int) =~= h@.take(i as int));
                assert(rest@ =~= h@.skip(i + p@.len()));
            }
            string_of(out.as_slice())
        },
        None => string_of(h.as_slice()),
    }
}

/// The header of a window of lines: how many, from where, out of how many.
pub open spec fn reading_header(n: nat, start: nat, total: nat, remaining: nat) -> Seq<char> {
    "[Reading "@ + decimal(n) + " lines from line "@ + decimal(start) + " (total: "@ + decimal(
        total,
    ) + " lines, "@ + decimal(remaining) + " remaining)]"@
}

/// Appends [`reading_header`].
pub fn push_reading_header(out: &mut Vec<char>, n: usize, start: usize, total: usize, remaining: usize)
    ensures
        final(out)@ == old(out)@ + reading_header(n as nat, start as nat, total as nat, remaining as nat),
{
    push_str(out, "[Reading ");
    push_u64(out, n as u64);
    push_str(out, " lines from line ");
    push_u64(out, start as u64);
    push_str(out, " (total: ");
    push_u64(out, total as u64);
    push_str(out, " lines, ");
    push_u64(out, remaining as u64);
    push_str(out, " remaining)]");
    proof {
        assert(final(out)@ =~= old(out)@ + reading_header(
            n as nat,
            start as nat,
            total as nat,
            remaining as nat,
        ));
    }
}

/// Lines of context shown around an edit.
pub const PREVIEW_CONTEXT: usize = 10;

/// Where the preview of an edited text starts: the line of the first
/// occurrence of the new text, less the context.
pub open spec fn preview_start(new_text: Seq<char>, inserted: Seq<char>) -> nat {
    let pos = match first_match(new_text, inserted) {
        Some(i) => i,
        None => 0,
    };
    let line = lines(new_text.take(pos)).len();
    if line > PREVIEW_CONTEXT {
        (line - PREVIEW_CONTEXT) as nat
    } else {
        0
    }
}

/// Where the preview of an edited text ends.
pub open spec fn preview_end(new_text: Seq<char>, inserted: Seq<char>) -> nat {
    let pos = match first_match(new_text, inserted) {
        Some(i) => i,
        None => 0,
    };
    let line = lines(new_text.take(pos)).len();
    let e = line + lines(inserted).len() + PREVIEW_CONTEXT;
    let total = lines(new_text).len();
    if e < total {
        e as nat
    } else {
        total
    }
}

/// The preview shown after a large edit: the lines around the inserted
/// text, under a header.
pub open spec fn preview_report(new_text: Seq<char>, inserted: Seq<char>) -> Seq<char> {
    let s = preview_start(new_text, inserted);
    let e = preview_end(new_text, inserted);
    let total = lines(new_text).len();
    reading_header((e - s) as nat, s, total, (total - e) as nat) + "\n\n"@ + join(
        lines(new_text).subrange(s as int, e as int),
        "\n"@,
    )
}

/// The report of an edit that replaced `count` occurrences in a file.
pub open spec fn replaced_report(count: nat, path: Seq<char>) -> Seq<char> {
    "Successfully replaced "@ + decimal(count) + " occurrence(s) in "@ + path
}

/// The refusal of an edit whose number of occurrences is not the expected one.
pub open spec fn mismatch_report(expected: nat, count: nat, path: Seq<char>) -> Seq<char> {
    "Expected "@ + decimal(expected) + " occurrences but found "@ + decimal(count) + " in "@
        + path + ". Use expected_replacements="@ + decimal(count)
        + " to replace all, or make the search string more unique."@
}

/// What an edit does once the file's text is known.
pub enum EditPlan {
    /// Write `new_content`, and answer with `report`.
    Apply { new_content: String, report: String },
    /// Leave the file alone and answer with this error.
    Refuse(String),
    /// No exact occurrence: look for a similar text instead.
    NoExactMatch,
}

/// The plan for replacing `old` by `new` in `content`, where `old` is
/// expected `expected` times and a text of more than `limit` lines is
/// answered with a preview rather than a one-line report.
pub open spec fn exact_plan(
    content: Seq<char>,
    old: Seq<char>,
    new: Seq<char>,
    expected: nat,
    path: Seq<char>,
    limit: nat,
    p: EditPlan,
) -> bool {
    let count = occurrences(content, old);
    if count == 0 {
        p is NoExactMatch
    } else if count != expected {
        p matches EditPlan::Refuse(m) && m@ == mismatch_report(expected, count, path)
    } else {
        let nc = replaced(content, old, new);
        p matches EditPlan::Apply { new_content, report } && new_content@ == nc && report@ == (
        if lines(nc).len() > limit {
            preview_report(nc, new)
        } else {
            replaced_report(count, path)
        })
    }
}

/// The message refusing an empty search text.
pub open spec fn empty_search_message() -> Seq<char> {
    "Empty search strings are not allowed."@
}

/// Refuses an empty search text before anything is read: an error result,
/// or `None` when the search text is not empty.
pub fn refuse_empty_search(old: &str) -> (r: Option<ToolResult>)
    ensures
        match r {
            Some(t) => old@.len() == 0 && is_text_result(t, empty_search_message(), Some(true)),
            None => old@.len() > 0,
        },
{
    let c = chars_of(old);
    if c.len() == 0 {
        Some(single_text(owned("Empty search strings are not allowed."), Some(true)))
    } else {
        None
    }
}

fn preview(new_text: &str, inserted: &str) -> (r: String)
    ensures
        r@ == preview_report(new_text@, inserted@),
{
    let nc = chars_of(new_text);
    let ins = chars_of(inserted);
    assert(nc@.skip(0) =~= nc@);
    let pos: usize = match find_from(nc.as_slice(), ins.as_slice(), 0) {
        Some(i) => i,
        None => 0,
    };
    let before = slice_vec(nc.as_slice(), 0, pos);
    assert(before@ =~= nc@.take(pos as int));
    let line = count_lines(before.as_slice());
    let all = split_lines(nc.as_slice());
    let total = all.len();
    proof {
        lemma_lines_prefix(nc@, pos as int);
        assert(views(all@).len() == all@.len());
    }
    let n_ins = count_lines(ins.as_slice());
    let start: usize = if line > PREVIEW_CONTEXT {
        line - PREVIEW_CONTEXT
    } else {
        0
    };
    let e0: u128 = (line as u128) + (n_ins as u128) + (PREVIEW_CONTEXT as u128);
    let end: usize = if e0 < total as u128 {
        e0 as usize
    } else {
        total
    };
    let mut window: Vec<Vec<char>> = Vec::new();
    let mut k: usize = start;
    while k < end
        invariant
            start <= k <= end,
            end <= all@.len(),
            window@.len() == k - start,
            forall|j: int| 0 <= j < k - start ==> window@[j]@ == all@[start + j]@,
        decreases end - k,
    {
        let l = slice_vec(all[k].as_slice(), 0, all[k].len());
        proof {
            assert(l@ =~= all@[k as int]@);
        }
        window.push(l);
        k += 1;
    }
    let mut out: Vec<char> = Vec::new();
    push_reading_header(&mut out, end - start, start, total, total - end);
    push_str(&mut out, "\n\n");
    let sep = chars_of("\n");
    let body = join_vecs(&window, sep.as_slice());
    push_all(&mut out, body.as_slice());
    proof {
        assert(views(window@) =~= lines(nc@).subrange(start as int, end as int));
        assert(out@ =~= preview_report(new_text@, inserted@));
    }
    string_of(out.as_slice())
}

/// Decides an exact search-and-replace edit on a file's text: replace every
/// occurrence when there are exactly as many as expected, refuse when the
/// number differs, and fall through to a similarity search when there is
/// none.
pub fn plan_exact_edit(
    content: &str,
    old: &str,
    new: &str,
    expected: usize,
    file_path: &str,
    limit: usize,
) -> (p: EditPlan)
    requires
        old@.len() > 0,
    ensures
        exact_plan(content@, old@, new@, expected as nat, file_path@, limit as nat, p),
{
    let count = count_matches(content, old);
    if count == 0 {
        return EditPlan::NoExactMatch;
    }
    if count != expected {
        let mut m: Vec<char> = Vec::new();
        push_str(&mut m, "Expected ");
        push_u64(&mut m, expected as u64);
        push_str(&mut m, " occurrences but found ");
        push_u64(&mut m, count as u64);
        push_str(&mut m, " in ");
        push_str(&mut m, file_path);
        push_str(&mut m, ". Use expected_replacements=");
        push_u64(&mut m, count as u64);
        push_str(&mut m, " to replace all, or make the search string more unique.");
        proof {
            assert(m@ =~= mismatch_report(expected as nat, count as nat, file_path@));
        }
        return EditPlan::Refuse(string_of(m.as_slice()));
    }
    let new_content = replace_all(content, old, new);
    let nc = chars_of(new_content.as_str());
    let n_lines = count_lines(nc.as_slice());
    let report = if n_lines > limit {
        preview(new_content.as_str(), new)
    } else {
        let mut m: Vec<char> = Vec::new();
        push_str(&mut m, "Successfully replaced ");
        push_u64(&mut m, count as u64);
        push_str(&mut m, " occurrence(s) in ");
        push_str(&mut m, file_path);
        proof {
            assert(m@ =~= replaced_report(count as nat, file_path@));
        }
        string_of(m.as_slice())
    };
    EditPlan::Apply { new_content, report }
}

/// Replacing every occurrence leaves none of the pattern behind where the
/// replacement cannot create one: with an empty replacement, the text has
/// exactly the occurrences' length less characters.
pub proof fn lemma_replaced_len(h: Seq<char>, n: Seq<char>, r: Seq<char>)
    requires
        n.len() > 0,
    ensures
        replaced(h, n, r).len() == h.len() + occurrences(h, n) * (r.len() - n.len()),
    decreases h.len(),
{
    match first_match(h, n) {
        Some(i) => {
            if 0 <= i && i + n.len() <= h.len() {
                lemma_replaced_len(h.skip(i + n.len()), n, r);
                let k = occurrences(h.skip(i + n.len()), n);
                let d = r.len() - n.len();
                let rest = replaced(h.skip(i + n.len()), n, r);
                assert(occurrences(h, n) == 1 + k);
                assert(replaced(h, n, r) == h.take(i) + r + rest);
                assert(rest.len() == h.len() - i - n.len() + k * d);
                assert((1 + k) * d == d + k * d) by (nonlinear_arith);
                assert(replaced(h, n, r).len() == h.len() + (1 + k) * d);
            } else {
                assert(occurrences(h, n) == 0);
                assert(replaced(h, n, r) == h);
            }
        },
        None => {
            assert(occurrences(h, n) == 0);
            assert(replaced(h, n, r) == h);
        },
    }
}

/// Replacing a pattern by itself gives back the same text.
pub proof fn lemma_replace_identity(h: Seq<char>, n: Seq<char>)
    requires
        n.len() > 0,
    ensures
        replaced(h, n, n) == h,
    decreases h.len(),
{
    match first_match(h, n) {
        Some(i) => {
            if 0 <= i && i + n.len() <= h.len() {
                lemma_replace_identity(h.skip(i + n.len()), n);
                lemma_first_match_some(h, n);
                assert(h.subrange(i, i + n.len()) == n);
                assert(h =~= h.take(i) + n + h.skip(i + n.len()));
            }
        },
        None => {},
    }
}

} // verus!

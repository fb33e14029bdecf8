//! Approximate search: the window of a text closest to a query in edit
//! distance, and the display of how two texts differ.

use vstd::prelude::*;
use vstd::arithmetic::div_mod::{lemma_add_mod_noop, lemma_small_mod};
use crate::text::{chars_of, string_of, slice_vec, push_all, push_str};

verus! {

/// The edit (Levenshtein) distance: the least number of single-character
/// insertions, deletions and substitutions that turn `a` into `b`.
pub open spec fn edit_distance(a: Seq<char>, b: Seq<char>) -> nat
    decreases a.len() + b.len(),
{
    if a.len() == 0 {
        b.len()
    } else if b.len() == 0 {
        a.len()
    } else {
        let sub = edit_distance(a.drop_last(), b.drop_last()) + if a.last() == b.last() {
            0nat
        } else {
            1nat
        };
        let del = edit_distance(a.drop_last(), b) + 1;
        let ins = edit_distance(a, b.drop_last()) + 1;
        if sub <= del && sub <= ins {
            sub
        } else if del <= ins {
            del
        } else {
            ins
        }
    }
}

/// Wraps `strsim::levenshtein`, which counts the least number of
/// insertions, deletions and substitutions of characters that change one
/// string into the other; the contract states that number.
#[verifier::external_body]
fn levenshtein(a: &str, b: &str) -> (d: usize)
    ensures
        d == edit_distance(a@, b@),
{
    strsim::levenshtein(a, b)
}

/// The distance is at most the two lengths together.
pub proof fn lemma_edit_distance_bound(a: Seq<char>, b: Seq<char>)
    ensures
        edit_distance(a, b) <= a.len() + b.len(),
    decreases a.len() + b.len(),
{
    if a.len() > 0 && b.len() > 0 {
        lemma_edit_distance_bound(a.drop_last(), b);
    }
}

/// The distance from a text to itself is zero.
pub proof fn lemma_edit_distance_self(a: Seq<char>)
    ensures
        edit_distance(a, a) == 0,
    decreases a.len(),
{
    if a.len() > 0 {
        lemma_edit_distance_self(a.drop_last());
    }
}

/// The distance between the window `t[s..e]` and the query.
pub open spec fn wdist(t: Seq<char>, q: Seq<char>, s: int, e: int) -> nat {
    edit_distance(t.subrange(s, e), q)
}

/// The stride of the coarse scan: one position in a thousandth of the range.
pub open spec fn scan_step(tl: int, ql: int) -> int {
    if tl - ql > 1000 {
        (tl - ql) / 1000
    } else {
        1
    }
}

/// The end of the coarse window that starts at `i`: twice the query's
/// length, cut at the end of the text.
pub open spec fn coarse_end(tl: int, ql: int, i: int) -> int {
    if i + 2 * ql < tl {
        i + 2 * ql
    } else {
        tl
    }
}

/// A start visited by the coarse scan.
pub open spec fn is_scan_pos(tl: int, ql: int, p: int) -> bool {
    0 <= p <= tl - ql && p % scan_step(tl, ql) == 0
}

/// `s` is the first coarse start whose window is nearest to the query.
pub open spec fn coarse_best(t: Seq<char>, q: Seq<char>, s: int) -> bool {
    let tl = t.len() as int;
    let ql = q.len() as int;
    &&& is_scan_pos(tl, ql, s)
    &&& forall|p: int| #[trigger]
        is_scan_pos(tl, ql, p) ==> wdist(t, q, p, coarse_end(tl, ql, p)) >= wdist(
            t,
            q,
            s,
            coarse_end(tl, ql, s),
        )
    &&& forall|p: int| #[trigger]
        is_scan_pos(tl, ql, p) && p < s ==> wdist(t, q, p, coarse_end(tl, ql, p)) > wdist(
            t,
            q,
            s,
            coarse_end(tl, ql, s),
        )
}

/// The refinement window around the coarse best `[s1, e1)`: its first
/// start, the end of the region, and its last start.
pub open spec fn refine_range(ql: int, s1: int, e1: int) -> int {
    if 2 * ql > e1 - s1 {
        2 * ql
    } else {
        e1 - s1
    }
}

pub open spec fn refine_lo(ql: int, s1: int, e1: int) -> int {
    if s1 > refine_range(ql, s1, e1) {
        s1 - refine_range(ql, s1, e1)
    } else {
        0
    }
}

pub open spec fn refine_hi(tl: int, ql: int, s1: int, e1: int) -> int {
    if e1 + refine_range(ql, s1, e1) < tl {
        e1 + refine_range(ql, s1, e1)
    } else {
        tl
    }
}

pub open spec fn refine_last(tl: int, ql: int, s1: int, e1: int) -> int {
    if refine_hi(tl, ql, s1, e1) > ql {
        refine_hi(tl, ql, s1, e1) - ql
    } else {
        0
    }
}

/// `[i, j)` is a window tried by the refinement around `[s1, e1)`: it
/// starts in the region, is at least as long as the query and at most
/// twice as long, and ends in the region.
pub open spec fn is_refine_cand(tl: int, ql: int, s1: int, e1: int, i: int, j: int) -> bool {
    &&& refine_lo(ql, s1, e1) <= i <= refine_last(tl, ql, s1, e1)
    &&& i + ql <= j
    &&& j <= i + 2 * ql
    &&& j <= refine_hi(tl, ql, s1, e1)
}

/// Windows are tried by start, then by end.
pub open spec fn lex_lt(i1: int, j1: int, i2: int, j2: int) -> bool {
    i1 < i2 || (i1 == i2 && j1 < j2)
}

/// The outcome of the refinement around the coarse best `[s1, e1)`: the
/// coarse window itself when no refined window is strictly nearer, else
/// the first refined window at the least distance.
pub open spec fn refined(t: Seq<char>, q: Seq<char>, s1: int, e1: int, s: int, e: int, d: nat) -> bool {
    let tl = t.len() as int;
    let ql = q.len() as int;
    let d1 = wdist(t, q, s1, e1);
    if forall|i: int, j: int| #[trigger]
        is_refine_cand(tl, ql, s1, e1, i, j) ==> wdist(t, q, i, j) >= d1 {
        s == s1 && e == e1 && d == d1
    } else {
        &&& is_refine_cand(tl, ql, s1, e1, s, e)
        &&& d == wdist(t, q, s, e)
        &&& forall|i: int, j: int| #[trigger]
            is_refine_cand(tl, ql, s1, e1, i, j) ==> wdist(t, q, i, j) >= d
        &&& forall|i: int, j: int| #[trigger]
            is_refine_cand(tl, ql, s1, e1, i, j) && lex_lt(i, j, s, e) ==> wdist(t, q, i, j) > d
    }
}

/// `[s, e)` at distance `d` is the window of `t` closest to `q` as the
/// search finds it: the nearest window of a coarse scan, refined by trying
/// every window near it.
pub open spec fn closest(t: Seq<char>, q: Seq<char>, s: int, e: int, d: nat) -> bool {
    exists|s1: int|
        coarse_best(t, q, s1) && refined(
            t,
            q,
            s1,
            coarse_end(t.len() as int, q.len() as int, s1),
            s,
            e,
            d,
        )
}

/// A window of a text and its distance to the query.
pub struct WindowMatch {
    pub start: usize,
    pub end: usize,
    pub value: String,
    pub distance: usize,
}

proof fn lemma_skip_between(i: int, step: int, p: int)
    requires
        step > 0,
        i >= 0,
        i % step == 0,
        i < p < i + step,
    ensures
        p % step != 0,
{
    let r = p - i;
    lemma_add_mod_noop(i, r, step);
    lemma_small_mod(r as nat, step as nat);
    lemma_small_mod(0nat, step as nat);
}

proof fn lemma_step_mod(i: int, step: int)
    requires
        step > 0,
        i >= 0,
        i % step == 0,
    ensures
        (i + step) % step == 0,
{
    lemma_add_mod_noop(i, step, step);
    vstd::arithmetic::div_mod::lemma_mod_self_0(step);
    lemma_small_mod(0nat, step as nat);
}

fn window_distance(t: &Vec<char>, q: &str, i: usize, j: usize) -> (d: usize)
    requires
        i <= j <= t.len(),
    ensures
        d == wdist(t@, q@, i as int, j as int),
{
    let piece = slice_vec(t.as_slice(), i, j);
    let cand = string_of(piece.as_slice());
    levenshtein(cand.as_str(), q)
}

/// State of the refinement after trying every window before `(ci, cj)`.
spec fn refined_upto(
    t: Seq<char>,
    q: Seq<char>,
    s1: int,
    e1: int,
    ci: int,
    cj: int,
    bs: int,
    be: int,
    bd: nat,
) -> bool {
    let tl = t.len() as int;
    let ql = q.len() as int;
    let d1 = wdist(t, q, s1, e1);
    &&& bd == wdist(t, q, bs, be)
    &&& bd <= d1
    &&& forall|i: int, j: int| #[trigger]
        is_refine_cand(tl, ql, s1, e1, i, j) && lex_lt(i, j, ci, cj) ==> wdist(t, q, i, j) >= bd
    &&& ((bs == s1 && be == e1 && bd == d1) || (is_refine_cand(tl, ql, s1, e1, bs, be) && lex_lt(
        bs,
        be,
        ci,
        cj,
    ) && bd < d1 && forall|i: int, j: int| #[trigger]
        is_refine_cand(tl, ql, s1, e1, i, j) && lex_lt(i, j, bs, be) ==> wdist(t, q, i, j) > bd))
}

/// The window of `text` nearest to `query` in edit distance, as a
/// two-stage search finds it: windows of up to twice the query's length
/// are scanned at a stride (a thousandth of the range, at least one), the
/// first nearest is kept, stopping early at an exact match; then every
/// window of between one and two query lengths whose start and end lie
/// near it is tried, and the first strictly nearer one wins. An empty
/// query, or one longer than the text, gives an empty window at distance
/// the query's length.
pub fn find_closest(text: &str, query: &str) -> (m: WindowMatch)
    requires
        text@.len() <= usize::MAX / 8,
    ensures
        (query@.len() == 0 || text@.len() < query@.len()) ==> (m.start == 0 && m.end == 0
            && m.value@.len() == 0 && m.distance == query@.len()),
        !(query@.len() == 0 || text@.len() < query@.len()) ==> {
            &&& closest(text@, query@, m.start as int, m.end as int, m.distance as nat)
            &&& m.start <= m.end <= text@.len()
            &&& m.value@ == text@.subrange(m.start as int, m.end as int)
        },
{
    let t = chars_of(text);
    let q = chars_of(query);
    let ql = q.len();
    let tl = t.len();
    if ql == 0 || tl < ql {
        return WindowMatch { start: 0, end: 0, value: String::new(), distance: ql };
    }
    let ghost ts = t@;
    let ghost qs = q@;
    let sr = tl - ql;
    let step: usize = if sr > 1000 {
        sr / 1000
    } else {
        1
    };
    assert(step as int == scan_step(tl as int, ql as int));
    // Coarse scan.
    let mut best_d: usize = usize::MAX;
    let mut bs: usize = 0;
    let mut be: usize = ql;
    let mut i: usize = 0;
    let mut done = false;
    while !done && i <= sr
        invariant
            tl == ts.len(),
            ql == qs.len(),
            ts == text@,
            qs == query@,
            t@ == ts,
            0 < ql <= tl,
            tl <= usize::MAX / 8,
            sr == tl - ql,
            step as int == scan_step(tl as int, ql as int),
            step > 0,
            i % step == 0,
            i <= sr + step,
            (i == 0 && !done) ==> best_d == usize::MAX,
            i > 0 || done ==> {
                &&& is_scan_pos(tl as int, ql as int, bs as int)
                &&& be as int == coarse_end(tl as int, ql as int, bs as int)
                &&& best_d == wdist(ts, qs, bs as int, be as int)
                &&& forall|p: int| #[trigger]
                    is_scan_pos(tl as int, ql as int, p) && (p < i || done) ==> wdist(
                        ts,
                        qs,
                        p,
                        coarse_end(tl as int, ql as int, p),
                    ) >= best_d
                &&& forall|p: int| #[trigger]
                    is_scan_pos(tl as int, ql as int, p) && p < bs ==> wdist(
                        ts,
                        qs,
                        p,
                        coarse_end(tl as int, ql as int, p),
                    ) > best_d
            },
        decreases sr + step - i + (if done {
            0int
        } else {
            1int
        }),
    {
        let end: usize = if i + 2 * ql < tl {
            i + 2 * ql
        } else {
            tl
        };
        let dist = window_distance(&t, query, i, end);
        proof {
            lemma_edit_distance_bound(ts.subrange(i as int, end as int), qs);
            assert(is_scan_pos(tl as int, ql as int, i as int));
        }
        if dist < best_d {
            best_d = dist;
            bs = i;
            be = end;
            if dist == 0 {
                done = true;
            }
        }
        proof {
            assert forall|p: int| #[trigger]
                is_scan_pos(tl as int, ql as int, p) && p < i + step implies p <= i by {
                if i < p < i + step {
                    lemma_skip_between(i as int, step as int, p);
                }
            }
            lemma_step_mod(i as int, step as int);
        }
        if !done {
            i = i + step;
        }
    }
    proof {
        assert(i > 0 || done);
        assert forall|p: int| #[trigger] is_scan_pos(tl as int, ql as int, p) implies wdist(
            ts,
            qs,
            p,
            coarse_end(tl as int, ql as int, p),
        ) >= best_d by {
            if !done {
                assert(p < i);
            }
        }
        assert(coarse_best(ts, qs, bs as int));
    }
    let ghost s1 = bs as int;
    let ghost e1 = be as int;
    // Refinement around the coarse best.
    let rr: usize = if 2 * ql > be - bs {
        2 * ql
    } else {
        be - bs
    };
    let lo: usize = if bs > rr {
        bs - rr
    } else {
        0
    };
    let hi: usize = if be + rr < tl {
        be + rr
    } else {
        tl
    };
    let last: usize = if hi > ql {
        hi - ql
    } else {
        0
    };
    assert(lo as int == refine_lo(ql as int, s1, e1));
    assert(hi as int == refine_hi(tl as int, ql as int, s1, e1));
    assert(last as int == refine_last(tl as int, ql as int, s1, e1));
    let mut a: usize = lo;
    proof {
        assert(refined_upto(ts, qs, s1, e1, lo as int, 0, bs as int, be as int, best_d as nat));
    }
    while a <= last
        invariant
            tl == ts.len(),
            ql == qs.len(),
            t@ == ts,
            qs == query@,
            0 < ql <= tl,
            tl <= usize::MAX / 8,
            lo as int == refine_lo(ql as int, s1, e1),
            hi as int == refine_hi(tl as int, ql as int, s1, e1),
            last as int == refine_last(tl as int, ql as int, s1, e1),
            hi <= tl,
            last <= tl,
            lo <= a <= last + 1,
            bs <= be <= tl,
            refined_upto(ts, qs, s1, e1, a as int, 0, bs as int, be as int, best_d as nat),
        decreases last + 1 - a,
    {
        let jmax: usize = if a + 2 * ql < hi {
            a + 2 * ql
        } else {
            hi
        };
        let mut b: usize = a + ql;
        proof {
            assert forall|i: int, j: int| #[trigger]
                is_refine_cand(tl as int, ql as int, s1, e1, i, j) && lex_lt(
                    i,
                    j,
                    a as int,
                    b as int,
                ) implies lex_lt(i, j, a as int, 0) by {}
            if bs as int != s1 || be as int != e1 || best_d as nat != wdist(ts, qs, s1, e1) {
                assert(lex_lt(bs as int, be as int, a as int, b as int));
            }
        }
        while b <= jmax
            invariant
                tl == ts.len(),
                ql == qs.len(),
                t@ == ts,
                qs == query@,
                0 < ql <= tl,
                tl <= usize::MAX / 8,
                lo as int == refine_lo(ql as int, s1, e1),
                hi as int == refine_hi(tl as int, ql as int, s1, e1),
                last as int == refine_last(tl as int, ql as int, s1, e1),
                hi <= tl,
                lo <= a <= last,
                a + ql <= b <= jmax + 1,
                jmax as int == (if a + 2 * ql < hi {
                    a + 2 * ql
                } else {
                    hi as int
                }),
                jmax <= hi,
                bs <= be <= tl,
                refined_upto(ts, qs, s1, e1, a as int, b as int, bs as int, be as int, best_d as nat),
            decreases jmax + 1 - b,
        {
            let dist = window_distance(&t, query, a, b);
            proof {
                assert(is_refine_cand(tl as int, ql as int, s1, e1, a as int, b as int));
            }
            if dist < best_d {
                best_d = dist;
                bs = a;
                be = b;
            }
            proof {
                assert forall|i: int, j: int| #[trigger]
                    is_refine_cand(tl as int, ql as int, s1, e1, i, j) && lex_lt(
                        i,
                        j,
                        a as int,
                        b + 1,
                    ) implies wdist(ts, qs, i, j) >= best_d by {
                    if !(i == a && j == b) {
                        assert(lex_lt(i, j, a as int, b as int));
                    }
                }
            }
            b = b + 1;
        }
        proof {
            assert forall|i: int, j: int| #[trigger]
                is_refine_cand(tl as int, ql as int, s1, e1, i, j) && lex_lt(
                    i,
                    j,
                    a + 1,
                    0,
                ) implies wdist(ts, qs, i, j) >= best_d by {
                if i == a {
                    assert(lex_lt(i, j, a as int, b as int));
                } else {
                    assert(lex_lt(i, j, a as int, b as int));
                }
            }
        }
        a = a + 1;
    }
    proof {
        let tli = tl as int;
        let qli = ql as int;
        assert forall|i: int, j: int| #[trigger]
            is_refine_cand(tli, qli, s1, e1, i, j) implies lex_lt(i, j, a as int, 0) by {}
        assert(refined(ts, qs, s1, e1, bs as int, be as int, best_d as nat));
        assert(e1 == coarse_end(tli, qli, s1));
    }
    let piece = slice_vec(t.as_slice(), bs, be);
    WindowMatch { start: bs, end: be, value: string_of(piece.as_slice()), distance: best_d }
}

/// The smaller of two integers.
pub open spec fn min_int(a: int, b: int) -> int {
    if a < b {
        a
    } else {
        b
    }
}

/// The distance to the query of the window of up to twice its length
/// starting at `p`.
pub open spec fn double_window_dist(t: Seq<char>, q: Seq<char>, p: int) -> nat {
    wdist(t, q, p, min_int(p + 2 * q.len(), t.len() as int))
}

/// The window the search returns is the nearest of all the windows the
/// search considers. With `step` the coarse stride (a thousandth of
/// `|t| - |q|`, at least 1), there is a coarse start `s1` (a multiple of
/// `step` with room for the query) whose window `[s1, e1)`, up to twice the
/// query's length, is nearest among all such coarse windows and strictly
/// nearer than those starting before it; the result is no farther than
/// it, and no farther than any window `[i, j)` between one and two query
/// lengths long that starts at or after `s1 - r` (`r` the larger of `2|q|`
/// and `e1 - s1`), at most `|q|` before the region's end, and ends by
/// `min(e1 + r, |t|)`. The returned distance is the window's edit distance
/// to the query.
pub proof fn lemma_closest_beats_nearby(t: Seq<char>, q: Seq<char>, s: int, e: int, d: nat)
    requires
        closest(t, q, s, e, d),
    ensures
        d == wdist(t, q, s, e),
        ({
            let tl = t.len() as int;
            let ql = q.len() as int;
            let step = if tl - ql > 1000 {
                (tl - ql) / 1000
            } else {
                1
            };
            exists|s1: int| #![trigger double_window_dist(t, q, s1)] {
                let e1 = min_int(s1 + 2 * ql, tl);
                let r = if 2 * ql > e1 - s1 {
                    2 * ql
                } else {
                    e1 - s1
                };
                let lo = if s1 > r {
                    s1 - r
                } else {
                    0
                };
                let hi = min_int(e1 + r, tl);
                let last = if hi > ql {
                    hi - ql
                } else {
                    0
                };
                &&& 0 <= s1 <= tl - ql && s1 % step == 0
                &&& d <= double_window_dist(t, q, s1)
                &&& forall|p: int|
                    0 <= p <= tl - ql && p % step == 0 ==> double_window_dist(t, q, s1)
                        <= #[trigger] double_window_dist(t, q, p) && (p < s1 ==> double_window_dist(
                        t,
                        q,
                        s1,
                    ) < double_window_dist(t, q, p))
                &&& forall|i: int, j: int|
                    lo <= i <= last && ql <= j - i <= 2 * ql && j <= hi ==> d <= #[trigger] wdist(
                        t,
                        q,
                        i,
                        j,
                    )
            }
        }),
{
    let tl = t.len() as int;
    let ql = q.len() as int;
    let s1 = choose|s1: int|
        coarse_best(t, q, s1) && refined(t, q, s1, coarse_end(tl, ql, s1), s, e, d);
    let e1 = coarse_end(tl, ql, s1);
    assert(e1 == min_int(s1 + 2 * ql, tl));
    assert forall|p: int| 0 <= p <= tl - ql && p % scan_step(tl, ql) == 0 implies double_window_dist(
        t,
        q,
        s1,
    ) <= #[trigger] double_window_dist(t, q, p) && (p < s1 ==> double_window_dist(t, q, s1)
        < double_window_dist(t, q, p)) by {
        assert(is_scan_pos(tl, ql, p));
        assert(coarse_end(tl, ql, p) == min_int(p + 2 * ql, tl));
    }
    assert forall|i: int, j: int|
        refine_lo(ql, s1, e1) <= i <= refine_last(tl, ql, s1, e1) && ql <= j - i <= 2 * ql && j
            <= refine_hi(tl, ql, s1, e1) implies d <= #[trigger] wdist(t, q, i, j) by {
        assert(is_refine_cand(tl, ql, s1, e1, i, j));
    }
    assert(double_window_dist(t, q, s1) == wdist(t, q, s1, e1));
}

/// The number of bytes of a character in UTF-8.
pub open spec fn utf8_width(c: char) -> nat {
    let u = c as u32;
    if u < 0x80 {
        1
    } else if u < 0x800 {
        2
    } else if u < 0x10000 {
        3
    } else {
        4
    }
}

/// The number of bytes of a text in UTF-8 (std's `str::len`).
pub open spec fn utf8_len(s: Seq<char>) -> nat
    decreases s.len(),
{
    if s.len() == 0 {
        0
    } else {
        utf8_len(s.drop_last()) + utf8_width(s.last())
    }
}

/// How many characters two texts share at their start.
pub open spec fn common_prefix_len(a: Seq<char>, b: Seq<char>) -> nat
    decreases a.len(),
{
    if a.len() == 0 || b.len() == 0 || a[0] != b[0] {
        0
    } else {
        1 + common_prefix_len(a.skip(1), b.skip(1))
    }
}

/// How many characters two texts share at their end.
pub open spec fn common_suffix_len(a: Seq<char>, b: Seq<char>) -> nat
    decreases a.len(),
{
    if a.len() == 0 || b.len() == 0 || a.last() != b.last() {
        0
    } else {
        1 + common_suffix_len(a.drop_last(), b.drop_last())
    }
}

/// The characters of `s` from `from`, at most `n` of them (std's
/// `chars().skip(from).take(n)`).
pub open spec fn skip_take(s: Seq<char>, from: int, n: int) -> Seq<char> {
    let lo = if from < s.len() { from } else { s.len() as int };
    let hi = if lo + n < s.len() { lo + n } else { s.len() as int };
    s.subrange(lo, hi)
}

/// The display of how `expected` and `actual` differ: their common start,
/// then `{-...-}` around what only `expected` has and `{+...+}` around
/// what only `actual` has, then the common end. The middle parts are cut
/// by byte counts less character counts.
pub open spec fn diff_display(expected: Seq<char>, actual: Seq<char>) -> Seq<char> {
    let cp = common_prefix_len(expected, actual) as int;
    let cs = common_suffix_len(expected, actual) as int;
    let el = utf8_len(expected) as int;
    let al = utf8_len(actual) as int;
    expected.take(cp) + "{-"@ + skip_take(expected, cp, el - cp - cs) + "-}{+"@ + skip_take(
        actual,
        cp,
        al - cp - cs,
    ) + "+}"@ + skip_take(expected, el - cs, expected.len() as int)
}

/// Whether [`highlight_diff`] can display these texts: the byte lengths
/// cover the shared start and end together (else the lengths of the
/// middle parts would be negative).
pub open spec fn diff_fits(expected: Seq<char>, actual: Seq<char>) -> bool {
    let c = common_prefix_len(expected, actual) + common_suffix_len(expected, actual);
    utf8_len(expected) >= c && utf8_len(actual) >= c
}

proof fn lemma_prefix_len_bound(a: Seq<char>, b: Seq<char>)
    ensures
        common_prefix_len(a, b) <= a.len(),
        common_prefix_len(a, b) <= b.len(),
        forall|i: int| 0 <= i < common_prefix_len(a, b) ==> a[i] == b[i],
        common_prefix_len(a, b) < a.len() && common_prefix_len(a, b) < b.len() ==> a[common_prefix_len(a, b) as int] != b[common_prefix_len(a, b) as int],
    decreases a.len(),
{
    if !(a.len() == 0 || b.len() == 0 || a[0] != b[0]) {
        lemma_prefix_len_bound(a.skip(1), b.skip(1));
        assert forall|i: int| 0 <= i < common_prefix_len(a, b) implies a[i] == b[i] by {
            if i > 0 {
                assert(a[i] == a.skip(1)[i - 1]);
                assert(b[i] == b.skip(1)[i - 1]);
            }
        }
    }
}

proof fn lemma_suffix_len_bound(a: Seq<char>, b: Seq<char>)
    ensures
        common_suffix_len(a, b) <= a.len(),
        common_suffix_len(a, b) <= b.len(),
    decreases a.len(),
{
    if !(a.len() == 0 || b.len() == 0 || a.last() != b.last()) {
        lemma_suffix_len_bound(a.drop_last(), b.drop_last());
    }
}

/// The character `i` places from the end.
spec fn from_end(s: Seq<char>, i: int) -> char {
    s[s.len() - 1 - i]
}

proof fn lemma_suffix_agrees(a: Seq<char>, b: Seq<char>)
    ensures
        forall|i: int| 0 <= i < common_suffix_len(a, b) ==> #[trigger] from_end(a, i) == from_end(b, i),
    decreases a.len(),
{
    if !(a.len() == 0 || b.len() == 0 || a.last() != b.last()) {
        let a1 = a.drop_last();
        let b1 = b.drop_last();
        lemma_suffix_agrees(a1, b1);
        lemma_suffix_len_bound(a1, b1);
        assert forall|i: int| 0 <= i < common_suffix_len(a, b) implies #[trigger] from_end(a, i)
            == from_end(b, i) by {
            if i > 0 {
                assert(from_end(a1, i - 1) == from_end(b1, i - 1));
                assert(a[a.len() - 1 - i] == a1[a1.len() - 1 - (i - 1)]);
                assert(b[b.len() - 1 - i] == b1[b1.len() - 1 - (i - 1)]);
            }
        }
    }
}

/// Every character is ASCII (one byte in UTF-8).
pub open spec fn is_ascii_text(s: Seq<char>) -> bool {
    forall|i: int| 0 <= i < s.len() ==> (#[trigger] s[i] as u32) < 0x80
}

proof fn lemma_ascii_len(s: Seq<char>)
    requires
        is_ascii_text(s),
    ensures
        utf8_len(s) == s.len(),
    decreases s.len(),
{
    if s.len() > 0 {
        let t = s.drop_last();
        assert forall|i: int| 0 <= i < t.len() implies (#[trigger] t[i] as u32) < 0x80 by {
            assert(t[i] == s[i]);
        }
        lemma_ascii_len(t);
        assert((s[s.len() - 1] as u32) < 0x80);
    }
}

/// For ASCII texts that [`highlight_diff`] can display, the display is the
/// common start, the part only `expected` has in `{-...-}`, the part only
/// `actual` has in `{+...+}`, and the common end; dropping the markers and
/// one side's part gives back the other text.
pub proof fn lemma_diff_round_trip(expected: Seq<char>, actual: Seq<char>)
    requires
        is_ascii_text(expected),
        is_ascii_text(actual),
        diff_fits(expected, actual),
    ensures
        ({
            let cp = common_prefix_len(expected, actual) as int;
            let cs = common_suffix_len(expected, actual) as int;
            let p = expected.take(cp);
            let em = expected.subrange(cp, expected.len() - cs);
            let am = actual.subrange(cp, actual.len() - cs);
            let s = expected.skip(expected.len() - cs);
            &&& diff_display(expected, actual) == p + "{-"@ + em + "-}{+"@ + am + "+}"@ + s
            &&& p + em + s == expected
            &&& p + am + s == actual
        }),
{
    let e = expected;
    let a = actual;
    let cp = common_prefix_len(e, a) as int;
    let cs = common_suffix_len(e, a) as int;
    lemma_ascii_len(e);
    lemma_ascii_len(a);
    lemma_prefix_len_bound(e, a);
    lemma_suffix_len_bound(e, a);
    lemma_suffix_agrees(e, a);
    let p = e.take(cp);
    let em = e.subrange(cp, e.len() - cs);
    let am = a.subrange(cp, a.len() - cs);
    let s = e.skip(e.len() - cs);
    assert(skip_take(e, cp, e.len() - cp - cs) =~= em);
    assert(skip_take(a, cp, a.len() - cp - cs) =~= am);
    assert(skip_take(e, e.len() - cs, e.len() as int) =~= s);
    assert(p + em + s =~= e);
    assert(a.take(cp) =~= p);
    assert(a.skip(a.len() - cs) =~= s) by {
        assert forall|i: int| 0 <= i < cs implies #[trigger] a.skip(a.len() - cs)[i] == s[i] by {
            let j = cs - 1 - i;
            assert(from_end(e, j) == from_end(a, j));
        }
    }
    assert(p + am + s =~= a) by {
        assert(a =~= a.take(cp) + a.subrange(cp, a.len() - cs) + a.skip(a.len() - cs));
    }
}

pub(crate) proof fn lemma_utf8_len_at_least(s: Seq<char>)
    ensures
        utf8_len(s) >= s.len(),
    decreases s.len(),
{
    if s.len() > 0 {
        lemma_utf8_len_at_least(s.drop_last());
    }
}

/// How many characters of its end a text's display keeps after the
/// `{+...+}` part: the common end less the text's extra UTF-8 bytes (its
/// byte length less its character count), or none.
pub open spec fn kept_end(s: Seq<char>, cs: int) -> int {
    let extra = utf8_len(s) - s.len();
    if cs - extra > 0 {
        cs - extra
    } else {
        0
    }
}

/// The four pieces of [`diff_display`]: the common start, the part shown
/// as only `expected`'s, the part shown as only `actual`'s, and the end.
pub open spec fn diff_pieces(expected: Seq<char>, actual: Seq<char>) -> (
    Seq<char>,
    Seq<char>,
    Seq<char>,
    Seq<char>,
) {
    let cp = common_prefix_len(expected, actual) as int;
    let cs = common_suffix_len(expected, actual) as int;
    let el = utf8_len(expected) as int;
    let al = utf8_len(actual) as int;
    (
        expected.take(cp),
        skip_take(expected, cp, el - cp - cs),
        skip_take(actual, cp, al - cp - cs),
        skip_take(expected, el - cs, expected.len() as int),
    )
}

/// For every pair of texts [`highlight_diff`] can display: the display is
/// the common start, `{-...-}` around a part, `{+...+}` around a part, and
/// an end; the start, the first part and the end always give back
/// `expected`, and the start, the second part and the end give back
/// `actual` exactly when both texts keep as many characters of their end
/// (which holds when their extra UTF-8 bytes are equal, in particular for
/// ASCII texts).
pub proof fn lemma_diff_pieces(expected: Seq<char>, actual: Seq<char>)
    requires
        diff_fits(expected, actual),
    ensures
        ({
            let (p, em, am, s) = diff_pieces(expected, actual);
            let cs = common_suffix_len(expected, actual) as int;
            &&& diff_display(expected, actual) == p + "{-"@ + em + "-}{+"@ + am + "+}"@ + s
            &&& p + em + s == expected
            &&& (p + am + s == actual) == (kept_end(expected, cs) == kept_end(actual, cs))
        }),
{
    let e = expected;
    let a = actual;
    let cp = common_prefix_len(e, a) as int;
    let cs = common_suffix_len(e, a) as int;
    let el = utf8_len(e) as int;
    let al = utf8_len(a) as int;
    lemma_utf8_len_at_least(e);
    lemma_utf8_len_at_least(a);
    lemma_prefix_len_bound(e, a);
    lemma_suffix_len_bound(e, a);
    lemma_suffix_agrees(e, a);
    let (p, em, am, s) = diff_pieces(e, a);
    let m = if el - cs < e.len() { el - cs } else { e.len() as int };
    let ma = if al - cs < a.len() { al - cs } else { a.len() as int };
    assert(em =~= e.subrange(cp, m));
    assert(am =~= a.subrange(cp, ma));
    assert(s =~= e.subrange(m, e.len() as int));
    assert(p + em + s =~= e);
    assert(e.len() - m == kept_end(e, cs));
    assert(a.len() - ma == kept_end(a, cs));
    assert(a.take(cp) =~= p);
    if kept_end(e, cs) == kept_end(a, cs) {
        let k = kept_end(e, cs);
        assert(k <= cs);
        assert(a.subrange(ma, a.len() as int) =~= s) by {
            assert forall|i: int| 0 <= i < k implies #[trigger] a.subrange(ma, a.len() as int)[i]
                == s[i] by {
                let j = k - 1 - i;
                assert(from_end(e, j) == from_end(a, j));
            }
        }
        assert(p + am + s =~= a) by {
            assert(a =~= a.take(cp) + a.subrange(cp, ma) + a.subrange(ma, a.len() as int));
        }
    } else {
        assert((p + am + s).len() != a.len());
    }
}

fn prefix_count(a: &[char], b: &[char]) -> (n: usize)
    ensures
        n == common_prefix_len(a@, b@),
{
    let mut k: usize = 0;
    assert(a@.skip(0) =~= a@);
    assert(b@.skip(0) =~= b@);
    while k < a.len() && k < b.len() && a[k] == b[k]
        invariant
            k <= a.len(),
            k <= b.len(),
            common_prefix_len(a@, b@) == k + common_prefix_len(a@.skip(k as int), b@.skip(k as int)),
        decreases a.len() - k,
    {
        proof {
            assert(a@.skip(k as int).skip(1) =~= a@.skip(k + 1));
            assert(b@.skip(k as int).skip(1) =~= b@.skip(k + 1));
        }
        k += 1;
    }
    k
}

fn suffix_count(a: &[char], b: &[char]) -> (n: usize)
    ensures
        n == common_suffix_len(a@, b@),
{
    let mut k: usize = 0;
    assert(a@.take(a.len() as int) =~= a@);
    assert(b@.take(b.len() as int) =~= b@);
    while k < a.len() && k < b.len() && a[a.len() - 1 - k] == b[b.len() - 1 - k]
        invariant
            k <= a.len(),
            k <= b.len(),
            common_suffix_len(a@, b@) == k + common_suffix_len(
                a@.take(a.len() - k),
                b@.take(b.len() - k),
            ),
        decreases a.len() - k,
    {
        proof {
            assert(a@.take(a.len() - k).drop_last() =~= a@.take(a.len() - k - 1));
            assert(b@.take(b.len() - k).drop_last() =~= b@.take(b.len() - k - 1));
        }
        k += 1;
    }
    proof {
        assert(a@.take(a.len() as int) =~= a@);
        assert(b@.take(b.len() as int) =~= b@);
    }
    k
}

/// std's `str::len` on characters: the UTF-8 byte count.
pub fn utf8_count_chars(s: &[char]) -> (n: u128)
    ensures
        n == utf8_len(s@),
        n <= 4 * s@.len(),
{
    let mut n: u128 = 0;
    let mut i: usize = 0;
    while i < s.len()
        invariant
            i <= s.len(),
            n == utf8_len(s@.take(i as int)),
            n <= 4 * i,
        decreases s.len() - i,
    {
        let u = s[i] as u32;
        let w: u128 = if u < 0x80 {
            1
        } else if u < 0x800 {
            2
        } else if u < 0x10000 {
            3
        } else {
            4
        };
        proof {
            assert(s@.take(i + 1).drop_last() =~= s@.take(i as int));
        }
        n = n + w;
        i += 1;
    }
    assert(s@.take(s.len() as int) =~= s@);
    n
}

/// Whether the two texts can be displayed by [`highlight_diff`].
pub fn diff_displayable(expected: &str, actual: &str) -> (b: bool)
    ensures
        b == diff_fits(expected@, actual@),
{
    let e = chars_of(expected);
    let a = chars_of(actual);
    let cp = prefix_count(e.as_slice(), a.as_slice());
    let cs = suffix_count(e.as_slice(), a.as_slice());
    let el = utf8_count_chars(e.as_slice());
    let al = utf8_count_chars(a.as_slice());
    let c = cp as u128 + cs as u128;
    el >= c && al >= c
}

fn skip_take_vec(s: &[char], from: u128, n: u128) -> (r: Vec<char>)
    ensures
        r@ == skip_take(s@, from as int, n as int),
{
    let lo: usize = if from < s.len() as u128 {
        from as usize
    } else {
        s.len()
    };
    let hi: usize = if n < (s.len() - lo) as u128 {
        lo + n as usize
    } else {
        s.len()
    };
    slice_vec(s, lo, hi)
}

/// Shows how `expected` and `actual` differ: the shared start, then the
/// part only `expected` has in `{-...-}`, the part only `actual` has in
/// `{+...+}`, then the shared end.
pub fn highlight_diff(expected: &str, actual: &str) -> (r: String)
    requires
        diff_fits(expected@, actual@),
    ensures
        r@ == diff_display(expected@, actual@),
{
    let e = chars_of(expected);
    let a = chars_of(actual);
    let cp = prefix_count(e.as_slice(), a.as_slice());
    let cs = suffix_count(e.as_slice(), a.as_slice());
    let el = utf8_count_chars(e.as_slice());
    let al = utf8_count_chars(a.as_slice());
    proof {
        lemma_prefix_len_bound(e@, a@);
    }
    let mut out = slice_vec(e.as_slice(), 0, cp);
    push_str(&mut out, "{-");
    let em = skip_take_vec(e.as_slice(), cp as u128, el - cp as u128 - cs as u128);
    push_all(&mut out, em.as_slice());
    push_str(&mut out, "-}{+");
    let am = skip_take_vec(a.as_slice(), cp as u128, al - cp as u128 - cs as u128);
    push_all(&mut out, am.as_slice());
    push_str(&mut out, "+}");
    let tail = skip_take_vec(e.as_slice(), el - cs as u128, e.len() as u128);
    push_all(&mut out, tail.as_slice());
    proof {
        assert(e@.subrange(0, cp as int) =~= e@.take(cp as int));
        assert(out@ =~= diff_display(expected@, actual@));
    }
    string_of(out.as_slice())
}

/// The UTF-8 byte length of a text (std's `str::len`).
pub fn utf8_size(s: &str) -> (n: usize)
    requires
        utf8_len(s@) <= usize::MAX,
    ensures
        n == utf8_len(s@),
{
    let c = chars_of(s);
    let n = utf8_count_chars(c.as_slice());
    n as usize
}

} // verus!

//! Character-sequence utilities shared by the rest of the library.
//!
//! Text is handled as `Vec<char>` inside the library; the views of `String`
//! and `&str` are `Seq<char>`, so every spec here speaks of `Seq<char>`.

use vstd::prelude::*;

verus! {

// ---------------------------------------------------------------------------
// Conversions between std strings and character vectors
// ---------------------------------------------------------------------------

/// Collects the characters of a `&str` (std's `str::chars` + `collect`).
/// Claims: the vector holds exactly the string's characters, in order.
#[verifier::external_body]
pub(crate) fn chars_of(s: &str) -> (v: Vec<char>)
    ensures
        v@ == s@,
{
    s.chars().collect()
}

/// Builds a `String` from characters (std's `FromIterator<&char> for String`).
/// Claims: the string's characters are exactly the given ones, in order.
#[verifier::external_body]
pub(crate) fn string_of(v: &[char]) -> (s: String)
    ensures
        s@ == v@,
{
    v.iter().collect()
}

/// The result of std's `str::to_lowercase` on a string with these characters.
pub uninterp spec fn lowercase(s: Seq<char>) -> Seq<char>;

/// Wraps std's `str::to_lowercase`: the result is the Unicode lower-case
/// mapping of the whole string, which depends on the characters alone.
/// Nothing more is claimed of the mapping.
#[verifier::external_body]
pub(crate) fn to_lowercase(s: &[char]) -> (r: Vec<char>)
    ensures
        r@ == lowercase(s@),
{
    let st: String = s.iter().collect();
    st.to_lowercase().chars().collect()
}

/// Copies a slice of characters into a vector.
pub fn to_vec(s: &[char]) -> (r: Vec<char>)
    ensures
        r@ == s@,
{
    let mut r: Vec<char> = Vec::new();
    let mut i: usize = 0;
    while i < s.len()
        invariant
            i <= s.len(),
            r@ == s@.take(i as int),
        decreases s.len() - i,
    {
        r.push(s[i]);
        i += 1;
        assert(r@ =~= s@.take(i as int));
    }
    assert(r@ =~= s@);
    r
}

/// The characters `s[start..end]` as a new vector.
pub fn slice_vec(s: &[char], start: usize, end: usize) -> (r: Vec<char>)
    requires
        start <= end <= s.len(),
    ensures
        r@ == s@.subrange(start as int, end as int),
{
    let mut r: Vec<char> = Vec::new();
    let mut i: usize = start;
    while i < end
        invariant
            start <= i <= end,
            end <= s.len(),
            r@ == s@.subrange(start as int, i as int),
        decreases end - i,
    {
        r.push(s[i]);
        i += 1;
        assert(r@ =~= s@.subrange(start as int, i as int));
    }
    r
}

/// Appends `src` to `dst`.
pub fn push_all(dst: &mut Vec<char>, src: &[char])
    ensures
        final(dst)@ == old(dst)@ + src@,
{
    let ghost d0 = dst@;
    let mut i: usize = 0;
    while i < src.len()
        invariant
            i <= src.len(),
            dst@ == d0 + src@.take(i as int),
        decreases src.len() - i,
    {
        dst.push(src[i]);
        i += 1;
        assert(dst@ =~= d0 + src@.take(i as int));
    }
    assert(src@.take(src.len() as int) =~= src@);
}

/// Appends the characters of a `&str` to `dst`.
pub fn push_str(dst: &mut Vec<char>, s: &str)
    ensures
        final(dst)@ == old(dst)@ + s@,
{
    let v = chars_of(s);
    push_all(dst, v.as_slice());
}

/// Whether two character sequences are equal.
pub fn seq_eq(a: &[char], b: &[char]) -> (r: bool)
    ensures
        r == (a@ == b@),
{
    if a.len() != b.len() {
        return false;
    }
    let mut i: usize = 0;
    while i < a.len()
        invariant
            i <= a.len(),
            a.len() == b.len(),
            forall|j: int| 0 <= j < i ==> a@[j] == b@[j],
        decreases a.len() - i,
    {
        if a[i] != b[i] {
            return false;
        }
        i += 1;
    }
    assert(a@ =~= b@);
    true
}

// ---------------------------------------------------------------------------
// Substring search
// ---------------------------------------------------------------------------

/// `n` occurs in `h` starting at index `i`.
pub open spec fn match_at(h: Seq<char>, n: Seq<char>, i: int) -> bool {
    0 <= i && i + n.len() <= h.len() && h.subrange(i, i + n.len()) == n
}

/// `i` is the leftmost occurrence of `n` in `h`.
pub open spec fn is_first_match(h: Seq<char>, n: Seq<char>, i: int) -> bool {
    match_at(h, n, i) && forall|j: int| 0 <= j < i ==> !match_at(h, n, j)
}

/// The leftmost occurrence of `n` in `h` (what std's `str::find` returns,
/// counted in characters).
pub open spec fn first_match(h: Seq<char>, n: Seq<char>) -> Option<int> {
    if exists|i: int| is_first_match(h, n, i) {
        Some(choose|i: int| is_first_match(h, n, i))
    } else {
        None
    }
}

/// `n` occurs somewhere in `h`.
pub open spec fn contains_seq(h: Seq<char>, n: Seq<char>) -> bool {
    exists|i: int| match_at(h, n, i)
}

pub open spec fn starts_with_seq(h: Seq<char>, n: Seq<char>) -> bool {
    match_at(h, n, 0)
}

pub open spec fn ends_with_seq(h: Seq<char>, n: Seq<char>) -> bool {
    n.len() <= h.len() && match_at(h, n, h.len() - n.len())
}

pub proof fn lemma_first_match_is(h: Seq<char>, n: Seq<char>, i: int)
    requires
        is_first_match(h, n, i),
    ensures
        first_match(h, n) == Some(i),
        contains_seq(h, n),
{
    let c = choose|c: int| is_first_match(h, n, c);
    assert(is_first_match(h, n, c));
    if c < i {
        assert(!match_at(h, n, c));
    }
    if i < c {
        assert(!match_at(h, n, i));
    }
}

pub proof fn lemma_no_match(h: Seq<char>, n: Seq<char>)
    requires
        forall|i: int| !match_at(h, n, i),
    ensures
        first_match(h, n) is None,
        !contains_seq(h, n),
{
}

/// A match found by `first_match` is a match.
pub proof fn lemma_first_match_some(h: Seq<char>, n: Seq<char>)
    requires
        first_match(h, n) is Some,
    ensures
        is_first_match(h, n, first_match(h, n)->0),
        match_at(h, n, first_match(h, n)->0),
{
}

/// Every occurrence yields a leftmost one.
pub proof fn lemma_contains_first(h: Seq<char>, n: Seq<char>)
    requires
        contains_seq(h, n),
    ensures
        first_match(h, n) is Some,
    decreases h.len(),
{
    let i = choose|i: int| match_at(h, n, i);
    lemma_min_match(h, n, i);
}

proof fn lemma_min_match(h: Seq<char>, n: Seq<char>, i: int)
    requires
        match_at(h, n, i),
    ensures
        first_match(h, n) is Some,
    decreases i,
{
    if forall|j: int| 0 <= j < i ==> !match_at(h, n, j) {
        lemma_first_match_is(h, n, i);
    } else {
        let j = choose|j: int| 0 <= j < i && match_at(h, n, j);
        lemma_min_match(h, n, j);
    }
}

/// Whether `n` occurs in `h` at index `i`.
pub fn matches_at(h: &[char], n: &[char], i: usize) -> (b: bool)
    requires
        i + n.len() <= h.len(),
    ensures
        b == match_at(h@, n@, i as int),
{
    let mut k: usize = 0;
    while k < n.len()
        invariant
            k <= n.len(),
            i + n.len() <= h.len(),
            forall|t: int| 0 <= t < k ==> h@[i + t] == n@[t],
        decreases n.len() - k,
    {
        if h[i + k] != n[k] {
            assert(h@.subrange(i as int, i + n.len())[k as int] != n@[k as int]);
            return false;
        }
        k += 1;
    }
    assert(h@.subrange(i as int, i + n.len()) =~= n@);
    true
}

/// The leftmost occurrence of `n` in `h`, as std's `str::find` gives it
/// (in characters).
pub fn find(h: &[char], n: &[char]) -> (r: Option<usize>)
    ensures
        match r {
            Some(i) => first_match(h@, n@) == Some(i as int) && is_first_match(h@, n@, i as int),
            None => first_match(h@, n@) is None && !contains_seq(h@, n@),
        },
{
    if n.len() > h.len() {
        proof {
            lemma_no_match(h@, n@);
        }
        return None;
    }
    let last = h.len() - n.len();
    let mut i: usize = 0;
    loop
        invariant
            i <= last,
            last == h.len() - n.len(),
            n.len() <= h.len(),
            forall|j: int| 0 <= j < i ==> !match_at(h@, n@, j),
        decreases last - i,
    {
        if matches_at(h, n, i) {
            proof {
                lemma_first_match_is(h@, n@, i as int);
            }
            return Some(i);
        }
        if i == last {
            proof {
                assert forall|j: int| !match_at(h@, n@, j) by {
                    if 0 <= j <= i {
                    }
                }
                lemma_no_match(h@, n@);
            }
            return None;
        }
        i += 1;
    }
}

/// Occurrences in a suffix are occurrences in the whole, shifted.
pub proof fn lemma_match_skip(h: Seq<char>, n: Seq<char>, from: int, j: int)
    requires
        0 <= from <= h.len(),
    ensures
        match_at(h.skip(from), n, j) <==> (0 <= j && match_at(h, n, from + j)),
{
    if 0 <= j && j + n.len() <= h.len() - from {
        assert(h.skip(from).subrange(j, j + n.len()) =~= h.subrange(from + j, from + j + n.len()));
    }
}

/// The leftmost occurrence of `n` in `h` at or after `from` (std's
/// `str::find` on the rest of the text), as an index into `h`.
pub fn find_from(h: &[char], n: &[char], from: usize) -> (r: Option<usize>)
    requires
        from <= h.len(),
    ensures
        match r {
            Some(i) => from <= i && first_match(h@.skip(from as int), n@) == Some(i - from)
                && match_at(h@, n@, i as int),
            None => first_match(h@.skip(from as int), n@) is None,
        },
{
    let ghost t = h@.skip(from as int);
    if n.len() > h.len() - from {
        proof {
            assert forall|j: int| !match_at(t, n@, j) by {}
            lemma_no_match(t, n@);
        }
        return None;
    }
    let last = h.len() - n.len();
    let mut i: usize = from;
    loop
        invariant
            from <= i <= last,
            last == h.len() - n.len(),
            n.len() <= h.len(),
            from <= h.len(),
            t == h@.skip(from as int),
            forall|j: int| 0 <= j < i - from ==> !match_at(t, n@, j),
        decreases last - i,
    {
        if matches_at(h, n, i) {
            proof {
                lemma_match_skip(h@, n@, from as int, i - from);
                assert forall|j: int| 0 <= j < i - from implies !match_at(t, n@, j) by {}
                lemma_first_match_is(t, n@, i - from);
            }
            return Some(i);
        }
        proof {
            lemma_match_skip(h@, n@, from as int, i - from);
        }
        if i == last {
            proof {
                assert forall|j: int| !match_at(t, n@, j) by {
                    if 0 <= j <= i - from {
                    }
                }
                lemma_no_match(t, n@);
            }
            return None;
        }
        i += 1;
    }
}

/// Whether `n` occurs in `h`.
pub fn contains(h: &[char], n: &[char]) -> (b: bool)
    ensures
        b == contains_seq(h@, n@),
{
    match find(h, n) {
        Some(i) => {
            proof {
                lemma_first_match_is(h@, n@, i as int);
            }
            true
        },
        None => false,
    }
}

pub fn starts_with(h: &[char], n: &[char]) -> (b: bool)
    ensures
        b == starts_with_seq(h@, n@),
{
    if n.len() > h.len() {
        false
    } else {
        matches_at(h, n, 0)
    }
}

pub fn ends_with(h: &[char], n: &[char]) -> (b: bool)
    ensures
        b == ends_with_seq(h@, n@),
{
    if n.len() > h.len() {
        false
    } else {
        matches_at(h, n, h.len() - n.len())
    }
}

// ---------------------------------------------------------------------------
// Whitespace and trimming (std's `char::is_whitespace`: Unicode White_Space)
// ---------------------------------------------------------------------------

pub open spec fn is_ws(c: char) -> bool {
    let u = c as u32;
    (0x09 <= u <= 0x0d) || u == 0x20 || u == 0x85 || u == 0xa0 || u == 0x1680 || (0x2000 <= u
        <= 0x200a) || u == 0x2028 || u == 0x2029 || u == 0x202f || u == 0x205f || u == 0x3000
}

pub fn is_whitespace(c: char) -> (b: bool)
    ensures
        b == is_ws(c),
{
    let u = c as u32;
    (0x09 <= u && u <= 0x0d) || u == 0x20 || u == 0x85 || u == 0xa0 || u == 0x1680 || (0x2000 <= u
        && u <= 0x200a) || u == 0x2028 || u == 0x2029 || u == 0x202f || u == 0x205f || u == 0x3000
}

/// `k` is where the leading whitespace of `s` ends.
pub open spec fn lead_cut(s: Seq<char>, k: int) -> bool {
    0 <= k <= s.len() && (forall|j: int| 0 <= j < k ==> is_ws(s[j])) && (k == s.len() || !is_ws(
        s[k],
    ))
}

/// `e` is where the trailing whitespace of `s` begins.
pub open spec fn trail_cut(s: Seq<char>, e: int) -> bool {
    0 <= e <= s.len() && (forall|j: int| e <= j < s.len() ==> is_ws(s[j])) && (e == 0 || !is_ws(
        s[e - 1],
    ))
}

pub open spec fn lead_len(s: Seq<char>) -> int {
    choose|k: int| lead_cut(s, k)
}

pub open spec fn trail_start(s: Seq<char>) -> int {
    choose|e: int| trail_cut(s, e)
}

/// std's `str::trim_start`.
pub open spec fn trim_start_seq(s: Seq<char>) -> Seq<char> {
    s.skip(lead_len(s))
}

/// std's `str::trim_end`.
pub open spec fn trim_end_seq(s: Seq<char>) -> Seq<char> {
    s.take(trail_start(s))
}

/// std's `str::trim`.
pub open spec fn trim_seq(s: Seq<char>) -> Seq<char> {
    trim_end_seq(trim_start_seq(s))
}

pub proof fn lemma_lead_unique(s: Seq<char>, k: int)
    requires
        lead_cut(s, k),
    ensures
        lead_len(s) == k,
{
    let c = choose|c: int| lead_cut(s, c);
    assert(lead_cut(s, c));
    if c < k {
        assert(is_ws(s[c]));
    }
    if k < c {
        assert(is_ws(s[k]));
    }
}

pub proof fn lemma_trail_unique(s: Seq<char>, e: int)
    requires
        trail_cut(s, e),
    ensures
        trail_start(s) == e,
{
    let c = choose|c: int| trail_cut(s, c);
    assert(trail_cut(s, c));
    if c < e {
        assert(is_ws(s[e - 1]));
    }
    if e < c {
        assert(is_ws(s[c - 1]));
    }
}

/// Index of the first non-whitespace character (or the length).
pub fn lead_ws_len(s: &[char]) -> (k: usize)
    ensures
        lead_cut(s@, k as int),
        k as int == lead_len(s@),
{
    let mut k: usize = 0;
    while k < s.len() && is_whitespace(s[k])
        invariant
            k <= s.len(),
            forall|j: int| 0 <= j < k ==> is_ws(s@[j]),
        decreases s.len() - k,
    {
        k += 1;
    }
    proof {
        lemma_lead_unique(s@, k as int);
    }
    k
}

/// Index where the trailing whitespace begins.
pub fn trail_ws_start(s: &[char]) -> (e: usize)
    ensures
        trail_cut(s@, e as int),
        e as int == trail_start(s@),
{
    let mut e: usize = s.len();
    while e > 0 && is_whitespace(s[e - 1])
        invariant
            e <= s.len(),
            forall|j: int| e <= j < s.len() ==> is_ws(s@[j]),
        decreases e,
    {
        e -= 1;
    }
    proof {
        lemma_trail_unique(s@, e as int);
    }
    e
}

/// std's `str::trim`, on characters.
pub fn trim(s: &[char]) -> (r: Vec<char>)
    ensures
        r@ == trim_seq(s@),
{
    let k = lead_ws_len(s);
    let t = slice_vec(s, k, s.len());
    assert(t@ =~= trim_start_seq(s@));
    let e = trail_ws_start(t.as_slice());
    let r = slice_vec(t.as_slice(), 0, e);
    assert(r@ =~= trim_end_seq(t@));
    r
}

/// std's `str::trim_start`, on characters.
pub fn trim_start(s: &[char]) -> (r: Vec<char>)
    ensures
        r@ == trim_start_seq(s@),
{
    let k = lead_ws_len(s);
    let r = slice_vec(s, k, s.len());
    assert(r@ =~= trim_start_seq(s@));
    r
}

// ---------------------------------------------------------------------------
// Lines (std's `str::lines`)
// ---------------------------------------------------------------------------

/// `k` is the index of the first `'\n'` in `s` (or the length if none).
pub open spec fn nl_cut(s: Seq<char>, k: int) -> bool {
    0 <= k <= s.len() && (forall|j: int| 0 <= j < k ==> s[j] != '\n') && (k == s.len() || s[k]
        == '\n')
}

pub open spec fn first_nl(s: Seq<char>) -> int {
    choose|k: int| nl_cut(s, k)
}

/// Removes one trailing `'\r'`.
pub open spec fn strip_cr(line: Seq<char>) -> Seq<char> {
    if line.len() > 0 && line.last() == '\r' {
        line.drop_last()
    } else {
        line
    }
}

/// The lines of `s` as std's `str::lines` yields them: split after each
/// `'\n'`, drop the `'\n'` and one `'\r'` before it, and yield no empty
/// line after a final `'\n'`.
pub open spec fn lines(s: Seq<char>) -> Seq<Seq<char>>
    decreases s.len(),
{
    if s.len() == 0 {
        seq![]
    } else {
        let k = first_nl(s);
        if 0 <= k < s.len() {
            seq![strip_cr(s.take(k))] + lines(s.skip(k + 1))
        } else {
            seq![s]
        }
    }
}

/// Every sequence has a first newline position (its length when there is none).
pub proof fn lemma_nl_exists(s: Seq<char>)
    ensures
        nl_cut(s, first_nl(s)),
    decreases s.len(),
{
    if s.len() == 0 {
        assert(nl_cut(s, 0));
    } else if s[0] == '\n' {
        assert(nl_cut(s, 0));
    } else {
        lemma_nl_exists(s.skip(1));
        let k = first_nl(s.skip(1));
        assert forall|j: int| 0 <= j < k + 1 implies s[j] != '\n' by {
            if j > 0 {
                assert(s[j] == s.skip(1)[j - 1]);
            }
        }
        if k + 1 < s.len() {
            assert(s[k + 1] == s.skip(1)[k]);
        }
        assert(nl_cut(s, k + 1));
    }
}

/// A prefix never has more lines than the whole text.
pub proof fn lemma_lines_prefix(s: Seq<char>, m: int)
    requires
        0 <= m <= s.len(),
    ensures
        lines(s.take(m)).len() <= lines(s).len(),
    decreases s.len(),
{
    let p = s.take(m);
    if m == 0 {
        assert(p.len() == 0);
        return;
    }
    lemma_nl_exists(s);
    lemma_nl_exists(p);
    let k = first_nl(s);
    if k < s.len() {
        if m <= k {
            assert(nl_cut(p, m));
            lemma_nl_unique(p, m);
        } else {
            assert(nl_cut(p, k));
            lemma_nl_unique(p, k);
            assert(p.skip(k + 1) =~= s.skip(k + 1).take(m - k - 1));
            lemma_lines_prefix(s.skip(k + 1), m - k - 1);
        }
    } else {
        assert(nl_cut(p, m));
        lemma_nl_unique(p, m);
    }
}

/// The views of a vector of character vectors.
pub open spec fn views(v: Seq<Vec<char>>) -> Seq<Seq<char>> {
    v.map_values(|x: Vec<char>| x@)
}

pub proof fn lemma_nl_unique(s: Seq<char>, k: int)
    requires
        nl_cut(s, k),
    ensures
        first_nl(s) == k,
{
    let c = choose|c: int| nl_cut(s, c);
    assert(nl_cut(s, c));
    if c < k {
        assert(s[c] == '\n');
    }
    if k < c {
        assert(s[k] == '\n');
    }
}

pub proof fn lemma_views_push(v: Seq<Vec<char>>, x: Vec<char>)
    ensures
        views(v.push(x)) == views(v).push(x@),
{
    assert(views(v.push(x)) =~= views(v).push(x@));
}

/// Index of the first `'\n'` at or after `from` (or the length).
pub fn next_newline(s: &[char], from: usize) -> (k: usize)
    requires
        from <= s.len(),
    ensures
        from <= k <= s.len(),
        nl_cut(s@.skip(from as int), k - from),
{
    let mut k = from;
    while k < s.len() && s[k] != '\n'
        invariant
            from <= k <= s.len(),
            forall|j: int| from <= j < k ==> s@[j] != '\n',
        decreases s.len() - k,
    {
        k += 1;
    }
    k
}

/// std's `str::lines`, on characters.
pub fn split_lines(s: &[char]) -> (r: Vec<Vec<char>>)
    ensures
        views(r@) == lines(s@),
{
    let mut r: Vec<Vec<char>> = Vec::new();
    let mut pos: usize = 0;
    assert(s@.skip(0) =~= s@);
    while pos < s.len()
        invariant
            pos <= s.len(),
            lines(s@) == views(r@) + lines(s@.skip(pos as int)),
        decreases s.len() - pos,
    {
        let ghost t = s@.skip(pos as int);
        let k = next_newline(s, pos);
        proof {
            lemma_nl_unique(t, k - pos);
        }
        if k < s.len() {
            let mut line = slice_vec(s, pos, k);
            if line.len() > 0 && line[line.len() - 1] == '\r' {
                line.pop();
            }
            proof {
                assert(t.take(k - pos) =~= s@.subrange(pos as int, k as int));
                assert(t.skip(k - pos + 1) =~= s@.skip(k + 1));
                assert(lines(t) == seq![strip_cr(t.take(k - pos))] + lines(t.skip(k - pos + 1)));
                lemma_views_push(r@, line);
                assert(line@ == strip_cr(t.take(k - pos)));
            }
            r.push(line);
            pos = k + 1;
            proof {
                assert(views(r@) + lines(s@.skip(pos as int)) =~= views(r@).drop_last() + (seq![
                    views(r@).last(),
                ] + lines(s@.skip(pos as int))));
            }
        } else {
            let line = slice_vec(s, pos, s.len());
            proof {
                assert(line@ =~= t);
                assert(lines(t) == seq![t]);
                lemma_views_push(r@, line);
                assert(lines(s@.skip(s.len() as int)) =~= Seq::<Seq<char>>::empty());
            }
            r.push(line);
            pos = s.len();
            proof {
                assert(lines(s@.skip(pos as int)) == Seq::<Seq<char>>::empty());
                assert(views(r@) + lines(s@.skip(pos as int)) =~= views(r@));
            }
        }
    }
    proof {
        assert(s@.skip(pos as int) =~= Seq::<char>::empty());
        assert(lines(s@) =~= views(r@));
    }
    r
}

/// Number of lines of `s` (std's `str::lines().count()`).
pub fn count_lines(s: &[char]) -> (n: usize)
    ensures
        n == lines(s@).len(),
{
    let v = split_lines(s);
    proof {
        assert(views(v@).len() == v@.len());
    }
    v.len()
}

// ---------------------------------------------------------------------------
// Decimal formatting
// ---------------------------------------------------------------------------

pub open spec fn digit(d: int) -> char {
    if d == 0 {
        '0'
    } else if d == 1 {
        '1'
    } else if d == 2 {
        '2'
    } else if d == 3 {
        '3'
    } else if d == 4 {
        '4'
    } else if d == 5 {
        '5'
    } else if d == 6 {
        '6'
    } else if d == 7 {
        '7'
    } else if d == 8 {
        '8'
    } else {
        '9'
    }
}

/// The decimal digits of `n` (as `{}` formats an unsigned integer).
pub open spec fn decimal(n: nat) -> Seq<char>
    decreases n,
{
    if n < 10 {
        seq![digit(n as int)]
    } else {
        decimal(n / 10).push(digit((n % 10) as int))
    }
}

/// The decimal text of a signed integer (as `{}` formats it).
pub open spec fn signed_decimal(n: int) -> Seq<char> {
    if n < 0 {
        seq!['-'] + decimal((-n) as nat)
    } else {
        decimal(n as nat)
    }
}

pub fn digit_char(d: u64) -> (c: char)
    requires
        d < 10,
    ensures
        c == digit(d as int),
{
    match d {
        0 => '0',
        1 => '1',
        2 => '2',
        3 => '3',
        4 => '4',
        5 => '5',
        6 => '6',
        7 => '7',
        8 => '8',
        _ => '9',
    }
}

/// Appends the decimal digits of `n`.
pub fn push_u64(out: &mut Vec<char>, n: u64)
    ensures
        final(out)@ == old(out)@ + decimal(n as nat),
    decreases n,
{
    if n >= 10 {
        push_u64(out, n / 10);
    }
    out.push(digit_char(n % 10));
    proof {
        if n >= 10 {
            assert(old(out)@ + decimal(n as nat) =~= old(out)@ + decimal((n / 10) as nat) + seq![
                digit((n % 10) as int),
            ]);
        } else {
            assert(old(out)@ + decimal(n as nat) =~= old(out)@ + seq![digit(n as int)]);
        }
    }
}

/// Appends the decimal text of a signed integer.
pub fn push_i64(out: &mut Vec<char>, n: i64)
    ensures
        final(out)@ == old(out)@ + signed_decimal(n as int),
{
    if n < 0 {
        out.push('-');
        let m: u64 = if n == i64::MIN {
            9223372036854775808u64
        } else {
            (-n) as u64
        };
        push_u64(out, m);
        proof {
            assert(old(out)@ + signed_decimal(n as int) =~= old(out)@ + seq!['-'] + decimal(
                m as nat,
            ));
        }
    } else {
        push_u64(out, n as u64);
    }
}

// ---------------------------------------------------------------------------
// Joining
// ---------------------------------------------------------------------------

/// The pieces joined with `sep` between them (std's `[S]::join`).
pub open spec fn join(parts: Seq<Seq<char>>, sep: Seq<char>) -> Seq<char>
    decreases parts.len(),
{
    if parts.len() == 0 {
        seq![]
    } else if parts.len() == 1 {
        parts[0]
    } else {
        join(parts.drop_last(), sep) + sep + parts.last()
    }
}

/// std's `[S]::join` on character vectors.
pub fn join_vecs(parts: &Vec<Vec<char>>, sep: &[char]) -> (r: Vec<char>)
    ensures
        r@ == join(views(parts@), sep@),
{
    let mut r: Vec<char> = Vec::new();
    let mut i: usize = 0;
    while i < parts.len()
        invariant
            i <= parts.len(),
            r@ == join(views(parts@).take(i as int), sep@),
        decreases parts.len() - i,
    {
        let ghost before = r@;
        if i > 0 {
            push_all(&mut r, sep);
        }
        push_all(&mut r, parts[i].as_slice());
        proof {
            let vs = views(parts@);
            assert(vs.take(i + 1).drop_last() =~= vs.take(i as int));
            assert(vs.take(i + 1).last() == parts@[i as int]@);
            if i == 0 {
                assert(vs.take(1) =~= seq![parts@[0]@]);
                assert(before =~= Seq::<char>::empty());
                assert(r@ =~= parts@[0]@);
            }
        }
        i += 1;
    }
    proof {
        assert(views(parts@).take(parts.len() as int) =~= views(parts@));
    }
    r
}


// ---------------------------------------------------------------------------
// Words (std's `str::split_whitespace`)
// ---------------------------------------------------------------------------

/// `k` is the end of the run of non-whitespace that starts `s`.
pub open spec fn word_cut(s: Seq<char>, k: int) -> bool {
    0 <= k <= s.len() && (forall|j: int| 0 <= j < k ==> !is_ws(s[j])) && (k == s.len() || is_ws(
        s[k],
    ))
}

pub open spec fn word_end(s: Seq<char>) -> int {
    choose|k: int| word_cut(s, k)
}

/// The maximal runs of non-whitespace characters of `s`, in order
/// (std's `str::split_whitespace`).
pub open spec fn words(s: Seq<char>) -> Seq<Seq<char>>
    decreases s.len(),
{
    if s.len() == 0 {
        seq![]
    } else if is_ws(s[0]) {
        words(s.drop_first())
    } else {
        let k = word_end(s);
        if 0 < k <= s.len() {
            seq![s.take(k)] + words(s.skip(k))
        } else {
            seq![s]
        }
    }
}

pub proof fn lemma_word_unique(s: Seq<char>, k: int)
    requires
        word_cut(s, k),
    ensures
        word_end(s) == k,
{
    let c = choose|c: int| word_cut(s, c);
    assert(word_cut(s, c));
    if c < k {
        assert(is_ws(s[c]));
    }
    if k < c {
        assert(is_ws(s[k]));
    }
}

/// std's `str::split_whitespace`, on characters.
pub fn split_words(s: &[char]) -> (r: Vec<Vec<char>>)
    ensures
        views(r@) == words(s@),
{
    let mut r: Vec<Vec<char>> = Vec::new();
    let mut pos: usize = 0;
    assert(s@.skip(0) =~= s@);
    assert(views(r@) =~= Seq::<Seq<char>>::empty());
    while pos < s.len()
        invariant
            pos <= s.len(),
            words(s@) == views(r@) + words(s@.skip(pos as int)),
        decreases s.len() - pos,
    {
        let ghost t = s@.skip(pos as int);
        if is_whitespace(s[pos]) {
            assert(t.drop_first() =~= s@.skip(pos + 1));
            pos += 1;
        } else {
            let mut k = pos + 1;
            while k < s.len() && !is_whitespace(s[k])
                invariant
                    pos < k <= s.len(),
                    forall|j: int| pos <= j < k ==> !is_ws(s@[j]),
                decreases s.len() - k,
            {
                k += 1;
            }
            let w = slice_vec(s, pos, k);
            proof {
                assert(word_cut(t, k - pos));
                lemma_word_unique(t, k - pos);
                assert(t.take(k - pos) =~= w@);
                assert(t.skip(k - pos) =~= s@.skip(k as int));
                lemma_views_push(r@, w);
            }
            r.push(w);
            pos = k;
            proof {
                assert(views(r@) + words(s@.skip(pos as int)) =~= views(r@).drop_last() + (seq![
                    views(r@).last(),
                ] + words(s@.skip(pos as int))));
            }
        }
    }
    proof {
        assert(s@.skip(pos as int) =~= Seq::<char>::empty());
        assert(views(r@) + words(s@.skip(pos as int)) =~= views(r@));
    }
    r
}

/// The views of a sequence of `String`s.
pub open spec fn str_views(v: Seq<String>) -> Seq<Seq<char>> {
    v.map_values(|x: String| x@)
}

/// Copies a vector of strings.
pub fn copy_strings(v: &Vec<String>) -> (r: Vec<String>)
    ensures
        r@ == v@,
{
    let mut r: Vec<String> = Vec::new();
    let mut i: usize = 0;
    while i < v.len()
        invariant
            i <= v.len(),
            r@ == v@.take(i as int),
        decreases v.len() - i,
    {
        r.push(v[i].clone());
        i += 1;
        assert(r@ =~= v@.take(i as int));
    }
    assert(r@ =~= v@);
    r
}

/// Whether `v` holds a string equal to `s`.
pub fn contains_string(v: &Vec<String>, s: &String) -> (b: bool)
    ensures
        b == str_views(v@).contains(s@),
{
    let mut i: usize = 0;
    while i < v.len()
        invariant
            i <= v.len(),
            forall|j: int| 0 <= j < i ==> v@[j]@ != s@,
        decreases v.len() - i,
    {
        if v[i] == *s {
            assert(str_views(v@)[i as int] == s@);
            return true;
        }
        i += 1;
    }
    proof {
        if str_views(v@).contains(s@) {
            let j = choose|j: int| 0 <= j < str_views(v@).len() && str_views(v@)[j] == s@;
            assert(v@[j]@ == s@);
        }
    }
    false
}

/// A `String` with the characters of a `&str`.
pub fn owned(s: &str) -> (r: String)
    ensures
        r@ == s@,
{
    s.to_owned()
}

} // verus!

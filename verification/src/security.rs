//! The path policy: expanding `~`, normalising a directory, and deciding
//! whether a resolved path lies inside one of the allowed directories.

use vstd::prelude::*;
use crate::text::{
    join, starts_with_seq, chars_of, string_of, push_all, push_str, join_vecs, views, slice_vec,
    starts_with, seq_eq, owned,
};
use crate::web_search::{split_on};

verus! {

/// `~` or a path under `~/`, with `~` replaced by the home directory.
pub open spec fn expanded(s: Seq<char>, home: Seq<char>) -> Seq<char> {
    if starts_with_seq(s, "~/"@) || s == "~"@ {
        home + s.skip(1)
    } else {
        s
    }
}

/// Replaces a leading `~` (alone, or before `/`) by the home directory.
pub fn shellexpand(s: &str, home: &str) -> (r: String)
    ensures
        r@ == expanded(s@, home@),
{
    let c = chars_of(s);
    let tilde_slash = chars_of("~/");
    let tilde = chars_of("~");
    if starts_with(c.as_slice(), tilde_slash.as_slice()) || seq_eq(c.as_slice(), tilde.as_slice()) {
        proof {
            reveal_strlit("~/");
            reveal_strlit("~");
        }
        let mut out = chars_of(home);
        let rest = slice_vec(c.as_slice(), 1, c.len());
        push_all(&mut out, rest.as_slice());
        proof {
            assert(rest@ =~= c@.skip(1));
        }
        string_of(out.as_slice())
    } else {
        owned(s)
    }
}

/// The named components of a path: the pieces between `/`, without empty
/// ones, `.` and `..`.
pub open spec fn kept_component(c: Seq<char>) -> bool {
    c.len() > 0 && c != "."@ && c != ".."@
}

pub open spec fn named_components(parts: Seq<Seq<char>>) -> Seq<Seq<char>>
    decreases parts.len(),
{
    if parts.len() == 0 {
        seq![]
    } else {
        let rest = named_components(parts.drop_last());
        if kept_component(parts.last()) {
            rest.push(parts.last())
        } else {
            rest
        }
    }
}

/// A path rebuilt from its components: the root if it has one, then its
/// named components joined by `/` (std's `Path::components` pushed onto an
/// empty `PathBuf`; `.` and `..` are dropped, not resolved).
pub open spec fn normalized(p: Seq<char>) -> Seq<char> {
    let root: Seq<char> = if p.len() > 0 && p[0] == '/' {
        "/"@
    } else {
        seq![]
    };
    root + join(named_components(split_on(p, "/"@)), "/"@)
}

fn is_kept(c: &[char]) -> (b: bool)
    ensures
        b == kept_component(c@),
{
    let dot = chars_of(".");
    let dotdot = chars_of("..");
    c.len() > 0 && !seq_eq(c, dot.as_slice()) && !seq_eq(c, dotdot.as_slice())
}

/// Normalises a directory path the way the path policy compares it.
pub fn normalize_path(p: &str) -> (r: String)
    ensures
        r@ == normalized(p@),
{
    let c = chars_of(p);
    let slash = chars_of("/");
    proof {
        reveal_strlit("/");
    }
    let parts = crate::web_search::split_parts(c.as_slice(), slash.as_slice());
    let mut kept: Vec<Vec<char>> = Vec::new();
    let mut i: usize = 0;
    while i < parts.len()
        invariant
            i <= parts.len(),
            views(kept@) == named_components(views(parts@).take(i as int)),
        decreases parts.len() - i,
    {
        proof {
            assert(views(parts@).take(i + 1).drop_last() =~= views(parts@).take(i as int));
            assert(views(parts@).take(i + 1).last() == parts@[i as int]@);
        }
        if is_kept(parts[i].as_slice()) {
            let piece = slice_vec(parts[i].as_slice(), 0, parts[i].len());
            proof {
                assert(piece@ =~= parts@[i as int]@);
                crate::text::lemma_views_push(kept@, piece);
            }
            kept.push(piece);
        }
        i += 1;
    }
    proof {
        assert(views(parts@).take(parts.len() as int) =~= views(parts@));
    }
    let joined = join_vecs(&kept, slash.as_slice());
    let mut out: Vec<char> = Vec::new();
    if c.len() > 0 && c[0] == '/' {
        out.push('/');
    }
    push_all(&mut out, joined.as_slice());
    proof {
        let root: Seq<char> = if p@.len() > 0 && p@[0] == '/' {
            "/"@
        } else {
            seq![]
        };
        assert(out@ =~= root + joined@);
    }
    string_of(out.as_slice())
}

/// `abs` lies in the directory `dir` (normalised): it starts with it, and
/// the match ends at the end of `abs` or before a `/`.
pub open spec fn within(abs: Seq<char>, dir: Seq<char>) -> bool {
    let d = normalized(dir);
    starts_with_seq(abs, d) && (abs.len() == d.len() || abs[d.len() as int] == '/')
}

/// Whether a resolved path may be used: `/` among the allowed directories
/// allows everything; otherwise the path must lie in one of them.
pub open spec fn path_allowed(abs: Seq<char>, allowed: Seq<Seq<char>>) -> bool {
    allowed.contains("/"@) || exists|i: int| 0 <= i < allowed.len() && within(abs, #[trigger] allowed[i])
}

/// The text `{:?}` gives for a list of strings.
pub uninterp spec fn debug_strings(v: Seq<Seq<char>>) -> Seq<char>;

/// Wraps std's `Debug` formatting of a `Vec<String>` (`{:?}`): a bracketed,
/// comma-separated list of the quoted, escaped strings. The text depends
/// on the strings alone; its exact escaping is left to the name.
#[verifier::external_body]
fn debug_list(v: &Vec<String>) -> (s: String)
    ensures
        s@ == debug_strings(v@.map_values(|x: String| x@)),
{
    format!("{:?}", v)
}

/// The refusal of a path outside the allowed directories.
pub open spec fn not_allowed_message(requested: Seq<char>, allowed: Seq<Seq<char>>) -> Seq<char> {
    "Path not allowed: "@ + requested + ". Must be within: "@ + debug_strings(allowed)
}

fn dir_contains(abs: &[char], dir: &str) -> (b: bool)
    ensures
        b == within(abs@, dir@),
{
    let d = normalize_path(dir);
    let dc = chars_of(d.as_str());
    starts_with(abs, dc.as_slice()) && (abs.len() == dc.len() || abs[dc.len()] == '/')
}

/// Decides whether `abs`, the resolved form of the `requested` path, may be
/// used: it is given back when allowed, and refused with the list of the
/// allowed directories otherwise.
pub fn check_allowed(requested: &str, abs: &str, allowed: &Vec<String>) -> (r: Result<String, String>)
    ensures
        match r {
            Ok(p) => path_allowed(abs@, allowed@.map_values(|x: String| x@)) && p@ == abs@,
            Err(e) => !path_allowed(abs@, allowed@.map_values(|x: String| x@)) && e@
                == not_allowed_message(requested@, allowed@.map_values(|x: String| x@)),
        },
{
    let ghost av = allowed@.map_values(|x: String| x@);
    let root = owned("/");
    let a = chars_of(abs);
    let mut i: usize = 0;
    while i < allowed.len()
        invariant
            i <= allowed.len(),
            av == allowed@.map_values(|x: String| x@),
            root@ == "/"@,
            forall|j: int| 0 <= j < i ==> av[j] != "/"@,
        decreases allowed.len() - i,
    {
        assert(av[i as int] == allowed@[i as int]@);
        if allowed[i] == root {
            proof {
                assert(av[i as int] == "/"@);
            }
            return Ok(owned(abs));
        }
        i += 1;
    }
    assert(!av.contains("/"@)) by {
        if av.contains("/"@) {
            let j = choose|j: int| 0 <= j < av.len() && av[j] == "/"@;
        }
    }
    let mut k: usize = 0;
    while k < allowed.len()
        invariant
            k <= allowed.len(),
            av == allowed@.map_values(|x: String| x@),
            a@ == abs@,
            forall|j: int| 0 <= j < k ==> !within(abs@, #[trigger] av[j]),
        decreases allowed.len() - k,
    {
        assert(av[k as int] == allowed@[k as int]@);
        if dir_contains(a.as_slice(), allowed[k].as_str()) {
            assert(within(abs@, av[k as int]));
            return Ok(owned(abs));
        }
        k += 1;
    }
    let mut m: Vec<char> = Vec::new();
    push_str(&mut m, "Path not allowed: ");
    push_str(&mut m, requested);
    push_str(&mut m, ". Must be within: ");
    let shown = debug_list(allowed);
    push_str(&mut m, shown.as_str());
    Err(string_of(m.as_slice()))
}

/// A resolved path lies in an allowed directory exactly when it is the
/// normalised directory itself or starts with it followed by `/` (so
/// `/tmp/ab/y` is not in `/tmp/a`).
pub proof fn lemma_within_iff(abs: Seq<char>, dir: Seq<char>)
    ensures
        within(abs, dir) <==> (abs == normalized(dir) || starts_with_seq(abs, normalized(dir) + "/"@)),
{
    reveal_strlit("/");
    let d = normalized(dir);
    let ds = d + "/"@;
    if within(abs, dir) {
        if abs.len() == d.len() {
            assert(abs =~= abs.subrange(0, d.len() as int));
        } else {
            assert(abs.subrange(0, ds.len() as int) =~= ds);
        }
    }
    if starts_with_seq(abs, ds) {
        assert(abs.subrange(0, d.len() as int) =~= abs.subrange(0, ds.len() as int).subrange(0, d.len() as int));
        assert(abs.subrange(0, d.len() as int) =~= d);
        assert(abs[d.len() as int] == abs.subrange(0, ds.len() as int)[d.len() as int]);
    }
    if abs == d {
        assert(abs.subrange(0, d.len() as int) =~= d);
    }
}

} // verus!

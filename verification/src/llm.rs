//! The chat client's own logic: spotting image prompts, choosing the model,
//! falling back through models, and reading a streamed reply.

use vstd::prelude::*;
use crate::text::{
    contains_seq, first_match, lowercase, to_lowercase, chars_of, string_of, contains, find_from,
    push_str, push_all, join, join_vecs, views, str_views, owned, trim_seq, trim,
    starts_with_seq, starts_with, slice_vec, seq_eq, nl_cut, first_nl, next_newline,
    lemma_nl_unique,
};
use crate::router::{chat_url};

verus! {

/// The file extensions that mark a prompt as mentioning an image.
pub open spec fn image_extensions() -> Seq<Seq<char>> {
    seq![".jpg"@, ".jpeg"@, ".png"@, ".gif"@, ".bmp"@, ".webp"@, ".svg"@]
}

/// Whether a prompt calls for a vision model: once lower-cased, it holds an
/// image data URL, base64 data of an image type, or an image file
/// extension.
pub open spec fn needs_vision(prompt: Seq<char>) -> bool {
    let l = lowercase(prompt);
    contains_seq(l, "data:image/"@) || (contains_seq(l, "base64"@) && contains_seq(l, "image/"@))
        || exists|i: int| 0 <= i < image_extensions().len() && contains_seq(l, #[trigger] image_extensions()[i])
}

fn ext_at(i: usize) -> (e: Vec<char>)
    requires
        i < 7,
    ensures
        e@ == image_extensions()[i as int],
        e@.len() > 0 && e@[0] == '.',
{
    proof {
        reveal_strlit(".jpg");
        reveal_strlit(".jpeg");
        reveal_strlit(".png");
        reveal_strlit(".gif");
        reveal_strlit(".bmp");
        reveal_strlit(".webp");
        reveal_strlit(".svg");
    }
    match i {
        0 => chars_of(".jpg"),
        1 => chars_of(".jpeg"),
        2 => chars_of(".png"),
        3 => chars_of(".gif"),
        4 => chars_of(".bmp"),
        5 => chars_of(".webp"),
        _ => chars_of(".svg"),
    }
}

/// Whether a prompt calls for a vision model. For an extension it also
/// checks the first character of the text found; that text starts with the
/// extension's own `.`, so the check always passes.
pub fn has_vision(prompt: &str) -> (b: bool)
    ensures
        b == needs_vision(prompt@),
{
    let p = chars_of(prompt);
    let lower = to_lowercase(p.as_slice());
    let data_image = chars_of("data:image/");
    if contains(lower.as_slice(), data_image.as_slice()) {
        return true;
    }
    let b64 = chars_of("base64");
    let image = chars_of("image/");
    if contains(lower.as_slice(), b64.as_slice()) && contains(lower.as_slice(), image.as_slice()) {
        return true;
    }
    let mut i: usize = 0;
    while i < 7
        invariant
            i <= 7,
            lower@ == lowercase(prompt@),
            forall|j: int| 0 <= j < i ==> !contains_seq(lower@, #[trigger] image_extensions()[j]),
        decreases 7 - i,
    {
        let ext = ext_at(i);
        if contains(lower.as_slice(), ext.as_slice()) {
            assert(lower@.skip(0) =~= lower@);
            match find_from(lower.as_slice(), ext.as_slice(), 0) {
                Some(pos) => {
                    let c = lower[pos];
                    assert(lower@.subrange(pos as int, pos + ext@.len())[0] == ext@[0]);
                    if c == '.' || c == '?' || c == '#' {
                        return true;
                    }
                },
                None => {
                    proof {
                        crate::text::lemma_contains_first(lower@, ext@);
                        crate::text::lemma_first_match_some(lower@, ext@);
                    }
                },
            }
        }
        i += 1;
    }
    proof {
        assert(image_extensions().len() == 7);
    }
    false
}

/// The model for a prompt: the preferred one when given, else the vision
/// model for a prompt that calls for one, else the default.
pub fn select_model(prompt: &str, preferred: Option<&str>, model: &str, vision_model: &str) -> (r: String)
    ensures
        r@ == match preferred {
            Some(m) => m@,
            None => if needs_vision(prompt@) {
                vision_model@
            } else {
                model@
            },
        },
{
    match preferred {
        Some(m) => owned(m),
        None => if has_vision(prompt) {
            owned(vision_model)
        } else {
            owned(model)
        },
    }
}

/// Whether the agent switches to the vision model for a message: the
/// message calls for one and the active model is not a `mimo` model.
pub fn switches_to_vision(text: &str, active_model: &str) -> (b: bool)
    ensures
        b == (needs_vision(text@) && !contains_seq(active_model@, "mimo"@)),
{
    let a = chars_of(active_model);
    let mimo = chars_of("mimo");
    has_vision(text) && !contains(a.as_slice(), mimo.as_slice())
}

/// The completions URL under a base URL.
pub fn completions_url(base_url: &str) -> (r: String)
    ensures
        r@ == chat_url(base_url@),
{
    let b = chars_of(base_url);
    let mut out = crate::router::trim_end_slashes(b.as_slice());
    push_str(&mut out, "/chat/completions");
    string_of(out.as_slice())
}

// ---------------------------------------------------------------------------
// Falling back through models
// ---------------------------------------------------------------------------

/// The attempts of a chat with fallbacks: the primary model, then each
/// fallback model in turn, with the error of each failed attempt.
pub struct ClientFallback {
    models: Vec<String>,
    next: usize,
    errors: Vec<String>,
}

/// How a failed attempt is recorded: the primary as `primary`, a fallback
/// by its name.
pub open spec fn attempt_error(models: Seq<Seq<char>>, idx: int, e: Seq<char>) -> Seq<char> {
    if idx == 0 {
        "primary: "@ + e
    } else {
        models[idx] + " failed: "@ + e
    }
}

impl ClientFallback {
    pub closed spec fn models(&self) -> Seq<Seq<char>> {
        str_views(self.models@)
    }

    pub closed spec fn tried(&self) -> nat {
        self.next as nat
    }

    pub closed spec fn errors(&self) -> Seq<Seq<char>> {
        str_views(self.errors@)
    }

    pub closed spec fn wf(&self) -> bool {
        &&& self.next <= self.models@.len()
        &&& self.errors@.len() == self.next
    }

    /// A run over `primary`, then the fallbacks in order.
    pub fn new(primary: &str, fallbacks: &Vec<String>) -> (f: Self)
        ensures
            f.wf(),
            f.models() == seq![primary@] + str_views(fallbacks@),
            f.tried() == 0,
            f.errors() == Seq::<Seq<char>>::empty(),
    {
        let mut models: Vec<String> = Vec::new();
        models.push(owned(primary));
        let mut i: usize = 0;
        while i < fallbacks.len()
            invariant
                i <= fallbacks.len(),
                str_views(models@) == seq![primary@] + str_views(fallbacks@).take(i as int),
            decreases fallbacks.len() - i,
        {
            let f = fallbacks[i].clone();
            proof {
                assert(str_views(models@.push(f)) =~= str_views(models@).push(f@));
                assert(str_views(fallbacks@).take(i + 1) =~= str_views(fallbacks@).take(i as int).push(fallbacks@[i as int]@));
            }
            models.push(f);
            i += 1;
        }
        assert(str_views(fallbacks@).take(fallbacks.len() as int) =~= str_views(fallbacks@));
        let r = ClientFallback { models, next: 0, errors: Vec::new() };
        assert(r.errors() =~= Seq::<Seq<char>>::empty());
        r
    }

    /// The model of the next attempt, or `None` when every model was tried.
    pub fn next_model(&self) -> (m: Option<String>)
        requires
            self.wf(),
        ensures
            match m {
                Some(name) => self.tried() < self.models().len() && name@ == self.models()[self.tried() as int],
                None => self.tried() == self.models().len(),
            },
    {
        if self.next < self.models.len() {
            Some(self.models[self.next].clone())
        } else {
            None
        }
    }

    /// Records the failure of the current attempt.
    pub fn failed(&mut self, error: &str)
        requires
            old(self).wf(),
            old(self).tried() < old(self).models().len(),
        ensures
            final(self).wf(),
            final(self).models() == old(self).models(),
            final(self).tried() == old(self).tried() + 1,
            final(self).errors() == old(self).errors().push(
                attempt_error(old(self).models(), old(self).tried() as int, error@),
            ),
    {
        let mut m: Vec<char> = Vec::new();
        if self.next == 0 {
            push_str(&mut m, "primary: ");
        } else {
            push_str(&mut m, self.models[self.next].as_str());
            push_str(&mut m, " failed: ");
        }
        push_str(&mut m, error);
        let n = self.models.len();
        let e = string_of(m.as_slice());
        proof {
            assert(str_views(self.errors@.push(e)) =~= str_views(self.errors@).push(e@));
        }
        self.errors.push(e);
        self.next = self.next + 1;
    }

    /// The error once every model failed: all the errors, separated by ` | `.
    pub fn exhausted_error(&self) -> (e: String)
        ensures
            e@ == "All models failed: "@ + join(self.errors(), " | "@),
    {
        let parts = crate::browser::strings_to_vecs(&self.errors);
        let sep = chars_of(" | ");
        let j = join_vecs(&parts, sep.as_slice());
        let mut m: Vec<char> = Vec::new();
        push_str(&mut m, "All models failed: ");
        push_all(&mut m, j.as_slice());
        string_of(m.as_slice())
    }
}

// ---------------------------------------------------------------------------
// Streamed replies
// ---------------------------------------------------------------------------

/// What the stream reader takes out of buffered text: the payloads of its
/// complete `data: ` lines (each line trimmed), up to a `[DONE]` payload,
/// and the text left in the buffer.
pub open spec fn drain_events(s: Seq<char>) -> (Seq<Seq<char>>, Seq<char>)
    decreases s.len(),
{
    let k = first_nl(s);
    if 0 <= k < s.len() {
        let line = trim_seq(s.take(k));
        let rest = s.skip(k + 1);
        if line.len() == 0 || !starts_with_seq(line, "data: "@) {
            drain_events(rest)
        } else if line.skip(6) == "[DONE]"@ {
            (seq![], rest)
        } else {
            let r = drain_events(rest);
            (seq![line.skip(6)] + r.0, r.1)
        }
    } else {
        (seq![], s)
    }
}

/// The text of a streamed reply not yet cut into lines.
pub struct StreamBuffer {
    buffer: Vec<char>,
}

impl StreamBuffer {
    pub closed spec fn pending(&self) -> Seq<char> {
        self.buffer@
    }

    pub fn new() -> (b: Self)
        ensures
            b.pending() == Seq::<char>::empty(),
    {
        StreamBuffer { buffer: Vec::new() }
    }

    /// Adds received text and takes out the payloads of the complete event
    /// lines, in order.
    pub fn feed(&mut self, text: &str) -> (events: Vec<String>)
        ensures
            str_views(events@) == drain_events(old(self).pending() + text@).0,
            final(self).pending() == drain_events(old(self).pending() + text@).1,
    {
        let t = chars_of(text);
        let mut s = slice_vec(self.buffer.as_slice(), 0, self.buffer.len());
        push_all(&mut s, t.as_slice());
        let ghost whole = s@;
        assert(whole =~= old(self).pending() + text@);
        let mut out: Vec<String> = Vec::new();
        let prefix = chars_of("data: ");
        let done = chars_of("[DONE]");
        proof {
            reveal_strlit("data: ");
        }
        let mut pos: usize = 0;
        assert(s@.skip(0) =~= s@);
        loop
            invariant
                pos <= s@.len(),
                s@ == whole,
                whole == old(self).pending() + text@,
                prefix@ == "data: "@,
                prefix@.len() == 6,
                done@ == "[DONE]"@,
                drain_events(whole).0 == str_views(out@) + drain_events(whole.skip(pos as int)).0,
                drain_events(whole).1 == drain_events(whole.skip(pos as int)).1,
            decreases s@.len() - pos,
        {
            let ghost cur = whole.skip(pos as int);
            let k = next_newline(s.as_slice(), pos);
            proof {
                lemma_nl_unique(cur, k - pos);
            }
            if k >= s.len() {
                let rest = slice_vec(s.as_slice(), pos, s.len());
                proof {
                    assert(rest@ =~= cur);
                    assert(str_views(out@) + Seq::<Seq<char>>::empty() =~= str_views(out@));
                }
                self.buffer = rest;
                return out;
            }
            let raw = slice_vec(s.as_slice(), pos, k);
            let line = trim(raw.as_slice());
            proof {
                assert(raw@ =~= cur.take(k - pos));
                assert(cur.skip(k - pos + 1) =~= whole.skip(k + 1));
            }
            pos = k + 1;
            if line.len() > 0 && starts_with(line.as_slice(), prefix.as_slice()) {
                let data = slice_vec(line.as_slice(), 6, line.len());
                proof {
                    assert(data@ =~= line@.skip(6));
                }
                if seq_eq(data.as_slice(), done.as_slice()) {
                    let rest = slice_vec(s.as_slice(), pos, s.len());
                    proof {
                        assert(rest@ =~= whole.skip(pos as int));
                        assert(str_views(out@) + Seq::<Seq<char>>::empty() =~= str_views(out@));
                    }
                    self.buffer = rest;
                    return out;
                }
                let d = string_of(data.as_slice());
                proof {
                    assert(str_views(out@.push(d)) =~= str_views(out@).push(d@));
                    assert(str_views(out@).push(d@) + drain_events(whole.skip(pos as int)).0
                        =~= str_views(out@) + (seq![d@] + drain_events(whole.skip(pos as int)).0));
                }
                out.push(d);
            }
        }
    }
}

} // verus!

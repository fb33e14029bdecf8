//! The process tools' own logic: which commands are refused, how a run's
//! output is reported, and paging through a session's output.

use vstd::prelude::*;
use crate::text::{
    join, decimal, signed_decimal, chars_of, string_of, push_str, push_all, push_u64, push_i64,
    join_vecs, views, starts_with_seq, contains_seq, starts_with, contains, owned, str_views,
};

verus! {

/// Whether `command` falls under the blocked entry `b`: it starts with it,
/// or contains it as a word between spaces.
pub open spec fn blocked_by(command: Seq<char>, b: Seq<char>) -> bool {
    starts_with_seq(command, b) || contains_seq(command, " "@ + b + " "@)
}

pub open spec fn blocked_message(command: Seq<char>) -> Seq<char> {
    "Command '"@ + command + "' is blocked."@
}

/// Refuses a command that falls under one of the blocked entries.
pub fn check_blocked(command: &str, blocked: &Vec<String>) -> (r: Result<(), String>)
    ensures
        match r {
            Ok(()) => forall|i: int| 0 <= i < blocked@.len() ==> !blocked_by(command@, #[trigger] blocked@[i]@),
            Err(e) => (exists|i: int| 0 <= i < blocked@.len() && blocked_by(command@, #[trigger] blocked@[i]@))
                && e@ == blocked_message(command@),
        },
{
    let c = chars_of(command);
    let mut i: usize = 0;
    while i < blocked.len()
        invariant
            i <= blocked.len(),
            c@ == command@,
            forall|j: int| 0 <= j < i ==> !blocked_by(command@, #[trigger] blocked@[j]@),
        decreases blocked.len() - i,
    {
        let b = chars_of(blocked[i].as_str());
        let mut word: Vec<char> = Vec::new();
        push_str(&mut word, " ");
        push_all(&mut word, b.as_slice());
        push_str(&mut word, " ");
        if starts_with(c.as_slice(), b.as_slice()) || contains(c.as_slice(), word.as_slice()) {
            assert(blocked_by(command@, blocked@[i as int]@));
            let mut m: Vec<char> = Vec::new();
            push_str(&mut m, "Command '");
            push_str(&mut m, command);
            push_str(&mut m, "' is blocked.");
            return Err(string_of(m.as_slice()));
        }
        i += 1;
    }
    Ok(())
}

/// The report of a finished command: its exit code, then its standard
/// output, then its error output after a separator line (only when there
/// was standard output), or a note that there was no output at all.
pub open spec fn run_report(stdout: Seq<char>, stderr: Seq<char>, code: Option<i32>) -> Seq<char> {
    let body = if stdout.len() == 0 && stderr.len() == 0 {
        "Command completed with no output."@
    } else if stderr.len() == 0 {
        stdout
    } else if stdout.len() == 0 {
        stderr
    } else {
        stdout + "\n--- stderr ---\n"@ + stderr
    };
    let c: int = match code {
        Some(x) => x as int,
        None => -1,
    };
    "[Exit code: "@ + signed_decimal(c) + "]\n"@ + body
}

/// Reports a finished command's output and exit code (`None` when it was
/// ended by a signal).
pub fn format_run_output(stdout: &str, stderr: &str, exit_code: Option<i32>) -> (s: String)
    ensures
        s@ == run_report(stdout@, stderr@, exit_code),
{
    let out = chars_of(stdout);
    let err = chars_of(stderr);
    let mut body: Vec<char> = Vec::new();
    if out.len() > 0 {
        push_all(&mut body, out.as_slice());
    }
    if err.len() > 0 {
        if body.len() > 0 {
            push_str(&mut body, "\n--- stderr ---\n");
        }
        push_all(&mut body, err.as_slice());
    }
    if body.len() == 0 {
        push_str(&mut body, "Command completed with no output.");
    }
    let code: i64 = match exit_code {
        Some(x) => x as i64,
        None => -1,
    };
    let mut m: Vec<char> = Vec::new();
    push_str(&mut m, "[Exit code: ");
    push_i64(&mut m, code);
    push_str(&mut m, "]\n");
    push_all(&mut m, body.as_slice());
    proof {
        assert(m@ =~= run_report(stdout@, stderr@, exit_code));
    }
    string_of(m.as_slice())
}

/// The lines of a session's output: standard output, then, when there is
/// error output, a separator line and the error output.
pub open spec fn session_lines(stdout: Seq<Seq<char>>, stderr: Seq<Seq<char>>) -> Seq<Seq<char>> {
    if stderr.len() == 0 {
        stdout
    } else {
        stdout + seq!["--- stderr ---"@] + stderr
    }
}

/// The first line a read of a session returns.
pub open spec fn session_start(total: int, offset: int) -> int {
    if offset < 0 {
        if -offset >= total {
            0
        } else {
            total + offset
        }
    } else {
        offset
    }
}

/// What a read of a session's output returns.
pub open spec fn session_read(
    stdout: Seq<Seq<char>>,
    stderr: Seq<Seq<char>>,
    finished: bool,
    offset: int,
    length: int,
) -> Seq<char> {
    let all = session_lines(stdout, stderr);
    let total = all.len() as int;
    let start = session_start(total, offset);
    let end = if start + length < total {
        start + length
    } else {
        total
    };
    if start >= total {
        "[No new output]"@
    } else {
        "[Read "@ + decimal((end - start) as nat) + " lines from line "@ + decimal(start as nat)
            + " (total: "@ + decimal(total as nat) + " lines, "@ + decimal((total - end) as nat)
            + " remaining)]"@ + (if finished {
            " [PROCESS FINISHED]"@
        } else {
            seq![]
        }) + "\n\n"@ + join(all.subrange(start, end), "\n"@)
    }
}

fn gather_lines(stdout: &Vec<String>, stderr: &Vec<String>) -> (all: Vec<Vec<char>>)
    ensures
        views(all@) == session_lines(str_views(stdout@), str_views(stderr@)),
{
    let mut all: Vec<Vec<char>> = Vec::new();
    let mut i: usize = 0;
    while i < stdout.len()
        invariant
            i <= stdout.len(),
            views(all@) == str_views(stdout@).take(i as int),
        decreases stdout.len() - i,
    {
        let l = chars_of(stdout[i].as_str());
        proof {
            crate::text::lemma_views_push(all@, l);
            assert(str_views(stdout@).take(i + 1) =~= str_views(stdout@).take(i as int).push(l@));
        }
        all.push(l);
        i += 1;
    }
    assert(str_views(stdout@).take(stdout.len() as int) =~= str_views(stdout@));
    if stderr.len() > 0 {
        let sep = chars_of("--- stderr ---");
        proof {
            crate::text::lemma_views_push(all@, sep);
        }
        all.push(sep);
        let mut j: usize = 0;
        while j < stderr.len()
            invariant
                j <= stderr.len(),
                views(all@) == str_views(stdout@) + seq!["--- stderr ---"@] + str_views(stderr@).take(
                    j as int,
                ),
            decreases stderr.len() - j,
        {
            let l = chars_of(stderr[j].as_str());
            proof {
                crate::text::lemma_views_push(all@, l);
                assert(str_views(stderr@).take(j + 1) =~= str_views(stderr@).take(j as int).push(
                    l@,
                ));
            }
            all.push(l);
            j += 1;
        }
        assert(str_views(stderr@).take(stderr.len() as int) =~= str_views(stderr@));
    }
    assert(views(all@) =~= session_lines(str_views(stdout@), str_views(stderr@)));
    all
}

fn window_of(all: &Vec<Vec<char>>, start: usize, end: usize) -> (w: Vec<Vec<char>>)
    requires
        start <= end <= all@.len(),
    ensures
        views(w@) == views(all@).subrange(start as int, end as int),
{
    let mut window: Vec<Vec<char>> = Vec::new();
    let mut k: usize = start;
    while k < end
        invariant
            start <= k <= end,
            end <= all@.len(),
            window@.len() == k - start,
            forall|x: int| 0 <= x < k - start ==> window@[x]@ == all@[start + x]@,
        decreases end - k,
    {
        let l = crate::text::slice_vec(all[k].as_slice(), 0, all[k].len());
        proof {
            assert(l@ =~= all@[k as int]@);
        }
        window.push(l);
        k += 1;
    }
    assert(views(window@) =~= views(all@).subrange(start as int, end as int));
    window
}

/// Reads a window of a session's output: `length` lines from line
/// `offset`, or from `-offset` lines before the end for a negative offset.
pub fn collect_output(
    stdout: &Vec<String>,
    stderr: &Vec<String>,
    finished: bool,
    offset: i64,
    length: usize,
) -> (s: String)
    requires
        offset > i64::MIN,
        session_start(
            session_lines(str_views(stdout@), str_views(stderr@)).len() as int,
            offset as int,
        ) + length <= usize::MAX,
    ensures
        s@ == session_read(str_views(stdout@), str_views(stderr@), finished, offset as int, length as int),
{
    let all = gather_lines(stdout, stderr);
    let ghost av = session_lines(str_views(stdout@), str_views(stderr@));
    let total = all.len();
    assert(views(all@).len() == all@.len());
    let start: usize = if offset < 0 {
        let tail: u64 = (-offset) as u64;
        if tail >= total as u64 {
            0
        } else {
            total - tail as usize
        }
    } else {
        offset as usize
    };
    assert(start as int == session_start(total as int, offset as int));
    let end: usize = if start + length < total {
        start + length
    } else {
        total
    };
    if start >= total {
        return owned("[No new output]");
    }
    let window = window_of(&all, start, end);
    let mut m: Vec<char> = Vec::new();
    push_str(&mut m, "[Read ");
    push_u64(&mut m, (end - start) as u64);
    push_str(&mut m, " lines from line ");
    push_u64(&mut m, start as u64);
    push_str(&mut m, " (total: ");
    push_u64(&mut m, total as u64);
    push_str(&mut m, " lines, ");
    push_u64(&mut m, (total - end) as u64);
    push_str(&mut m, " remaining)]");
    if finished {
        push_str(&mut m, " [PROCESS FINISHED]");
    }
    push_str(&mut m, "\n\n");
    let nl = chars_of("\n");
    let body = join_vecs(&window, nl.as_slice());
    push_all(&mut m, body.as_slice());
    proof {
        assert(m@ =~= session_read(
            str_views(stdout@),
            str_views(stderr@),
            finished,
            offset as int,
            length as int,
        ));
    }
    string_of(m.as_slice())
}

/// The report of a process started in a session, with its first output.
pub fn started_message(command: &str, session_id: &str, output: &str) -> (s: String)
    ensures
        s@ == "Started process '"@ + command@ + "' (session: "@ + session_id@ + ")\n\n"@ + output@,
{
    let mut m: Vec<char> = Vec::new();
    push_str(&mut m, "Started process '");
    push_str(&mut m, command);
    push_str(&mut m, "' (session: ");
    push_str(&mut m, session_id);
    push_str(&mut m, ")\n\n");
    push_str(&mut m, output);
    string_of(m.as_slice())
}

/// The report of input sent to a session: its size in bytes.
pub fn sent_message(input: &str, session_id: &str) -> (s: String)
    requires
        crate::fuzzy::utf8_len(input@) <= usize::MAX,
    ensures
        s@ == "Sent "@ + decimal(crate::fuzzy::utf8_len(input@)) + " bytes to process '"@
            + session_id@ + "'"@,
{
    let bytes = crate::fuzzy::utf8_size(input);
    let mut m: Vec<char> = Vec::new();
    push_str(&mut m, "Sent ");
    push_u64(&mut m, bytes as u64);
    push_str(&mut m, " bytes to process '");
    push_str(&mut m, session_id);
    push_str(&mut m, "'");
    string_of(m.as_slice())
}

/// The report of a terminated session.
pub fn terminated_message(session_id: &str) -> (s: String)
    ensures
        s@ == "Process '"@ + session_id@ + "' terminated"@,
{
    let mut m: Vec<char> = Vec::new();
    push_str(&mut m, "Process '");
    push_str(&mut m, session_id);
    push_str(&mut m, "' terminated");
    string_of(m.as_slice())
}

} // verus!

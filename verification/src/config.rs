//! Settings and the command line: the default tool policy and model
//! settings, port numbers, and the program's modes.

use vstd::prelude::*;
use crate::text::{chars_of, owned, str_views, trim, trim_seq};

verus! {

/// What the tools may touch and how much they show.
pub struct ToolPolicy {
    pub allowed_directories: Vec<String>,
    pub blocked_commands: Vec<String>,
    pub default_shell: String,
    pub file_read_line_limit: usize,
    pub file_write_line_limit: usize,
    pub telemetry_enabled: bool,
}

/// The model settings that are not numbers with a fraction.
pub struct ModelSettings {
    pub base_url: String,
    pub model: String,
    pub api_key: String,
    pub max_tokens: u32,
    pub fallback_models: Vec<String>,
    pub vision_model: String,
}

pub open spec fn default_blocked() -> Seq<Seq<char>> {
    seq![
        "sudo"@, "su"@, "passwd"@, "shutdown"@, "reboot"@, "init"@, "poweroff"@, "halt"@,
        "mkfs"@, "dd"@, "format"@,
    ]
}

pub open spec fn default_fallbacks() -> Seq<Seq<char>> {
    seq!["big-pickle"@, "nemotron-3-ultra-free"@, "mimo-v2.5-free"@, "north-mini-code-free"@]
}

fn strings(parts: &[&str]) -> (v: Vec<String>)
    ensures
        v@.len() == parts@.len(),
        forall|i: int| 0 <= i < parts@.len() ==> v@[i]@ == parts@[i]@,
{
    let mut v: Vec<String> = Vec::new();
    let mut i: usize = 0;
    while i < parts.len()
        invariant
            i <= parts.len(),
            v@.len() == i,
            forall|k: int| 0 <= k < i ==> v@[k]@ == parts@[k]@,
        decreases parts.len() - i,
    {
        v.push(owned(parts[i]));
        i += 1;
    }
    v
}

impl ToolPolicy {
    /// Everything allowed under `/`, the dangerous system commands blocked,
    /// `bash`, reads of 1000 lines, writes of 50 lines, no telemetry.
    pub fn default_policy() -> (p: Self)
        ensures
            str_views(p.allowed_directories@) == seq!["/"@],
            str_views(p.blocked_commands@) == default_blocked(),
            p.default_shell@ == "bash"@,
            p.file_read_line_limit == 1000,
            p.file_write_line_limit == 50,
            !p.telemetry_enabled,
    {
        let allowed = strings(&["/"]);
        let blocked = strings(
            &["sudo", "su", "passwd", "shutdown", "reboot", "init", "poweroff", "halt", "mkfs", "dd", "format"],
        );
        assert(str_views(allowed@) =~= seq!["/"@]);
        assert(str_views(blocked@) =~= default_blocked());
        ToolPolicy {
            allowed_directories: allowed,
            blocked_commands: blocked,
            default_shell: owned("bash"),
            file_read_line_limit: 1000,
            file_write_line_limit: 50,
            telemetry_enabled: false,
        }
    }
}

impl ModelSettings {
    /// The OpenCode Zen endpoint, its free model, no key, 4096 tokens, four
    /// fallback models, and a vision model.
    pub fn default_settings() -> (m: Self)
        ensures
            m.base_url@ == "https://opencode.ai/zen/v1"@,
            m.model@ == "deepseek-v4-flash-free"@,
            m.api_key@.len() == 0,
            m.max_tokens == 4096,
            str_views(m.fallback_models@) == default_fallbacks(),
            m.vision_model@ == "mimo-v2.5-free"@,
    {
        let fb = strings(&["big-pickle", "nemotron-3-ultra-free", "mimo-v2.5-free", "north-mini-code-free"]);
        assert(str_views(fb@) =~= default_fallbacks());
        ModelSettings {
            base_url: owned("https://opencode.ai/zen/v1"),
            model: owned("deepseek-v4-flash-free"),
            api_key: String::new(),
            max_tokens: 4096,
            fallback_models: fb,
            vision_model: owned("mimo-v2.5-free"),
        }
    }
}

// ---------------------------------------------------------------------------
// Port numbers
// ---------------------------------------------------------------------------

pub open spec fn is_digit(c: char) -> bool {
    '0' <= c && c <= '9'
}

/// The value of a run of decimal digits.
pub open spec fn digits_value(d: Seq<char>) -> nat
    decreases d.len(),
{
    if d.len() == 0 {
        0
    } else {
        digits_value(d.drop_last()) * 10 + ((d.last() as u32) - 48) as nat
    }
}

/// A port number as std's `str::parse::<u16>` reads it: an optional `+`
/// (not alone), then decimal digits, no other character, at most 65535.
pub open spec fn digits_part(s: Seq<char>) -> Seq<char> {
    if s.len() > 1 && s[0] == '+' {
        s.skip(1)
    } else {
        s
    }
}

pub open spec fn all_digits(d: Seq<char>) -> bool {
    forall|i: int| 0 <= i < d.len() ==> is_digit(#[trigger] d[i])
}

pub open spec fn parsed_u16(s: Seq<char>) -> Option<u16> {
    let d = digits_part(s);
    if d.len() > 0 && all_digits(d) && digits_value(d) <= 65535 {
        Some(digits_value(d) as u16)
    } else {
        None
    }
}

proof fn lemma_digits_grow(d: Seq<char>, i: int)
    requires
        0 <= i <= d.len(),
        forall|k: int| 0 <= k < d.len() ==> is_digit(d[k]),
    ensures
        digits_value(d.take(i)) <= digits_value(d),
    decreases d.len() - i,
{
    if i < d.len() {
        lemma_digits_grow(d, i + 1);
        assert(d.take(i + 1).drop_last() =~= d.take(i));
    } else {
        assert(d.take(i) =~= d);
    }
}

/// Reads a port number (std's `str::parse::<u16>`).
pub fn parse_u16(s: &str) -> (r: Option<u16>)
    ensures
        r == parsed_u16(s@),
{
    let c = chars_of(s);
    let start: usize = if c.len() > 1 && c[0] == '+' {
        1
    } else {
        0
    };
    let ghost d = if c@.len() > 1 && c@[0] == '+' {
        c@.skip(1)
    } else {
        c@
    };
    assert(d =~= c@.skip(start as int));
    if start >= c.len() {
        return None;
    }
    let mut acc: u32 = 0;
    let mut i: usize = start;
    while i < c.len()
        invariant
            start <= i <= c.len(),
            c@ == s@,
            d == digits_part(s@),
            d == c@.skip(start as int),
            acc == digits_value(d.take(i - start)),
            acc <= 65535,
            forall|k: int| 0 <= k < i - start ==> is_digit(d[k]),
        decreases c.len() - i,
    {
        let ch = c[i];
        proof {
            assert(d.take(i - start + 1).drop_last() =~= d.take(i - start));
            assert(d.take(i - start + 1).last() == ch);
        }
        if !('0' <= ch && ch <= '9') {
            assert(d[i - start] == ch);
            assert(!is_digit(d[i - start]));
            assert(!all_digits(d));
            return None;
        }
        let v = (ch as u32) - 48;
        let next = acc * 10 + v;
        assert(d[i - start] == ch);
        assert(digits_value(d.take(i - start + 1)) == acc * 10 + v);
        if next > 65535 {
            proof {
                if all_digits(d) {
                    lemma_digits_grow(d, i - start + 1);
                }
            }
            return None;
        }
        acc = next;
        i += 1;
    }
    assert(d.take(i - start) =~= d);
    Some(acc as u16)
}

// ---------------------------------------------------------------------------
// Modes
// ---------------------------------------------------------------------------

/// What the program does.
pub enum Mode {
    /// Answer one prompt.
    Chat(String),
    /// Run the interactive agent, with or without the dashboard.
    Agent { dashboard: bool },
    /// Split a task among workers.
    Orchestrate(String),
    /// Serve the dashboard on a port.
    Dashboard(u16),
    /// Serve tools over MCP: on stdio, or on a TCP port.
    Mcp(Option<u16>),
}

/// The first position of `flag` among the arguments.
pub open spec fn flag_pos(args: Seq<Seq<char>>, flag: Seq<char>) -> Option<int> {
    if exists|i: int| 0 <= i < args.len() && args[i] == flag {
        Some(choose|i: int| 0 <= i < args.len() && args[i] == flag && forall|k: int| 0 <= k < i ==> args[k] != flag)
    } else {
        None
    }
}

/// The argument after the first `flag`, when there is one.
pub open spec fn after_flag(args: Seq<Seq<char>>, flag: Seq<char>) -> Option<Seq<char>> {
    match flag_pos(args, flag) {
        Some(i) => if i + 1 < args.len() {
            Some(args[i + 1])
        } else {
            None
        },
        None => None,
    }
}

/// Which mode the arguments (and the TCP port setting) ask for: `--chat
/// PROMPT`, else `--agent` (with `--dashboard` anywhere), else
/// `--orchestrate TASK`, else `--dashboard [PORT]` (3000 by default or
/// when unreadable), else MCP on the configured TCP port or stdio.
pub open spec fn mode_of(args: Seq<Seq<char>>, tcp_port: Option<Seq<char>>, m: Mode) -> bool {
    if after_flag(args, "--chat"@) is Some {
        m matches Mode::Chat(p) && p@ == after_flag(args, "--chat"@)->0
    } else if args.contains("--agent"@) {
        m matches Mode::Agent { dashboard } && dashboard == args.contains("--dashboard"@)
    } else if after_flag(args, "--orchestrate"@) is Some {
        m matches Mode::Orchestrate(t) && t@ == after_flag(args, "--orchestrate"@)->0
    } else if flag_pos(args, "--dashboard"@) is Some {
        m matches Mode::Dashboard(port) && port == match after_flag(args, "--dashboard"@) {
            Some(a) => match parsed_u16(a) {
                Some(p) => p,
                None => 3000u16,
            },
            None => 3000u16,
        }
    } else {
        m matches Mode::Mcp(p) && p == match tcp_port {
            Some(t) => parsed_u16(t),
            None => None,
        }
    }
}

fn position(args: &Vec<String>, flag: &str) -> (r: Option<usize>)
    ensures
        match r {
            Some(i) => i < args@.len() && flag_pos(str_views(args@), flag@) == Some(i as int),
            None => flag_pos(str_views(args@), flag@) is None,
        },
{
    let f = owned(flag);
    let ghost a = str_views(args@);
    let mut i: usize = 0;
    while i < args.len()
        invariant
            i <= args.len(),
            f@ == flag@,
            a == str_views(args@),
            forall|k: int| 0 <= k < i ==> a[k] != flag@,
        decreases args.len() - i,
    {
        assert(a[i as int] == args@[i as int]@);
        if args[i] == f {
            proof {
                let c = choose|c: int| 0 <= c < a.len() && a[c] == flag@ && forall|k: int| 0 <= k < c ==> a[k] != flag@;
                assert(0 <= i < a.len() && a[i as int] == flag@ && forall|k: int| 0 <= k < i ==> a[k] != flag@);
                if c < i {
                    assert(a[c] != flag@);
                }
                if i < c {
                    assert(a[i as int] != flag@);
                }
            }
            return Some(i);
        }
        i += 1;
    }
    None
}

fn arg_after(args: &Vec<String>, flag: &str) -> (r: Option<String>)
    ensures
        match r {
            Some(s) => after_flag(str_views(args@), flag@) == Some(s@),
            None => after_flag(str_views(args@), flag@) is None,
        },
{
    let n = args.len();
    match position(args, flag) {
        Some(i) => if i + 1 < n {
            Some(args[i + 1].clone())
        } else {
            None
        },
        None => None,
    }
}

/// The mode the command line asks for; `tcp_port` is the TCP port setting
/// of the environment, when set.
pub fn mode_from_args(args: &Vec<String>, tcp_port: Option<&str>) -> (m: Mode)
    ensures
        mode_of(str_views(args@), match tcp_port {
            Some(t) => Some(t@),
            None => None,
        }, m),
{
    let ghost a = str_views(args@);
    match arg_after(args, "--chat") {
        Some(p) => {
            return Mode::Chat(p);
        },
        None => {},
    }
    if position(args, "--agent").is_some() {
        let dashboard = position(args, "--dashboard").is_some();
        proof {
            assert(a.contains("--agent"@));
            if a.contains("--dashboard"@) {
                let j = choose|j: int| 0 <= j < a.len() && a[j] == "--dashboard"@;
                assert(exists|i: int| 0 <= i < a.len() && a[i] == "--dashboard"@);
            }
        }
        return Mode::Agent { dashboard };
    }
    proof {
        if a.contains("--agent"@) {
            let j = choose|j: int| 0 <= j < a.len() && a[j] == "--agent"@;
            assert(exists|i: int| 0 <= i < a.len() && a[i] == "--agent"@);
        }
    }
    match arg_after(args, "--orchestrate") {
        Some(t) => {
            return Mode::Orchestrate(t);
        },
        None => {},
    }
    if position(args, "--dashboard").is_some() {
        let port = match arg_after(args, "--dashboard") {
            Some(v) => match parse_u16(v.as_str()) {
                Some(p) => p,
                None => 3000,
            },
            None => 3000,
        };
        return Mode::Dashboard(port);
    }
    let p = match tcp_port {
        Some(t) => parse_u16(t),
        None => None,
    };
    Mode::Mcp(p)
}

/// Whether an input line of the interactive agent ends the session: it is
/// blank, `exit` or `quit` (after trimming).
pub fn is_exit_command(input: &str) -> (b: bool)
    ensures
        b == (trim_seq(input@).len() == 0 || trim_seq(input@) == "exit"@ || trim_seq(input@)
            == "quit"@),
{
    let c = chars_of(input);
    let t = trim(c.as_slice());
    let exit = chars_of("exit");
    let quit = chars_of("quit");
    t.len() == 0 || crate::text::seq_eq(t.as_slice(), exit.as_slice()) || crate::text::seq_eq(
        t.as_slice(),
        quit.as_slice(),
    )
}

} // verus!

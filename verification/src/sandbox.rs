//! Where commands run: in a locked-down Docker container when Docker is
//! available, else directly on the host.
//!
//! The library decides the program and arguments; the caller spawns the
//! process, applies the timeout and reports the result.

use vstd::prelude::*;
use crate::text::{chars_of, owned, push_str, push_u64, str_views, string_of, decimal};

verus! {

/// Resource limits and the container image.
#[derive(Debug, Clone)]
pub struct SandboxConfig {
    pub timeout_secs: u64,
    pub max_memory_mb: u64,
    pub image: String,
}

impl SandboxConfig {
    /// 60 s, 256 MB, `ubuntu:24.04`.
    pub fn default_config() -> (c: Self)
        ensures
            c.timeout_secs == 60,
            c.max_memory_mb == 256,
            c.image@ == "ubuntu:24.04"@,
    {
        SandboxConfig { timeout_secs: 60, max_memory_mb: 256, image: owned("ubuntu:24.04") }
    }
}

impl Default for SandboxConfig {
    fn default() -> (c: Self)
        ensures
            c.timeout_secs == 60,
            c.max_memory_mb == 256,
            c.image@ == "ubuntu:24.04"@,
    {
        Self::default_config()
    }
}

/// Docker with an image, or the host.
#[derive(Debug, Clone)]
pub enum SandboxMode {
    Docker(String),
    Direct,
}

/// What a finished command left behind.
#[derive(Debug, Clone)]
pub struct SandboxResult {
    pub stdout: String,
    pub stderr: String,
    pub exit_code: i32,
    pub duration_ms: u64,
}

/// A configured sandbox.
pub struct Sandbox {
    pub config: SandboxConfig,
    pub mode: SandboxMode,
}

/// `--memory=<mb>m`.
pub open spec fn memory_flag(mb: u64) -> Seq<char> {
    "--memory="@ + decimal(mb as nat) + "m"@
}

/// `--memory-swap=<mb>m`.
pub open spec fn memory_swap_flag(mb: u64) -> Seq<char> {
    "--memory-swap="@ + decimal(mb as nat) + "m"@
}

fn flag(prefix: &str, mb: u64) -> (r: String)
    ensures
        r@ == prefix@ + decimal(mb as nat) + "m"@,
{
    let mut v: Vec<char> = Vec::new();
    push_str(&mut v, prefix);
    push_u64(&mut v, mb);
    push_str(&mut v, "m");
    string_of(v.as_slice())
}

impl Sandbox {
    /// A sandbox that uses Docker with the configured image when Docker is
    /// available, else runs on the host.
    pub fn new(config: SandboxConfig, docker_available: bool) -> (s: Self)
        ensures
            docker_available ==> (s.mode matches SandboxMode::Docker(img) && img@ == config.image@),
            !docker_available ==> s.mode is Direct,
            s.config.timeout_secs == config.timeout_secs,
            s.config.max_memory_mb == config.max_memory_mb,
            s.config.image@ == config.image@,
    {
        let mode = if docker_available {
            SandboxMode::Docker(config.image.clone())
        } else {
            SandboxMode::Direct
        };
        Sandbox { config, mode }
    }

    /// A sandbox that always runs on the host.
    pub fn with_direct(config: SandboxConfig) -> (s: Self)
        ensures
            s.mode is Direct,
            s.config.timeout_secs == config.timeout_secs,
            s.config.max_memory_mb == config.max_memory_mb,
            s.config.image@ == config.image@,
    {
        Sandbox { config, mode: SandboxMode::Direct }
    }

    /// `"docker"` or `"direct"`.
    pub fn mode(&self) -> (r: &str)
        ensures
            r@ == if self.mode is Docker {
                "docker"@
            } else {
                "direct"@
            },
    {
        match &self.mode {
            SandboxMode::Docker(_) => "docker",
            SandboxMode::Direct => "direct",
        }
    }

    /// The program and arguments that run `command args...`: in a container
    /// with no network, read-only, at most 64 processes and the memory
    /// limit (swap included); or directly.
    pub fn command_line(&self, command: &str, args: &[String]) -> (r: (String, Vec<String>))
        ensures
            match &self.mode {
                SandboxMode::Docker(image) => r.0@ == "docker"@ && str_views(r.1@) == seq![
                    "run"@,
                    "--rm"@,
                    "-i"@,
                    memory_flag(self.config.max_memory_mb),
                    memory_swap_flag(self.config.max_memory_mb),
                    "--network"@,
                    "none"@,
                    "--pids-limit"@,
                    "64"@,
                    "--read-only"@,
                    image@,
                    command@,
                ] + str_views(args@),
                SandboxMode::Direct => r.0@ == command@ && str_views(r.1@) == str_views(args@),
            },
    {
        let mut out: Vec<String> = Vec::new();
        let prog;
        match &self.mode {
            SandboxMode::Docker(image) => {
                prog = owned("docker");
                out.push(owned("run"));
                out.push(owned("--rm"));
                out.push(owned("-i"));
                out.push(flag("--memory=", self.config.max_memory_mb));
                out.push(flag("--memory-swap=", self.config.max_memory_mb));
                out.push(owned("--network"));
                out.push(owned("none"));
                out.push(owned("--pids-limit"));
                out.push(owned("64"));
                out.push(owned("--read-only"));
                out.push(image.clone());
                out.push(owned(command));
            },
            SandboxMode::Direct => {
                prog = owned(command);
            },
        }
        let ghost h0 = out@;
        let ghost head = str_views(out@);
        let mut i: usize = 0;
        while i < args.len()
            invariant
                i <= args.len(),
                out@ == h0 + args@.take(i as int),
            decreases args.len() - i,
        {
            out.push(args[i].clone());
            i += 1;
            assert(out@ =~= h0 + args@.take(i as int));
        }
        assert(out@ =~= h0 + args@);
        assert(str_views(out@) =~= head + str_views(args@));
        assert(head + str_views(args@) =~= match &self.mode {
            SandboxMode::Docker(image) => seq![
                "run"@,
                "--rm"@,
                "-i"@,
                memory_flag(self.config.max_memory_mb),
                memory_swap_flag(self.config.max_memory_mb),
                "--network"@,
                "none"@,
                "--pids-limit"@,
                "64"@,
                "--read-only"@,
                image@,
                command@,
            ] + str_views(args@),
            SandboxMode::Direct => str_views(args@),
        });
        (prog, out)
    }

    /// The program and arguments that run a shell script with `bash -c`:
    /// in a container (no network, read-only, at most 64 processes, the
    /// memory limit) or directly.
    pub fn script_command_line(&self, script: &str) -> (r: (String, Vec<String>))
        ensures
            match &self.mode {
                SandboxMode::Docker(image) => r.0@ == "docker"@ && str_views(r.1@) == seq![
                    "run"@,
                    "--rm"@,
                    "-i"@,
                    memory_flag(self.config.max_memory_mb),
                    "--network"@,
                    "none"@,
                    "--pids-limit"@,
                    "64"@,
                    "--read-only"@,
                    image@,
                    "bash"@,
                    "-c"@,
                    script@,
                ],
                SandboxMode::Direct => r.0@ == "bash"@ && str_views(r.1@) == seq!["-c"@, script@],
            },
    {
        let mut out: Vec<String> = Vec::new();
        match &self.mode {
            SandboxMode::Docker(image) => {
                out.push(owned("run"));
                out.push(owned("--rm"));
                out.push(owned("-i"));
                out.push(flag("--memory=", self.config.max_memory_mb));
                out.push(owned("--network"));
                out.push(owned("none"));
                out.push(owned("--pids-limit"));
                out.push(owned("64"));
                out.push(owned("--read-only"));
                out.push(image.clone());
                out.push(owned("bash"));
                out.push(owned("-c"));
                out.push(owned(script));
                assert(str_views(out@) =~= seq![
                    "run"@,
                    "--rm"@,
                    "-i"@,
                    memory_flag(self.config.max_memory_mb),
                    "--network"@,
                    "none"@,
                    "--pids-limit"@,
                    "64"@,
                    "--read-only"@,
                    image@,
                    "bash"@,
                    "-c"@,
                    script@,
                ]);
                (owned("docker"), out)
            },
            SandboxMode::Direct => {
                out.push(owned("-c"));
                out.push(owned(script));
                assert(str_views(out@) =~= seq!["-c"@, script@]);
                (owned("bash"), out)
            },
        }
    }
}

/// The error for a command that did not finish within the timeout.
pub fn timeout_error(secs: u64) -> (r: String)
    ensures
        r@ == "Timeout sau "@ + decimal(secs as nat) + "s"@,
{
    let mut v: Vec<char> = Vec::new();
    push_str(&mut v, "Timeout sau ");
    push_u64(&mut v, secs);
    push_str(&mut v, "s");
    string_of(v.as_slice())
}

/// The error for a command that could not be run.
pub fn command_error(e: &str) -> (r: String)
    ensures
        r@ == "Command lỗi: "@ + e@,
{
    let mut v: Vec<char> = Vec::new();
    push_str(&mut v, "Command lỗi: ");
    push_str(&mut v, e);
    string_of(v.as_slice())
}

} // verus!

//! Multi-agent orchestration: plans of subtasks, worker results and their
//! aggregation.
//!
//! Calling the LLM and running workers concurrently is done by the caller;
//! the library decides what the results and messages are.

use vstd::prelude::*;
use crate::text::{
    join, join_vecs, views, push_all, chars_of, contains_string, decimal, ends_with, ends_with_seq, owned, push_str, push_u64,
    slice_vec, starts_with, starts_with_seq, str_views, string_of, trim, trim_seq,
};

verus! {

/// One subtask of a plan.
#[derive(Debug, Clone)]
pub struct SubTask {
    pub id: String,
    pub name: String,
    pub description: String,
    pub system_prompt: String,
    pub allowed_tools: Vec<String>,
}

/// What a worker produced for a subtask.
#[derive(Debug, Clone)]
pub struct SubTaskResult {
    pub id: String,
    pub output: String,
    pub error: Option<String>,
}

/// A task split into subtasks.
#[derive(Debug, Clone)]
pub struct OrchestrationPlan {
    pub sub_tasks: Vec<SubTask>,
    pub summary: String,
}

/// Limits of one worker.
#[derive(Debug, Clone, Copy)]
pub struct WorkerConfig {
    pub max_iterations: usize,
    pub timeout_secs: u64,
}

impl WorkerConfig {
    /// 8 iterations, 120 s.
    pub fn default_config() -> (c: Self)
        ensures
            c.max_iterations == 8,
            c.timeout_secs == 120,
    {
        WorkerConfig { max_iterations: 8, timeout_secs: 120 }
    }
}

impl Default for WorkerConfig {
    fn default() -> (c: Self)
        ensures
            c.max_iterations == 8,
            c.timeout_secs == 120,
    {
        Self::default_config()
    }
}

/// The outcome of a whole orchestration.
#[derive(Debug, Clone)]
pub struct AggregatedResult {
    pub task: String,
    pub total: usize,
    pub successes: usize,
    pub failures: usize,
    pub results: Vec<SubTaskResult>,
    pub synthesis: String,
}

impl AggregatedResult {
    /// No subtask failed.
    pub fn is_all_ok(&self) -> (b: bool)
        ensures
            b == (self.failures == 0),
    {
        self.failures == 0
    }
}

/// Number of results without an error.
pub open spec fn ok_count(rs: Seq<SubTaskResult>) -> nat
    decreases rs.len(),
{
    if rs.len() == 0 {
        0
    } else {
        ok_count(rs.drop_last()) + if rs.last().error is None {
            1nat
        } else {
            0nat
        }
    }
}

/// Number of results with an error.
pub open spec fn failed_count(rs: Seq<SubTaskResult>) -> nat
    decreases rs.len(),
{
    if rs.len() == 0 {
        0
    } else {
        failed_count(rs.drop_last()) + if rs.last().error is Some {
            1nat
        } else {
            0nat
        }
    }
}

/// Counts the results: a result with an error is a failure, any other a
/// success.
pub fn aggregate(task: &str, results: Vec<SubTaskResult>, synthesis: String) -> (a:
    AggregatedResult)
    ensures
        a.task@ == task@,
        a.total == results@.len(),
        a.successes == ok_count(results@),
        a.failures == failed_count(results@),
        a.results@ == results@,
        a.synthesis@ == synthesis@,
{
    let mut ok: usize = 0;
    let mut bad: usize = 0;
    let mut i: usize = 0;
    while i < results.len()
        invariant
            i <= results.len(),
            ok == ok_count(results@.take(i as int)),
            bad == failed_count(results@.take(i as int)),
            ok + bad == i,
        decreases results.len() - i,
    {
        proof {
            let t = results@.take(i + 1);
            assert(t.drop_last() =~= results@.take(i as int));
            assert(t.last() == results@[i as int]);
        }
        match &results[i].error {
            Some(_) => {
                bad += 1;
            },
            None => {
                ok += 1;
            },
        }
        i += 1;
    }
    assert(results@.take(results.len() as int) =~= results@);
    AggregatedResult {
        task: owned(task),
        total: results.len(),
        successes: ok,
        failures: bad,
        results,
        synthesis,
    }
}

/// Every result is a success or a failure, and the orchestration is all
/// right exactly when no result carries an error.
pub proof fn lemma_counts(rs: Seq<SubTaskResult>)
    ensures
        ok_count(rs) + failed_count(rs) == rs.len(),
        (failed_count(rs) == 0) == (forall|i: int| 0 <= i < rs.len() ==> (#[trigger] rs[i]).error is None),
    decreases rs.len(),
{
    if rs.len() > 0 {
        let t = rs.drop_last();
        lemma_counts(t);
        if failed_count(rs) == 0 {
            assert forall|i: int| 0 <= i < rs.len() implies (#[trigger] rs[i]).error is None by {
                if i < t.len() {
                    assert(rs[i] == t[i]);
                }
            }
        }
        if forall|i: int| 0 <= i < rs.len() ==> (#[trigger] rs[i]).error is None {
            assert forall|i: int| 0 <= i < t.len() implies (#[trigger] t[i]).error is None by {
                assert(rs[i] == t[i]);
            }
            assert(rs[rs.len() - 1].error is None);
        }
    }
}

/// How a worker's run ended.
pub enum WorkerOutcome {
    Finished(String),
    Failed(String),
    TimedOut,
}

/// The message of a worker that ran out of time.
pub open spec fn timeout_msg(name: Seq<char>, secs: u64) -> Seq<char> {
    "Worker '"@ + name + "' timed out after "@ + decimal(secs as nat) + "s"@
}

impl SubTaskResult {
    /// The result a worker named `name` reports for an outcome: the output
    /// when it finished, else an empty output with the error.
    pub fn from_outcome(name: &str, timeout_secs: u64, outcome: WorkerOutcome) -> (r: Self)
        ensures
            r.id@ == name@,
            match outcome {
                WorkerOutcome::Finished(out) => r.output@ == out@ && r.error is None,
                WorkerOutcome::Failed(e) => r.output@.len() == 0 && (r.error matches Some(x)
                    && x@ == e@),
                WorkerOutcome::TimedOut => r.output@.len() == 0 && (r.error matches Some(x)
                    && x@ == timeout_msg(name@, timeout_secs)),
            },
    {
        match outcome {
            WorkerOutcome::Finished(out) => SubTaskResult { id: owned(name), output: out, error: None },
            WorkerOutcome::Failed(e) => SubTaskResult {
                id: owned(name),
                output: String::new(),
                error: Some(e),
            },
            WorkerOutcome::TimedOut => {
                let mut m: Vec<char> = Vec::new();
                push_str(&mut m, "Worker '");
                push_str(&mut m, name);
                push_str(&mut m, "' timed out after ");
                push_u64(&mut m, timeout_secs);
                push_str(&mut m, "s");
                SubTaskResult {
                    id: owned(name),
                    output: String::new(),
                    error: Some(string_of(m.as_slice())),
                }
            },
        }
    }

    /// The result recorded for a worker whose task panicked.
    pub fn panicked(detail: &str) -> (r: Self)
        ensures
            r.id@ == "unknown"@,
            r.output@.len() == 0,
            r.error matches Some(x) && x@ == "Worker panicked: "@ + detail@,
    {
        let mut m: Vec<char> = Vec::new();
        push_str(&mut m, "Worker panicked: ");
        push_str(&mut m, detail);
        SubTaskResult { id: owned("unknown"), output: String::new(), error: Some(string_of(m.as_slice())) }
    }
}

/// The summary of a plan with `n` subtasks.
pub fn plan_summary(n: usize) -> (r: String)
    ensures
        r@ == "Đã phân tích task thành "@ + decimal(n as nat) + " subtask"@,
{
    let mut m: Vec<char> = Vec::new();
    push_str(&mut m, "Đã phân tích task thành ");
    push_u64(&mut m, n as u64);
    push_str(&mut m, " subtask");
    string_of(m.as_slice())
}

/// Whether a worker limited to `allowed` may use the tool `name` (an empty
/// list allows every tool).
pub fn tool_allowed(name: &String, allowed: &Vec<String>) -> (b: bool)
    ensures
        b == (allowed@.len() == 0 || str_views(allowed@).contains(name@)),
{
    allowed.len() == 0 || contains_string(allowed, name)
}

// ---------------------------------------------------------------------------
// Markdown fences around an LLM's JSON answer
// ---------------------------------------------------------------------------

/// Inputs on which fence stripping would slice backwards (a fence pair that
/// overlaps itself).
pub open spec fn fences_overlap(content: Seq<char>) -> bool {
    let t = trim_seq(content);
    ||| (starts_with_seq(t, "```json"@) && ends_with_seq(t, "```"@) && t.len() < 10)
    ||| (!(starts_with_seq(t, "```json"@) && ends_with_seq(t, "```"@)) && starts_with_seq(t, "```"@)
        && ends_with_seq(t, "```"@) && t.len() < 6)
}

/// The trimmed content, without a surrounding ```` ```json ```` / ```` ``` ````
/// fence (the inside trimmed again).
pub open spec fn strip_fences_spec(content: Seq<char>) -> Seq<char> {
    let t = trim_seq(content);
    if starts_with_seq(t, "```json"@) && ends_with_seq(t, "```"@) {
        trim_seq(t.subrange(7, t.len() - 3))
    } else if starts_with_seq(t, "```"@) && ends_with_seq(t, "```"@) {
        trim_seq(t.subrange(3, t.len() - 3))
    } else {
        t
    }
}

/// Removes a Markdown code fence around an answer.
pub fn strip_markdown_fences(content: &str) -> (r: String)
    requires
        !fences_overlap(content@),
    ensures
        r@ == strip_fences_spec(content@),
{
    proof {
        reveal_strlit("```json");
        reveal_strlit("```");
    }
    let c = chars_of(content);
    let t = trim(c.as_slice());
    let json_open = chars_of("```json");
    let fence = chars_of("```");
    if starts_with(t.as_slice(), json_open.as_slice()) && ends_with(t.as_slice(), fence.as_slice()) {
        let inner = slice_vec(t.as_slice(), 7, t.len() - 3);
        string_of(trim(inner.as_slice()).as_slice())
    } else if starts_with(t.as_slice(), fence.as_slice()) && ends_with(t.as_slice(), fence.as_slice()) {
        let inner = slice_vec(t.as_slice(), 3, t.len() - 3);
        string_of(trim(inner.as_slice()).as_slice())
    } else {
        string_of(t.as_slice())
    }
}

// ---------------------------------------------------------------------------
// Prompts
// ---------------------------------------------------------------------------

/// The request that asks the model to split a task into subtasks.
pub open spec fn plan_prompt_text(task: Seq<char>, tools: Seq<Seq<char>>) -> Seq<char> {
    "Bạn là chuyên gia phân tích task. Hãy chia task sau thành các subtask nhỏ hơn, có thể chạy song song.\nTask: "@
        + task + "\n\nCác tools có sẵn: "@ + join(tools, ", "@)
        + "\n\nTrả về JSON array, mỗi phần tử có: id, name, description, system_prompt, allowed_tools (mảng tên tools).\nYêu cầu:\n- Mỗi subtask có thể chạy độc lập\n- System prompt ngắn gọn, mô tả rõ vai trò\n- Allowed_tools là subset của tools có sẵn\n- Tối đa 5 subtask\n- Trả về hợp lệ JSON (không markdown)"@
}

/// The request that asks the model to split a task into subtasks, naming
/// the tools the workers may use.
pub fn plan_prompt(task: &str, tools: &Vec<String>) -> (s: String)
    ensures
        s@ == plan_prompt_text(task@, str_views(tools@)),
{
    let parts = crate::browser::strings_to_vecs(tools);
    let sep = chars_of(", ");
    let listed = join_vecs(&parts, sep.as_slice());
    let mut m: Vec<char> = Vec::new();
    push_str(&mut m, "Bạn là chuyên gia phân tích task. Hãy chia task sau thành các subtask nhỏ hơn, có thể chạy song song.\nTask: ");
    push_str(&mut m, task);
    push_str(&mut m, "\n\nCác tools có sẵn: ");
    push_all(&mut m, listed.as_slice());
    push_str(&mut m, "\n\nTrả về JSON array, mỗi phần tử có: id, name, description, system_prompt, allowed_tools (mảng tên tools).\nYêu cầu:\n- Mỗi subtask có thể chạy độc lập\n- System prompt ngắn gọn, mô tả rõ vai trò\n- Allowed_tools là subset của tools có sẵn\n- Tối đa 5 subtask\n- Trả về hợp lệ JSON (không markdown)");
    string_of(m.as_slice())
}

/// How one result is shown to the model that sums up: its status, its
/// subtask, and its output.
pub open spec fn result_part(r: SubTaskResult) -> Seq<char> {
    "["@ + (if r.error is Some {
        "❌ LỖI"@
    } else {
        "✅ OK"@
    }) + "] "@ + r.id@ + ":\n"@ + r.output@
}

pub open spec fn result_parts(rs: Seq<SubTaskResult>) -> Seq<Seq<char>> {
    rs.map_values(|r: SubTaskResult| result_part(r))
}

/// The request that asks the model to sum up the workers' results.
pub open spec fn synthesis_prompt_text(task: Seq<char>, rs: Seq<SubTaskResult>) -> Seq<char> {
    "Task gốc: "@ + task + "\n\nKết quả từ các subtask:\n"@ + join(result_parts(rs), "\n---\n"@)
        + "\n\nHãy tổng hợp kết quả cuối cùng thành câu trả lời mạch lạc, hữu ích cho người dùng."@
}

/// The request that asks the model to sum up the workers' results.
pub fn synthesis_prompt(task: &str, results: &Vec<SubTaskResult>) -> (s: String)
    ensures
        s@ == synthesis_prompt_text(task@, results@),
{
    let mut parts: Vec<Vec<char>> = Vec::new();
    let mut i: usize = 0;
    while i < results.len()
        invariant
            i <= results.len(),
            views(parts@) == result_parts(results@).take(i as int),
        decreases results.len() - i,
    {
        let r = &results[i];
        let mut p: Vec<char> = Vec::new();
        push_str(&mut p, "[");
        if r.error.is_some() {
            push_str(&mut p, "❌ LỖI");
        } else {
            push_str(&mut p, "✅ OK");
        }
        push_str(&mut p, "] ");
        push_str(&mut p, r.id.as_str());
        push_str(&mut p, ":\n");
        push_str(&mut p, r.output.as_str());
        proof {
            crate::text::lemma_views_push(parts@, p);
            assert(result_parts(results@).take(i + 1) =~= result_parts(results@).take(i as int).push(result_part(results@[i as int])));
        }
        parts.push(p);
        i += 1;
    }
    assert(result_parts(results@).take(results.len() as int) =~= result_parts(results@));
    let sep = chars_of("\n---\n");
    let joined = join_vecs(&parts, sep.as_slice());
    let mut m: Vec<char> = Vec::new();
    push_str(&mut m, "Task gốc: ");
    push_str(&mut m, task);
    push_str(&mut m, "\n\nKết quả từ các subtask:\n");
    push_all(&mut m, joined.as_slice());
    push_str(&mut m, "\n\nHãy tổng hợp kết quả cuối cùng thành câu trả lời mạch lạc, hữu ích cho người dùng.");
    string_of(m.as_slice())
}

} // verus!

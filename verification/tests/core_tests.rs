use agents_rust::memory::{MemoryStore, MemoryQuery, MemoryItem};
use agents_rust::router::{
    LlmRouter, LlmRouterConfig, ModelConfig, CircuitBreakerConfig, CircuitBreaker, build_chain,
    default_circuit_breaker_config, FallbackPlan,
};
use agents_rust::sandbox::{Sandbox, SandboxConfig, SandboxMode, timeout_error, command_error};
use agents_rust::skills::{Skill, SkillFrontmatter, SkillRegistry, split_frontmatter, default_version};
use agents_rust::orchestrator::{
    aggregate, SubTaskResult, WorkerOutcome, WorkerConfig, plan_summary, tool_allowed,
    strip_markdown_fences, plan_prompt, synthesis_prompt,
};

fn item(id: &str, content: &str, tags: &[&str], ts: u64) -> MemoryItem {
    MemoryItem {
        id: id.into(),
        content: content.into(),
        tags: tags.iter().map(|t| t.to_string()).collect(),
        timestamp: ts,
        metadata: vec![],
    }
}

fn store() -> MemoryStore {
    let mut s = MemoryStore::with_path("/tmp/mem.json").unwrap();
    s.load_items(vec![
        item("1", "Rust ownership rules", &["rust"], 10),
        item("2", "Cooking pasta", &["food"], 30),
        item("3", "rust borrow checker and Rust lifetimes", &["rust", "notes"], 20),
    ]);
    s
}

#[test]
fn memory_search_ranks_by_score() {
    let s = store();
    let r = s.search(&MemoryQuery::new("RUST checker"));
    let ids: Vec<&str> = r.iter().map(|i| i.id.as_str()).collect();
    assert_eq!(ids, vec!["3", "1"]);
    let tagged = s.search(&MemoryQuery::new("pasta").with_tags(vec!["rust".into()]));
    let ids: Vec<&str> = tagged.iter().map(|i| i.id.as_str()).collect();
    assert_eq!(ids, vec!["1", "3", "2"]);
    let limited = s.search(&MemoryQuery::new("rust").with_limit(1));
    assert_eq!(limited.len(), 1);
    assert_eq!(limited[0].id, "1");
    assert!(s.search(&MemoryQuery::new("zebra")).is_empty());
}

#[test]
fn memory_query_words() {
    let q = MemoryQuery::new("  Hello  WORLD ");
    assert_eq!(q.keywords, vec!["hello".to_string(), "world".to_string()]);
    assert_eq!(q.limit, 10);
    assert!(q.tags.is_empty());
}

#[test]
fn memory_recent_and_lookup() {
    let mut s = store();
    let recent: Vec<String> = s.get_recent(2).into_iter().map(|i| i.id).collect();
    assert_eq!(recent, vec!["2".to_string(), "3".to_string()]);
    assert_eq!(s.get_by_id("3").map(|i| i.content), Some("rust borrow checker and Rust lifetimes".to_string()));
    assert!(s.get_by_id("9").is_none());
    assert_eq!(s.count(), 3);
    assert!(s.remove("2"));
    assert!(!s.remove("2"));
    assert_eq!(s.count(), 2);
    let id = s.add("new note", &["t".to_string()]);
    assert_eq!(id.len(), 36);
    let c: Vec<char> = id.chars().collect();
    assert_eq!((c[8], c[13], c[18], c[23], c[14]), ('-', '-', '-', '-', '4'));
    assert!(matches!(c[19], '8' | '9' | 'a' | 'b'));
    assert!(c.iter().all(|ch| *ch == '-' || ch.is_ascii_digit() || ('a'..='f').contains(ch)));
    assert_eq!(s.get_by_id(&id).unwrap().content, "new note");
    assert_eq!(s.get_all().len(), 3);
    s.clear();
    assert_eq!(s.count(), 0);
    assert_eq!(s.storage_path(), "/tmp/mem.json");
}

fn model(name: &str, fb: &[&str], rl: &[&str]) -> ModelConfig {
    ModelConfig {
        name: name.into(),
        provider: "p".into(),
        base_url: None,
        api_key: None,
        fallbacks: Some(fb.iter().map(|s| s.to_string()).collect()),
        rate_limit_fallbacks: Some(rl.iter().map(|s| s.to_string()).collect()),
        context_window_fallbacks: None,
    }
}

#[test]
fn fallback_chains_have_no_repeats() {
    let m = model("a", &["b", "a", "c"], &["c", "d"]);
    assert_eq!(build_chain(&m), vec!["a", "b", "c", "d"]);
}

#[test]
fn circuit_breaker_opens_after_threshold() {
    let cfg = CircuitBreakerConfig { failure_threshold: 2, recovery_timeout_secs: 30, min_requests: 1 };
    let mut b = CircuitBreaker::new(&cfg);
    assert!(b.is_allowed());
    b.record_failure();
    assert!(b.is_allowed());
    b.record_failure();
    assert!(!b.is_allowed());
    assert!(b.recovered(30_000_000_000));
    assert!(!b.recovered(29_999_999_999));
    b.record_success();
    assert!(b.is_allowed());
    assert_eq!(b.failures, 0);
    let d = default_circuit_breaker_config();
    assert_eq!((d.failure_threshold, d.recovery_timeout_secs, d.min_requests), (3, 30, 1));
}

#[test]
fn router_falls_back_and_reports() {
    let cfg = LlmRouterConfig {
        circuit_breaker: Some(CircuitBreakerConfig { failure_threshold: 1, recovery_timeout_secs: 3600, min_requests: 1 }),
        models: vec![model("a", &["b"], &[]), model("b", &[], &[])],
    };
    let mut r = LlmRouter::from_config(cfg);
    assert_eq!(r.list_models().len(), 2);
    let mut run = match r.start_fallback(None, "a") {
        FallbackPlan::Chain(run) => run,
        FallbackPlan::Direct(_) => panic!("chain expected"),
    };
    assert_eq!(r.next_attempt(&mut run), Some("a".to_string()));
    r.attempt_failed(&mut run, "e1");
    assert_eq!(r.next_attempt(&mut run), Some("b".to_string()));
    r.attempt_failed(&mut run, "e2");
    assert_eq!(r.next_attempt(&mut run), None);
    assert_eq!(run.exhausted_error(), "Tất cả models đều lỗi: primary: e1 | b: e2");
    let mut again = match r.start_fallback(Some("a"), "x") {
        FallbackPlan::Chain(run) => run,
        _ => panic!(),
    };
    assert_eq!(r.next_attempt(&mut again), None);
    assert_eq!(again.errors, vec!["a: circuit breaker đang mở".to_string(), "b: circuit breaker đang mở".to_string()]);
    assert!(matches!(r.start_fallback(Some("zz"), "a"), FallbackPlan::Direct(ref n) if n == "zz"));
}

#[test]
fn router_endpoints() {
    let mut m = model("a", &[], &[]);
    m.base_url = Some("https://own/".into());
    let r = LlmRouter::from_config(LlmRouterConfig { circuit_breaker: None, models: vec![m, model("b", &[], &[])] });
    assert_eq!(r.endpoint("a", "https://def/v1", "k"), ("https://own/chat/completions".to_string(), "k".to_string()));
    assert_eq!(r.endpoint("b", "https://def/v1", "k"), ("https://def/v1/chat/completions".to_string(), "k".to_string()));
    assert!(r.get_model_config("b").is_some());
    assert!(r.get_model_config("c").is_none());
}

#[test]
fn sandbox_command_lines() {
    let cfg = SandboxConfig::default();
    assert_eq!((cfg.timeout_secs, cfg.max_memory_mb, cfg.image.as_str()), (60, 256, "ubuntu:24.04"));
    let s = Sandbox::new(SandboxConfig::default(), true);
    assert_eq!(s.mode(), "docker");
    let (prog, args) = s.command_line("ls", &["-l".to_string()]);
    assert_eq!(prog, "docker");
    assert_eq!(
        args,
        vec!["run", "--rm", "-i", "--memory=256m", "--memory-swap=256m", "--network", "none", "--pids-limit", "64", "--read-only", "ubuntu:24.04", "ls", "-l"]
    );
    let d = Sandbox::with_direct(SandboxConfig::default());
    assert_eq!(d.mode(), "direct");
    assert!(matches!(d.mode, SandboxMode::Direct));
    assert_eq!(d.script_command_line("echo hi"), ("bash".to_string(), vec!["-c".to_string(), "echo hi".to_string()]));
    assert_eq!(Sandbox::new(SandboxConfig::default(), false).mode(), "direct");
    assert_eq!(timeout_error(5), "Timeout sau 5s");
    assert_eq!(command_error("x"), "Command lỗi: x");
}

fn skill(name: &str, tools: &[&str]) -> Skill {
    Skill::from_parts(
        SkillFrontmatter { name: name.into(), description: "d".into(), version: default_version(), tools: tools.iter().map(|s| s.to_string()).collect() },
        "body".into(),
        format!("/s/{}.md", name),
    )
}

#[test]
fn skill_files_split() {
    assert_eq!(
        split_frontmatter("---\nname: x\n---\n\nDo it.\n"),
        Ok(("\nname: x".to_string(), "Do it.".to_string()))
    );
    assert_eq!(split_frontmatter("no fm"), Err("Thiếu YAML frontmatter (---)".to_string()));
    assert_eq!(split_frontmatter("---\nname: x"), Err("Thiếu tag đóng ---".to_string()));
    assert_eq!(default_version(), "1.0.0");
}

#[test]
fn skill_registry_lookups() {
    let mut r = SkillRegistry::new();
    r.register(skill("a", &["read_file"]));
    r.register(skill("b", &["write_file", "read_file"]));
    r.register(skill("a", &["start_process"]));
    assert_eq!(r.count(), 2);
    assert_eq!(r.get("a").unwrap().tools, vec!["start_process".to_string()]);
    assert!(r.get("z").is_none());
    let names: Vec<&str> = r.find_by_tool("read_file").iter().map(|s| s.name.as_str()).collect();
    assert_eq!(names, vec!["b"]);
    assert_eq!(r.list().len(), 2);
}

fn result(id: &str, err: Option<&str>) -> SubTaskResult {
    SubTaskResult { id: id.into(), output: "o".into(), error: err.map(|e| e.to_string()) }
}

#[test]
fn aggregation_counts() {
    let a = aggregate("t", vec![result("a", None), result("b", Some("x")), result("c", None)], "syn".into());
    assert_eq!((a.total, a.successes, a.failures), (3, 2, 1));
    assert!(!a.is_all_ok());
    let ok = aggregate("t", vec![result("a", None)], String::new());
    assert!(ok.is_all_ok());
}

#[test]
fn worker_outcomes() {
    let t = SubTaskResult::from_outcome("w", 9, WorkerOutcome::TimedOut);
    assert_eq!(t.error, Some("Worker 'w' timed out after 9s".to_string()));
    let f = SubTaskResult::from_outcome("w", 9, WorkerOutcome::Failed("bad".into()));
    assert_eq!((f.output.as_str(), f.error.as_deref()), ("", Some("bad")));
    let d = SubTaskResult::from_outcome("w", 9, WorkerOutcome::Finished("out".into()));
    assert_eq!((d.id.as_str(), d.output.as_str(), d.error), ("w", "out", None));
    let p = SubTaskResult::panicked("join");
    assert_eq!(p.id, "unknown");
    assert_eq!(p.error, Some("Worker panicked: join".to_string()));
    let c = WorkerConfig::default();
    assert!(c.max_iterations > 0);
}

#[test]
fn plans_and_prompts() {
    assert_eq!(plan_summary(3), "Đã phân tích task thành 3 subtask");
    assert!(tool_allowed(&"x".to_string(), &vec![]));
    assert!(tool_allowed(&"x".to_string(), &vec!["x".to_string()]));
    assert!(!tool_allowed(&"y".to_string(), &vec!["x".to_string()]));
    assert_eq!(strip_markdown_fences("```json\n[1]\n```"), "[1]");
    assert_eq!(strip_markdown_fences("  ```\n{}\n``` "), "{}");
    assert_eq!(strip_markdown_fences(" [2] "), "[2]");
    let p = plan_prompt("do it", &vec!["a".to_string(), "b".to_string()]);
    assert!(p.contains("Task: do it\n\nCác tools có sẵn: a, b\n"));
    let s = synthesis_prompt("t", &vec![result("a", None), result("b", Some("e"))]);
    assert_eq!(s, "Task gốc: t\n\nKết quả từ các subtask:\n[✅ OK] a:\no\n---\n[❌ LỖI] b:\no\n\nHãy tổng hợp kết quả cuối cùng thành câu trả lời mạch lạc, hữu ích cho người dùng.");
}

#[test]
fn success_closes_the_breaker_of_the_model_used() {
    let cfg = LlmRouterConfig {
        circuit_breaker: Some(CircuitBreakerConfig { failure_threshold: 2, recovery_timeout_secs: 3600, min_requests: 1 }),
        models: vec![model("a", &["b"], &[]), model("b", &[], &[])],
    };
    let mut r = LlmRouter::from_config(cfg);
    let mut run = match r.start_fallback(None, "a") {
        FallbackPlan::Chain(run) => run,
        FallbackPlan::Direct(_) => panic!("chain expected"),
    };
    assert_eq!(r.next_attempt(&mut run), Some("a".to_string()));
    r.attempt_failed(&mut run, "e1");
    assert_eq!(r.next_attempt(&mut run), Some("b".to_string()));
    r.attempt_succeeded(&run);
    assert!(r.circuit_allows(&"a".to_string()));
    assert!(r.circuit_allows(&"b".to_string()));
    let mut again = match r.start_fallback(None, "a") {
        FallbackPlan::Chain(run) => run,
        FallbackPlan::Direct(_) => panic!("chain expected"),
    };
    assert_eq!(r.next_attempt(&mut again), Some("a".to_string()));
    r.attempt_failed(&mut again, "e2");
    assert!(!r.circuit_allows(&"a".to_string()));
}

#[test]
fn breaker_without_recovery_time_lets_requests_through_when_open() {
    let cfg = CircuitBreakerConfig { failure_threshold: 1, recovery_timeout_secs: 0, min_requests: 1 };
    let mut b = CircuitBreaker::new(&cfg);
    b.record_failure();
    assert!(b.is_allowed());
}

#[test]
fn memory_recent_ties_keep_store_order() {
    let mut s = MemoryStore::with_path("/tmp/mem2.json").unwrap();
    s.load_items(vec![
        item("a", "x", &[], 5),
        item("b", "x", &[], 9),
        item("c", "x", &[], 5),
        item("d", "x", &[], 1),
        item("e", "x", &[], 5),
    ]);
    let ids: Vec<String> = s.get_recent(3).into_iter().map(|i| i.id).collect();
    assert_eq!(ids, vec!["b".to_string(), "a".to_string(), "c".to_string()]);
    let all: Vec<String> = s.get_recent(10).into_iter().map(|i| i.id).collect();
    assert_eq!(all, vec!["b", "a", "c", "e", "d"]);
    assert!(s.get_recent(0).is_empty());
}

#[test]
fn memory_search_score_bound() {
    let s = store();
    assert!(s.search_fits(&MemoryQuery::new("rust checker pasta")));
    assert!(s.search_fits(&MemoryQuery::new("zebra").with_tags(vec!["rust".into(), "food".into()])));
    let empty = MemoryStore::with_path("/tmp/mem3.json").unwrap();
    assert!(empty.search_fits(&MemoryQuery::new("anything")));
}

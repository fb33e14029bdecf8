//! Model routing: per-model circuit breakers, fallback chains, endpoint
//! selection, and the decisions of a fallback run.
//!
//! The HTTP requests themselves are made by the caller: it asks the router
//! which model to try next, sends the request, and reports the outcome.

use vstd::prelude::*;
use crate::text::{
    chars_of, contains_string, join, owned, push_all, push_str, str_views, string_of, views,
};

verus! {

// ---------------------------------------------------------------------------
// Configuration
// ---------------------------------------------------------------------------

/// The router's configuration file: an optional breaker setting and the
/// models.
#[derive(Debug, Clone)]
pub struct LlmRouterConfig {
    pub circuit_breaker: Option<CircuitBreakerConfig>,
    pub models: Vec<ModelConfig>,
}

/// When a model's circuit opens and how long it stays open.
#[derive(Debug, Clone, Copy)]
pub struct CircuitBreakerConfig {
    pub failure_threshold: u32,
    pub recovery_timeout_secs: u64,
    pub min_requests: u32,
}

/// One model: its endpoint overrides and its fallbacks.
#[derive(Debug, Clone)]
pub struct ModelConfig {
    pub name: String,
    pub provider: String,
    pub base_url: Option<String>,
    pub api_key: Option<String>,
    pub fallbacks: Option<Vec<String>>,
    pub rate_limit_fallbacks: Option<Vec<String>>,
    pub context_window_fallbacks: Option<Vec<String>>,
}

/// The breaker setting used when the configuration names none.
pub fn default_circuit_breaker_config() -> (c: CircuitBreakerConfig)
    ensures
        c.failure_threshold == 3,
        c.recovery_timeout_secs == 30,
        c.min_requests == 1,
{
    CircuitBreakerConfig { failure_threshold: 3, recovery_timeout_secs: 30, min_requests: 1 }
}

// ---------------------------------------------------------------------------
// Circuit breaker
// ---------------------------------------------------------------------------

#[verifier::external_type_specification]
#[verifier::external_body]
pub struct ExInstant(std::time::Instant);

/// Wraps std's `Instant::now`. The instant depends on the clock, so
/// nothing is claimed of it.
#[verifier::external_body]
fn instant_now() -> std::time::Instant {
    std::time::Instant::now()
}

/// Wraps std's `Instant::elapsed`, in nanoseconds. The value depends on
/// the clock, so nothing is claimed of it.
#[verifier::external_body]
fn elapsed_nanos(t: &std::time::Instant) -> u128 {
    t.elapsed().as_nanos()
}

/// A breaker is closed (requests pass) or open since an instant.
pub enum CircuitState {
    Closed,
    Open(std::time::Instant),
}

/// Counts failures of one model and opens when they reach the threshold.
pub struct CircuitBreaker {
    pub state: CircuitState,
    pub failures: u32,
    pub threshold: u32,
    pub recovery_timeout_secs: u64,
}

impl CircuitBreaker {
    pub open spec fn is_open(&self) -> bool {
        self.state is Open
    }

    /// A closed breaker with no failures.
    pub fn new(config: &CircuitBreakerConfig) -> (b: Self)
        ensures
            !b.is_open(),
            b.failures == 0,
            b.threshold == config.failure_threshold,
            b.recovery_timeout_secs == config.recovery_timeout_secs,
    {
        CircuitBreaker {
            state: CircuitState::Closed,
            failures: 0,
            threshold: config.failure_threshold,
            recovery_timeout_secs: config.recovery_timeout_secs,
        }
    }

    /// Whether an open breaker has been open for the whole recovery timeout,
    /// given how long ago (in nanoseconds) it opened.
    pub fn recovered(&self, elapsed_nanos: u128) -> (b: bool)
        ensures
            b == (elapsed_nanos >= self.recovery_timeout_secs * 1_000_000_000),
    {
        let limit: u128 = (self.recovery_timeout_secs as u128) * 1_000_000_000u128;
        elapsed_nanos >= limit
    }

    /// Whether a request may go through: always when closed; when open,
    /// only once the recovery timeout has passed (which depends on the
    /// clock, so an open breaker with no timeout is the only open one whose
    /// answer is known).
    pub fn is_allowed(&self) -> (b: bool)
        ensures
            !self.is_open() ==> b,
            self.recovery_timeout_secs == 0 ==> b,
    {
        match &self.state {
            CircuitState::Closed => true,
            CircuitState::Open(opened_at) => {
                let e = elapsed_nanos(opened_at);
                self.recovered(e)
            },
        }
    }

    /// A success closes the breaker and forgets the failures.
    pub fn record_success(&mut self)
        ensures
            !final(self).is_open(),
            final(self).failures == 0,
            final(self).threshold == old(self).threshold,
            final(self).recovery_timeout_secs == old(self).recovery_timeout_secs,
    {
        self.failures = 0;
        self.state = CircuitState::Closed;
    }

    /// A failure is counted (wrapping, as an atomic add does); a closed
    /// breaker opens once the count reaches the threshold. An open breaker
    /// stays open.
    pub fn record_failure(&mut self)
        ensures
            final(self).failures == fail_count(old(self).failures),
            final(self).is_open() == (old(self).is_open() || fail_count(old(self).failures)
                >= old(self).threshold),
            final(self).threshold == old(self).threshold,
            final(self).recovery_timeout_secs == old(self).recovery_timeout_secs,
    {
        let fails = self.failures.wrapping_add(1);
        self.failures = fails;
        if fails >= self.threshold && !self.is_open_now() {
            self.state = CircuitState::Open(instant_now());
        }
    }

    fn is_open_now(&self) -> (b: bool)
        ensures
            b == self.is_open(),
    {
        match &self.state {
            CircuitState::Closed => false,
            CircuitState::Open(_) => true,
        }
    }
}

/// The failure count after one more failure (wrapping at `u32::MAX`).
pub open spec fn fail_count(f: u32) -> u32 {
    if f == u32::MAX {
        0
    } else {
        (f + 1) as u32
    }
}

/// The breaker's `(open, failures)` after `n` more failures.
pub open spec fn after_failures(open: bool, failures: u32, threshold: u32, n: nat) -> (bool, u32)
    decreases n,
{
    if n == 0 {
        (open, failures)
    } else {
        let (o, f) = after_failures(open, failures, threshold, (n - 1) as nat);
        (o || fail_count(f) >= threshold, fail_count(f))
    }
}

/// A fresh breaker opens after exactly `max(threshold, 1)` consecutive
/// failures, and then stays open.
pub proof fn lemma_breaker_opens(threshold: u32, n: nat)
    requires
        n <= u32::MAX,
    ensures
        after_failures(false, 0, threshold, n).1 == n,
        after_failures(false, 0, threshold, n).0 == (n >= 1 && n >= threshold),
    decreases n,
{
    if n > 0 {
        lemma_breaker_opens(threshold, (n - 1) as nat);
    }
}

/// Failures never close a breaker.
pub proof fn lemma_failures_keep_open(failures: u32, threshold: u32, n: nat)
    ensures
        after_failures(true, failures, threshold, n).0,
    decreases n,
{
    if n > 0 {
        lemma_failures_keep_open(failures, threshold, (n - 1) as nat);
    }
}


// ---------------------------------------------------------------------------
// Fallback chains
// ---------------------------------------------------------------------------

/// The names in an optional list (none when absent).
pub open spec fn opt_names(o: Option<Vec<String>>) -> Seq<Seq<char>> {
    match o {
        Some(v) => str_views(v@),
        None => seq![],
    }
}

/// `chain` followed by each name of `xs` that is not yet in it, in order.
pub open spec fn add_unique(chain: Seq<Seq<char>>, xs: Seq<Seq<char>>) -> Seq<Seq<char>>
    decreases xs.len(),
{
    if xs.len() == 0 {
        chain
    } else {
        let c = add_unique(chain, xs.drop_last());
        if c.contains(xs.last()) {
            c
        } else {
            c.push(xs.last())
        }
    }
}

/// The models a request for `m` may go to, in the order they are tried:
/// `m` itself, then its fallbacks, rate-limit fallbacks and
/// context-window fallbacks, each name once.
pub open spec fn chain_of(m: ModelConfig) -> Seq<Seq<char>> {
    add_unique(
        add_unique(add_unique(seq![m.name@], opt_names(m.fallbacks)), opt_names(m.rate_limit_fallbacks)),
        opt_names(m.context_window_fallbacks),
    )
}

fn append_unique(chain: &mut Vec<String>, xs: &Option<Vec<String>>)
    ensures
        str_views(final(chain)@) == add_unique(str_views(old(chain)@), opt_names(*xs)),
{
    match xs {
        None => {},
        Some(v) => {
            let ghost c0 = str_views(chain@);
            let ghost names = str_views(v@);
            let mut i: usize = 0;
            while i < v.len()
                invariant
                    i <= v.len(),
                    names == str_views(v@),
                    str_views(chain@) == add_unique(c0, names.take(i as int)),
                decreases v.len() - i,
            {
                proof {
                    assert(names.take(i + 1).drop_last() =~= names.take(i as int));
                    assert(names.take(i + 1).last() == v@[i as int]@);
                }
                if !contains_string(chain, &v[i]) {
                    let ghost before = chain@;
                    chain.push(v[i].clone());
                    proof {
                        assert(str_views(chain@) =~= str_views(before).push(v@[i as int]@));
                    }
                }
                i += 1;
            }
            assert(names.take(v.len() as int) =~= names);
        },
    }
}

/// The fallback chain of a model.
pub fn build_chain(model_config: &ModelConfig) -> (chain: Vec<String>)
    ensures
        str_views(chain@) == chain_of(*model_config),
{
    let mut chain: Vec<String> = Vec::new();
    chain.push(model_config.name.clone());
    assert(str_views(chain@) =~= seq![model_config.name@]);
    append_unique(&mut chain, &model_config.fallbacks);
    append_unique(&mut chain, &model_config.rate_limit_fallbacks);
    append_unique(&mut chain, &model_config.context_window_fallbacks);
    chain
}

proof fn lemma_add_unique(chain: Seq<Seq<char>>, xs: Seq<Seq<char>>)
    requires
        chain.no_duplicates(),
    ensures
        add_unique(chain, xs).no_duplicates(),
        add_unique(chain, xs).len() >= chain.len(),
        add_unique(chain, xs).take(chain.len() as int) == chain,
        forall|i: int| 0 <= i < xs.len() ==> add_unique(chain, xs).contains(#[trigger] xs[i]),
        forall|i: int|
            0 <= i < add_unique(chain, xs).len() ==> chain.contains(#[trigger] add_unique(chain, xs)[i])
                || xs.contains(add_unique(chain, xs)[i]),
    decreases xs.len(),
{
    if xs.len() > 0 {
        let t = xs.drop_last();
        lemma_add_unique(chain, t);
        let c = add_unique(chain, t);
        let r = add_unique(chain, xs);
        if !c.contains(xs.last()) {
            assert(r == c.push(xs.last()));
            assert(r.take(chain.len() as int) =~= c.take(chain.len() as int));
            assert forall|a: int, b: int| 0 <= a < b < r.len() implies r[a] != r[b] by {
                if b == c.len() {
                    assert(r[a] == c[a]);
                }
            }
        }
        assert forall|i: int| 0 <= i < xs.len() implies r.contains(#[trigger] xs[i]) by {
            if i < t.len() {
                assert(t[i] == xs[i]);
                assert(c.contains(t[i]));
                if !c.contains(xs.last()) {
                    let j = choose|j: int| 0 <= j < c.len() && c[j] == t[i];
                    assert(r[j] == c[j]);
                }
            } else {
                if !c.contains(xs.last()) {
                    assert(r[c.len() as int] == xs.last());
                }
            }
        }
        assert forall|i: int| 0 <= i < r.len() implies chain.contains(#[trigger] r[i])
            || xs.contains(r[i]) by {
            if i < c.len() {
                assert(r[i] == c[i]);
                if t.contains(c[i]) {
                    let j = choose|j: int| 0 <= j < t.len() && t[j] == c[i];
                    assert(xs[j] == t[j]);
                }
            } else {
                assert(r[i] == xs.last());
                assert(xs[xs.len() - 1] == xs.last());
            }
        }
    }
}

/// A model's chain starts with the model, names no model twice, holds
/// every configured fallback, and holds nothing else.
pub proof fn lemma_chain(m: ModelConfig)
    ensures
        chain_of(m).len() >= 1,
        chain_of(m)[0] == m.name@,
        chain_of(m).no_duplicates(),
        forall|i: int|
            0 <= i < opt_names(m.fallbacks).len() ==> chain_of(m).contains(
                #[trigger] opt_names(m.fallbacks)[i],
            ),
        forall|i: int|
            0 <= i < opt_names(m.rate_limit_fallbacks).len() ==> chain_of(m).contains(
                #[trigger] opt_names(m.rate_limit_fallbacks)[i],
            ),
        forall|i: int|
            0 <= i < opt_names(m.context_window_fallbacks).len() ==> chain_of(m).contains(
                #[trigger] opt_names(m.context_window_fallbacks)[i],
            ),
        forall|i: int|
            0 <= i < chain_of(m).len() ==> #[trigger] chain_of(m)[i] == m.name@ || opt_names(
                m.fallbacks,
            ).contains(chain_of(m)[i]) || opt_names(m.rate_limit_fallbacks).contains(chain_of(m)[i])
                || opt_names(m.context_window_fallbacks).contains(chain_of(m)[i]),
{
    let c0 = seq![m.name@];
    let a = opt_names(m.fallbacks);
    let b = opt_names(m.rate_limit_fallbacks);
    let c = opt_names(m.context_window_fallbacks);
    lemma_add_unique(c0, a);
    let c1 = add_unique(c0, a);
    lemma_add_unique(c1, b);
    let c2 = add_unique(c1, b);
    lemma_add_unique(c2, c);
    let c3 = add_unique(c2, c);
    assert(c3.take(1) == c2.take(c2.len() as int).take(1)) by {
        assert(c3.take(c2.len() as int) == c2);
        assert(c3.take(1) =~= c3.take(c2.len() as int).take(1));
    }
    assert(c2.take(1) =~= c1.take(c1.len() as int).take(1));
    assert(c1.take(1) =~= c0);
    assert(c3[0] == c3.take(1)[0]);
    assert forall|i: int| 0 <= i < a.len() implies c3.contains(#[trigger] a[i]) by {
        assert(c1.contains(a[i]));
        let j = choose|j: int| 0 <= j < c1.len() && c1[j] == a[i];
        assert(c2.take(c1.len() as int)[j] == c2[j]);
        assert(c3.take(c2.len() as int)[j] == c3[j]);
    }
    assert forall|i: int| 0 <= i < b.len() implies c3.contains(#[trigger] b[i]) by {
        assert(c2.contains(b[i]));
        let j = choose|j: int| 0 <= j < c2.len() && c2[j] == b[i];
        assert(c3.take(c2.len() as int)[j] == c3[j]);
    }
    assert forall|i: int| 0 <= i < c3.len() implies #[trigger] c3[i] == m.name@ || a.contains(c3[i])
        || b.contains(c3[i]) || c.contains(c3[i]) by {
        if c2.contains(c3[i]) {
            let j = choose|j: int| 0 <= j < c2.len() && c2[j] == c3[i];
            if c1.contains(c2[j]) {
                let k = choose|k: int| 0 <= k < c1.len() && c1[k] == c2[j];
                if c0.contains(c1[k]) {
                    let l = choose|l: int| 0 <= l < c0.len() && c0[l] == c1[k];
                }
            }
        }
    }
}


// ---------------------------------------------------------------------------
// The router
// ---------------------------------------------------------------------------

/// The configured models, one circuit breaker for each.
pub struct LlmRouter {
    models: Vec<ModelConfig>,
    circuits: Vec<CircuitBreaker>,
}

/// The names of a sequence of models.
pub open spec fn model_names(ms: Seq<ModelConfig>) -> Seq<Seq<char>> {
    ms.map_values(|m: ModelConfig| m.name@)
}

/// The last model of `ms` with this name (a later entry replaces an
/// earlier one, as when collecting into a map).
pub open spec fn last_named(ms: Seq<ModelConfig>, name: Seq<char>) -> Option<ModelConfig>
    decreases ms.len(),
{
    if ms.len() == 0 {
        None
    } else if ms.last().name@ == name {
        Some(ms.last())
    } else {
        last_named(ms.drop_last(), name)
    }
}

impl LlmRouter {
    /// Each model name once, a breaker for each model.
    pub closed spec fn wf(&self) -> bool {
        &&& self.models.len() == self.circuits.len()
        &&& model_names(self.models@).no_duplicates()
    }

    /// Where the model named `name` sits, when there is one.
    pub closed spec fn has_name(&self, name: Seq<char>, i: int) -> bool {
        0 <= i < self.models.len() && self.models@[i].name@ == name
    }

    pub closed spec fn name_index(&self, name: Seq<char>) -> int {
        choose|i: int| self.has_name(name, i)
    }

    /// The model configured under `name`.
    pub closed spec fn model(&self, name: Seq<char>) -> Option<ModelConfig> {
        if exists|i: int| self.has_name(name, i) {
            Some(self.models@[self.name_index(name)])
        } else {
            None
        }
    }

    /// The breaker of the model configured under `name`.
    pub closed spec fn circuit(&self, name: Seq<char>) -> Option<CircuitBreaker> {
        if exists|i: int| self.has_name(name, i) {
            Some(self.circuits@[self.name_index(name)])
        } else {
            None
        }
    }

    /// The configured model names, each once.
    pub closed spec fn names(&self) -> Seq<Seq<char>> {
        model_names(self.models@)
    }

    proof fn lemma_at(&self, i: int)
        requires
            self.wf(),
            0 <= i < self.models.len(),
        ensures
            self.model(self.models@[i].name@) == Some(self.models@[i]),
            self.circuit(self.models@[i].name@) == Some(self.circuits@[i]),
    {
        let name = self.models@[i].name@;
        assert(self.has_name(name, i));
        let c = self.name_index(name);
        assert(self.has_name(name, c));
        let ns = model_names(self.models@);
        assert(ns[c] == self.models@[c].name@);
        assert(ns[i] == self.models@[i].name@);
        if c != i {
            assert(ns[c] != ns[i]);
        }
    }

    proof fn lemma_absent(&self, name: Seq<char>)
        requires
            forall|i: int| 0 <= i < self.models.len() ==> self.models@[i].name@ != name,
        ensures
            self.model(name) is None,
            self.circuit(name) is None,
    {
    }

    /// Position of the model named `name`.
    fn index_of(&self, name: &String) -> (r: Option<usize>)
        requires
            self.wf(),
        ensures
            match r {
                Some(i) => i < self.models.len() && self.models@[i as int].name@ == name@,
                None => forall|i: int|
                    0 <= i < self.models.len() ==> self.models@[i].name@ != name@,
            },
    {
        let mut i: usize = 0;
        while i < self.models.len()
            invariant
                i <= self.models.len(),
                forall|j: int| 0 <= j < i ==> self.models@[j].name@ != name@,
            decreases self.models.len() - i,
        {
            if self.models[i].name == *name {
                return Some(i);
            }
            i += 1;
        }
        None
    }

    /// The router for a configuration: a model listed twice keeps its last
    /// entry; every model gets a closed breaker with the configured (or
    /// default) threshold and recovery timeout.
    pub fn from_config(config: LlmRouterConfig) -> (r: Self)
        ensures
            r.wf(),
            forall|name: Seq<char>| #[trigger] r.model(name) == last_named(config.models@, name),
            forall|name: Seq<char>|
                (#[trigger] r.circuit(name) is Some) == (r.model(name) is Some),
            forall|name: Seq<char>|
                #[trigger] r.circuit(name) matches Some(c) ==> !c.is_open() && c.failures == 0
                    && c.threshold == match config.circuit_breaker {
                    Some(cb) => cb.failure_threshold,
                    None => 3,
                } && c.recovery_timeout_secs == match config.circuit_breaker {
                    Some(cb) => cb.recovery_timeout_secs,
                    None => 30,
                },
    {
        let cb = match config.circuit_breaker {
            Some(c) => c,
            None => default_circuit_breaker_config(),
        };
        let ghost all = config.models@;
        let mut pending = config.models;
        let mut r = LlmRouter { models: Vec::new(), circuits: Vec::new() };
        let ghost mut done: int = 0;
        assert(model_names(r.models@) =~= Seq::<Seq<char>>::empty());
        while pending.len() > 0
            invariant
                r.wf(),
                0 <= done <= all.len(),
                pending@ == all.skip(done),
                forall|name: Seq<char>| #[trigger] r.model(name) == last_named(all.take(done), name),
                forall|i: int|
                    0 <= i < r.circuits.len() ==> !(#[trigger] r.circuits@[i]).is_open()
                        && r.circuits@[i].failures == 0 && r.circuits@[i].threshold
                        == cb.failure_threshold && r.circuits@[i].recovery_timeout_secs
                        == cb.recovery_timeout_secs,
            decreases pending.len(),
        {
            let m = pending.remove(0);
            let ghost old_r_models = r.models@;
            let ghost old_r = r;
            proof {
                assert(all.take(done + 1).drop_last() =~= all.take(done));
                assert(all.take(done + 1).last() == m);
                assert(pending@ =~= all.skip(done + 1));
            }
            match r.index_of(&m.name) {
                Some(i) => {
                    r.models.set(i, m);
                    proof {
                        assert(model_names(r.models@) =~= model_names(old_r_models));
                        assert forall|name: Seq<char>| #[trigger] r.model(name) == last_named(
                            all.take(done + 1),
                            name,
                        ) by {
                            if name == m.name@ {
                                r.lemma_at(i as int);
                            } else {
                                if exists|k: int| r.has_name(name, k) {
                                    let k = choose|k: int| r.has_name(name, k);
                                    r.lemma_at(k);
                                    old_r.lemma_at(k);
                                } else {
                                    assert forall|k: int| 0 <= k < old_r.models.len() implies old_r.models@[k].name@ != name by {
                                        assert(!r.has_name(name, k));
                                        if k != i {
                                            assert(r.models@[k] == old_r.models@[k]);
                                        }
                                    }
                                    old_r.lemma_absent(name);
                                }
                            }
                        }
                    }
                },
                None => {
                    let c = CircuitBreaker::new(&cb);
                    r.models.push(m);
                    r.circuits.push(c);
                    proof {
                        assert(model_names(r.models@) =~= model_names(old_r_models).push(m.name@));
                        assert forall|name: Seq<char>| #[trigger] r.model(name) == last_named(
                            all.take(done + 1),
                            name,
                        ) by {
                            if name == m.name@ {
                                r.lemma_at(old_r_models.len() as int);
                            } else {
                                if exists|k: int| r.has_name(name, k) {
                                    let k = choose|k: int| r.has_name(name, k);
                                    r.lemma_at(k);
                                    old_r.lemma_at(k);
                                } else {
                                    assert forall|k: int| 0 <= k < old_r.models.len() implies old_r.models@[k].name@ != name by {
                                        assert(!r.has_name(name, k));
                                        assert(r.models@[k] == old_r.models@[k]);
                                    }
                                    old_r.lemma_absent(name);
                                }
                            }
                        }
                    }
                },
            }
            proof {
                done = done + 1;
            }
        }
        proof {
            assert(all.take(done) =~= all);
            assert forall|name: Seq<char>|
                (#[trigger] r.circuit(name) is Some) == (r.model(name) is Some) by {
            }
            assert forall|name: Seq<char>| #[trigger] r.circuit(name) matches Some(c) ==> !c.is_open()
                && c.failures == 0 && c.threshold == match config.circuit_breaker {
                Some(cb) => cb.failure_threshold,
                None => 3,
            } && c.recovery_timeout_secs == match config.circuit_breaker {
                Some(cb) => cb.recovery_timeout_secs,
                None => 30,
            } by {
                if r.circuit(name) is Some {
                    let k = r.name_index(name);
                    assert(r.has_name(name, k));
                    assert(r.circuits@[k] == r.circuit(name)->0);
                }
            }
        }
        r
    }

    /// The configured model names.
    pub fn list_models(&self) -> (r: Vec<String>)
        ensures
            str_views(r@) == self.names(),
    {
        let mut r: Vec<String> = Vec::new();
        let mut i: usize = 0;
        while i < self.models.len()
            invariant
                i <= self.models.len(),
                r@.len() == i,
                forall|j: int| 0 <= j < i ==> r@[j]@ == self.models@[j].name@,
            decreases self.models.len() - i,
        {
            r.push(self.models[i].name.clone());
            i += 1;
        }
        assert(str_views(r@) =~= self.names());
        r
    }

    /// The configuration of the model named `name`.
    pub fn get_model_config(&self, name: &str) -> (r: Option<&ModelConfig>)
        requires
            self.wf(),
        ensures
            match r {
                Some(m) => self.model(name@) == Some(*m),
                None => self.model(name@) is None,
            },
    {
        let key = owned(name);
        match self.index_of(&key) {
            Some(i) => {
                proof {
                    self.lemma_at(i as int);
                }
                Some(&self.models[i])
            },
            None => {
                proof {
                    self.lemma_absent(name@);
                }
                None
            },
        }
    }

    /// Whether requests may go to `name` now: models without a breaker
    /// always may; a closed breaker always lets them through.
    pub fn circuit_allows(&self, name: &String) -> (b: bool)
        requires
            self.wf(),
        ensures
            match self.circuit(name@) {
                Some(c) => (!c.is_open() || c.recovery_timeout_secs == 0) ==> b,
                None => b,
            },
    {
        match self.index_of(name) {
            Some(i) => {
                proof {
                    self.lemma_at(i as int);
                }
                self.circuits[i].is_allowed()
            },
            None => {
                proof {
                    self.lemma_absent(name@);
                }
                true
            },
        }
    }

    /// Records a successful request to `name`: its breaker closes.
    pub fn record_success(&mut self, name: &String)
        requires
            old(self).wf(),
        ensures
            final(self).wf(),
            forall|n: Seq<char>| #[trigger] final(self).model(n) == old(self).model(n),
            forall|n: Seq<char>|
                n != name@ ==> #[trigger] final(self).circuit(n) == old(self).circuit(n),
            match old(self).circuit(name@) {
                Some(c) => final(self).circuit(name@) matches Some(c2) && !c2.is_open()
                    && c2.failures == 0 && c2.threshold == c.threshold
                    && c2.recovery_timeout_secs == c.recovery_timeout_secs,
                None => final(self).circuit(name@) is None,
            },
    {
        match self.index_of(name) {
            Some(i) => {
                let ghost before = *self;
                let mut c = self.circuits.remove(i);
                c.record_success();
                self.circuits.insert(i, c);
                proof {
                    assert(self.models@ == before.models@);
                    before.lemma_at(i as int);
                    self.lemma_at(i as int);
                    self.lemma_same_models(&before, i as int);
                }
            },
            None => {
                proof {
                    self.lemma_absent(name@);
                }
            },
        }
    }

    /// Records a failed request to `name`: its breaker counts the failure.
    pub fn record_failure(&mut self, name: &String)
        requires
            old(self).wf(),
        ensures
            final(self).wf(),
            forall|n: Seq<char>| #[trigger] final(self).model(n) == old(self).model(n),
            forall|n: Seq<char>|
                n != name@ ==> #[trigger] final(self).circuit(n) == old(self).circuit(n),
            match old(self).circuit(name@) {
                Some(c) => final(self).circuit(name@) matches Some(c2) && c2.failures == fail_count(
                    c.failures,
                ) && c2.is_open() == (c.is_open() || fail_count(c.failures) >= c.threshold)
                    && c2.threshold == c.threshold && c2.recovery_timeout_secs
                    == c.recovery_timeout_secs,
                None => final(self).circuit(name@) is None,
            },
    {
        match self.index_of(name) {
            Some(i) => {
                let ghost before = *self;
                let mut c = self.circuits.remove(i);
                c.record_failure();
                self.circuits.insert(i, c);
                proof {
                    before.lemma_at(i as int);
                    self.lemma_at(i as int);
                    self.lemma_same_models(&before, i as int);
                }
            },
            None => {
                proof {
                    self.lemma_absent(name@);
                }
            },
        }
    }

    proof fn lemma_same_models(&self, before: &Self, i: int)
        requires
            before.wf(),
            self.models@ == before.models@,
            self.circuits.len() == before.circuits.len(),
            0 <= i < self.models.len(),
            forall|j: int| 0 <= j < self.circuits.len() && j != i ==> self.circuits@[j] == before.circuits@[j],
        ensures
            self.wf(),
            forall|n: Seq<char>| #[trigger] self.model(n) == before.model(n),
            forall|n: Seq<char>|
                n != self.models@[i].name@ ==> #[trigger] self.circuit(n) == before.circuit(n),
    {
        assert forall|n: Seq<char>|
            #![trigger self.model(n)]
            #![trigger self.circuit(n)]
            self.model(n) == before.model(n) && (n != self.models@[i].name@ ==> self.circuit(n)
                == before.circuit(n)) by {
            if exists|k: int| self.has_name(n, k) {
                let k = choose|k: int| self.has_name(n, k);
                self.lemma_at(k);
                before.lemma_at(k);
            } else {
                assert forall|k: int| 0 <= k < before.models.len() implies before.models@[k].name@
                    != n by {
                    assert(!self.has_name(n, k));
                }
                before.lemma_absent(n);
            }
        }
    }
}


// ---------------------------------------------------------------------------
// Endpoints
// ---------------------------------------------------------------------------

/// `k` is where the trailing run of `c` characters of `s` begins.
pub open spec fn trail_char_cut(s: Seq<char>, c: char, k: int) -> bool {
    0 <= k <= s.len() && (forall|j: int| k <= j < s.len() ==> s[j] == c) && (k == 0 || s[k - 1]
        != c)
}

/// `s` without its trailing `c` characters (std's `trim_end_matches(c)`).
pub open spec fn trim_end_char(s: Seq<char>, c: char) -> Seq<char> {
    s.take(choose|k: int| trail_char_cut(s, c, k))
}

/// The completions URL under a base URL.
pub open spec fn chat_url(base: Seq<char>) -> Seq<char> {
    trim_end_char(base, '/') + "/chat/completions"@
}

/// The model's own non-empty value, else the default.
pub open spec fn override_or(v: Option<String>, default: Seq<char>) -> Seq<char> {
    match v {
        Some(s) => if s@.len() > 0 {
            s@
        } else {
            default
        },
        None => default,
    }
}

/// `s` without its trailing `/` characters.
pub fn trim_end_slashes(s: &[char]) -> (r: Vec<char>)
    ensures
        r@ == trim_end_char(s@, '/'),
{
    let mut k: usize = s.len();
    while k > 0 && s[k - 1] == '/'
        invariant
            k <= s.len(),
            forall|j: int| k <= j < s.len() ==> s@[j] == '/',
        decreases k,
    {
        k -= 1;
    }
    proof {
        let c = choose|c: int| trail_char_cut(s@, '/', c);
        assert(trail_char_cut(s@, '/', k as int));
        assert(trail_char_cut(s@, '/', c));
        if c < k {
            assert(s@[k - 1] == '/');
        }
        if k < c {
            assert(s@[c - 1] == '/');
        }
    }
    crate::text::slice_vec(s, 0, k)
}

impl LlmRouter {
    /// The completions URL and API key for `model`: the model's own
    /// non-empty base URL and key when it has them, else the defaults.
    pub fn endpoint(&self, model: &str, default_base_url: &str, default_api_key: &str) -> (r: (
        String,
        String,
    ))
        requires
            self.wf(),
        ensures
            r.0@ == chat_url(
                match self.model(model@) {
                    Some(m) => override_or(m.base_url, default_base_url@),
                    None => default_base_url@,
                },
            ),
            r.1@ == match self.model(model@) {
                Some(m) => override_or(m.api_key, default_api_key@),
                None => default_api_key@,
            },
    {
        let mut base = owned(default_base_url);
        let mut key = owned(default_api_key);
        match self.get_model_config(model) {
            Some(m) => {
                match &m.base_url {
                    Some(b) => {
                        if chars_of(b.as_str()).len() > 0 {
                            base = b.clone();
                        }
                    },
                    None => {},
                }
                match &m.api_key {
                    Some(k) => {
                        if chars_of(k.as_str()).len() > 0 {
                            key = k.clone();
                        }
                    },
                    None => {},
                }
            },
            None => {},
        }
        let base_chars = chars_of(base.as_str());
        let mut url = trim_end_slashes(base_chars.as_slice());
        push_str(&mut url, "/chat/completions");
        (string_of(url.as_slice()), key)
    }
}

// ---------------------------------------------------------------------------
// A fallback run
// ---------------------------------------------------------------------------

/// Where a fallback run stands: the chain, the next model to try, and the
/// errors met so far.
pub struct FallbackRun {
    pub chain: Vec<String>,
    pub next: usize,
    pub errors: Vec<String>,
}

/// How a request is to be made: straight to an unconfigured model, or
/// along a configured model's chain.
pub enum FallbackPlan {
    Direct(String),
    Chain(FallbackRun),
}

/// The error noted for a model skipped because its breaker is open.
pub open spec fn open_msg(name: Seq<char>) -> Seq<char> {
    name + ": circuit breaker đang mở"@
}

/// The error noted for a failed request to the model at `idx`: the first
/// model is called "primary".
pub open spec fn failure_msg(chain: Seq<Seq<char>>, idx: int, err: Seq<char>) -> Seq<char> {
    (if idx == 0 {
        "primary"@
    } else {
        chain[idx]
    }) + ": "@ + err
}

/// The error of a run in which every model failed.
pub open spec fn exhausted_msg(errors: Seq<Seq<char>>) -> Seq<char> {
    "Tất cả models đều lỗi: "@ + join(errors, " | "@)
}

impl LlmRouter {
    /// The plan for a request to `preferred` (or `default_model` when none
    /// is given): the model's chain when it is configured, else a direct
    /// request.
    pub fn start_fallback(&self, preferred: Option<&str>, default_model: &str) -> (p: FallbackPlan)
        requires
            self.wf(),
        ensures
            ({
                let name = match preferred {
                    Some(n) => n@,
                    None => default_model@,
                };
                match self.model(name) {
                    Some(m) => p matches FallbackPlan::Chain(run) && str_views(run.chain@)
                        == chain_of(m) && run.next == 0 && run.errors@.len() == 0,
                    None => p matches FallbackPlan::Direct(n) && n@ == name,
                }
            }),
    {
        let name = match preferred {
            Some(n) => n,
            None => default_model,
        };
        match self.get_model_config(name) {
            Some(m) => {
                let chain = build_chain(m);
                FallbackPlan::Chain(FallbackRun { chain, next: 0, errors: Vec::new() })
            },
            None => FallbackPlan::Direct(owned(name)),
        }
    }

    /// The next model to try: models whose breaker does not let requests
    /// through (open, with a recovery time) are skipped, each with an error
    /// noted. `None` when the chain
    /// is used up.
    pub fn next_attempt(&self, run: &mut FallbackRun) -> (r: Option<String>)
        requires
            self.wf(),
            old(run).next <= old(run).chain.len(),
        ensures
            final(run).chain@ == old(run).chain@,
            old(run).next <= final(run).next <= final(run).chain.len(),
            str_views(final(run).errors@) == str_views(old(run).errors@) + Seq::new(
                (final(run).next - old(run).next) as nat,
                |k: int| open_msg(old(run).chain@[old(run).next + k]@),
            ),
            forall|k: int|
                old(run).next <= k < final(run).next ==> ((#[trigger] self.circuit(
                    old(run).chain@[k]@,
                )) matches Some(c) && c.is_open() && c.recovery_timeout_secs > 0),
            match r {
                Some(n) => final(run).next < final(run).chain.len()
                    && n@ == final(run).chain@[final(run).next as int]@,
                None => final(run).next == final(run).chain.len(),
            },
    {
        let ghost start = run.next;
        let ghost errs0 = str_views(run.errors@);
        while run.next < run.chain.len()
            invariant
                self.wf(),
                run.chain@ == old(run).chain@,
                start == old(run).next,
                errs0 == str_views(old(run).errors@),
                start <= run.next <= run.chain.len(),
                str_views(run.errors@) == errs0 + Seq::new(
                    (run.next - start) as nat,
                    |k: int| open_msg(run.chain@[start + k]@),
                ),
                forall|k: int|
                    start <= k < run.next ==> ((#[trigger] self.circuit(run.chain@[k]@)) matches Some(
                        c,
                    ) && c.is_open() && c.recovery_timeout_secs > 0),
            decreases run.chain.len() - run.next,
        {
            let i = run.next;
            if self.circuit_allows(&run.chain[i]) {
                return Some(run.chain[i].clone());
            }
            let mut msg = chars_of(run.chain[i].as_str());
            push_str(&mut msg, ": circuit breaker đang mở");
            let m = string_of(msg.as_slice());
            let ghost before = str_views(run.errors@);
            run.errors.push(m);
            run.next = i + 1;
            proof {
                assert(str_views(run.errors@) =~= before.push(m@));
                assert(str_views(run.errors@) =~= errs0 + Seq::new(
                    (run.next - start) as nat,
                    |k: int| open_msg(run.chain@[start + k]@),
                ));
            }
        }
        None
    }

    /// Notes that the request to the current model failed with `error`:
    /// its breaker counts the failure, the error is recorded, and the run
    /// moves on.
    pub fn attempt_failed(&mut self, run: &mut FallbackRun, error: &str)
        requires
            old(self).wf(),
            old(run).next < old(run).chain.len(),
        ensures
            final(self).wf(),
            final(run).chain@ == old(run).chain@,
            final(run).next == old(run).next + 1,
            str_views(final(run).errors@) == str_views(old(run).errors@).push(
                failure_msg(str_views(old(run).chain@), old(run).next as int, error@),
            ),
            forall|n: Seq<char>| #[trigger] final(self).model(n) == old(self).model(n),
            ({
                let name = old(run).chain@[old(run).next as int]@;
                &&& forall|n: Seq<char>|
                    n != name ==> #[trigger] final(self).circuit(n) == old(self).circuit(n)
                &&& match old(self).circuit(name) {
                    Some(c) => final(self).circuit(name) matches Some(c2) && c2.failures
                        == fail_count(c.failures) && c2.is_open() == (c.is_open() || fail_count(
                        c.failures,
                    ) >= c.threshold),
                    None => final(self).circuit(name) is None,
                }
            }),
    {
        let i = run.next;
        self.record_failure(&run.chain[i]);
        let mut msg: Vec<char> = Vec::new();
        if i == 0 {
            push_str(&mut msg, "primary");
        } else {
            let n = chars_of(run.chain[i].as_str());
            push_all(&mut msg, n.as_slice());
        }
        push_str(&mut msg, ": ");
        push_str(&mut msg, error);
        let m = string_of(msg.as_slice());
        let ghost before = str_views(run.errors@);
        run.errors.push(m);
        run.next = i + 1;
        proof {
            assert(str_views(old(run).chain@)[i as int] == old(run).chain@[i as int]@);
            assert(str_views(run.errors@) =~= before.push(m@));
        }
    }

    /// Notes that the request to the current model succeeded: its breaker
    /// closes.
    pub fn attempt_succeeded(&mut self, run: &FallbackRun)
        requires
            old(self).wf(),
            run.next < run.chain.len(),
        ensures
            final(self).wf(),
            forall|n: Seq<char>| #[trigger] final(self).model(n) == old(self).model(n),
            ({
                let name = run.chain@[run.next as int]@;
                &&& forall|n: Seq<char>|
                    n != name ==> #[trigger] final(self).circuit(n) == old(self).circuit(n)
                &&& match old(self).circuit(name) {
                    Some(c) => final(self).circuit(name) matches Some(c2) && !c2.is_open()
                        && c2.failures == 0,
                    None => final(self).circuit(name) is None,
                }
            }),
    {
        self.record_success(&run.chain[run.next]);
    }
}

impl FallbackRun {
    /// The error returned when every model of the chain failed.
    pub fn exhausted_error(&self) -> (r: String)
        ensures
            r@ == exhausted_msg(str_views(self.errors@)),
    {
        let mut parts: Vec<Vec<char>> = Vec::new();
        let mut i: usize = 0;
        while i < self.errors.len()
            invariant
                i <= self.errors.len(),
                parts@.len() == i,
                forall|j: int| 0 <= j < i ==> #[trigger] parts@[j]@ == self.errors@[j]@,
            decreases self.errors.len() - i,
        {
            parts.push(chars_of(self.errors[i].as_str()));
            i += 1;
        }
        assert(views(parts@) =~= str_views(self.errors@));
        let sep = chars_of(" | ");
        let joined = crate::text::join_vecs(&parts, sep.as_slice());
        let mut out: Vec<char> = Vec::new();
        push_str(&mut out, "Tất cả models đều lỗi: ");
        push_all(&mut out, joined.as_slice());
        string_of(out.as_slice())
    }
}

} // verus!

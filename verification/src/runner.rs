//! The stage and suite state machine.
//!
//! One `SuiteRunner` holds a suite's progress: which stage is running, how
//! many attempts it has made, the shared backreference store, and the
//! record of completed stages. The caller executes each requested action
//! (a shell command or an HTTP request, with delays around it) and feeds
//! the outcome back; the runner evaluates the stage's matchers, decides
//! between retrying, passing and exhausting the stage, and always goes on
//! to the next stage whatever the last one came to.

use vstd::prelude::*;
use crate::checks::{spec_matchers_fold, check_stdout, CheckCommand, CheckConfig};
use crate::subst::{format_variables, spec_subst, KeyView, Store};

verus! {

/// The record of one completed stage: its name, whether it matched before
/// its retries ran out, and how many attempts it made.
pub struct StageResult {
    pub name: String,
    pub passed: bool,
    pub attempts: u32,
}

/// The action the caller must execute next, with the stage's delays.
pub struct ActionRequest {
    pub command: CheckCommand,
    pub delay_before: Option<u64>,
    pub delay_after: Option<u64>,
}

/// One counter increment for the metrics sink.
pub struct MetricEvent {
    pub key: String,
    pub tags: Vec<(String, String)>,
}

/// The mathematical state of a suite run: the current stage, the attempts
/// made on it, and each completed stage's outcome and attempt count.
pub struct RunModel {
    pub stage_idx: nat,
    pub attempt: nat,
    pub results: Seq<(bool, nat)>,
}

/// The retry budget of each stage.
pub open spec fn spec_retries(suite: CheckConfig) -> Seq<nat> {
    suite.stages@.map_values(|st: crate::checks::CheckStage| st.max_retries as nat)
}

/// One transition of the stage state machine: on a match the stage passes
/// at once; on a failed attempt the stage retries while attempts remain,
/// else it is exhausted and recorded failed; either way the run then moves
/// to the next stage. A finished run does not move.
pub open spec fn spec_step(m: RunModel, rs: Seq<nat>, matched: bool) -> RunModel {
    if m.stage_idx >= rs.len() {
        m
    } else if matched {
        RunModel {
            stage_idx: m.stage_idx + 1,
            attempt: 0,
            results: m.results.push((true, m.attempt + 1)),
        }
    } else if m.attempt + 1 < rs[m.stage_idx as int] {
        RunModel { stage_idx: m.stage_idx, attempt: m.attempt + 1, results: m.results }
    } else {
        RunModel {
            stage_idx: m.stage_idx + 1,
            attempt: 0,
            results: m.results.push((false, m.attempt + 1)),
        }
    }
}

/// The state after a whole sequence of attempt outcomes.
pub open spec fn spec_run_events(m: RunModel, rs: Seq<nat>, evs: Seq<bool>) -> RunModel
    decreases evs.len(),
{
    if evs.len() == 0 {
        m
    } else {
        spec_run_events(spec_step(m, rs, evs[0]), rs, evs.skip(1))
    }
}

/// How many recorded stages from `i` on passed.
pub open spec fn spec_count_passed(rs: Seq<(bool, nat)>, i: int) -> int
    decreases rs.len() - i,
{
    if i < 0 || i >= rs.len() {
        0
    } else {
        (if rs[i].0 {
            1int
        } else {
            0int
        }) + spec_count_passed(rs, i + 1)
    }
}

/// A sound model state: one recorded result per completed stage, and a
/// current stage within bounds.
pub open spec fn model_wf(m: RunModel, rs: Seq<nat>) -> bool {
    m.results.len() == m.stage_idx && m.stage_idx <= rs.len() && (m.stage_idx < rs.len()
        ==> m.attempt + 1 <= rs[m.stage_idx as int])
}

/// Runs one suite's stages in order against one shared store.
pub struct SuiteRunner {
    pub suite: CheckConfig,
    pub store: Store,
    pub stage_idx: usize,
    pub attempt: u32,
    pub results: Vec<StageResult>,
}

impl SuiteRunner {
    /// The model of this runner's state.
    pub open spec fn model(self) -> RunModel {
        RunModel {
            stage_idx: self.stage_idx as nat,
            attempt: self.attempt as nat,
            results: self.results@.map_values(
                |r: StageResult| (r.passed, r.attempts as nat),
            ),
        }
    }

    /// A sound runner: every stage allows at least one attempt, and the
    /// model state is sound.
    pub open spec fn wf(self) -> bool {
        &&& model_wf(self.model(), spec_retries(self.suite))
        &&& forall|i: int|
            0 <= i < self.suite.stages@.len() ==> (#[trigger] self.suite.stages@[i]).max_retries
                >= 1
    }

    /// Whether every stage has completed.
    pub open spec fn spec_finished(self) -> bool {
        self.stage_idx >= self.suite.stages@.len()
    }

    /// Starts a suite run: at the first stage, with an empty store and no
    /// attempts made.
    pub fn new(suite: CheckConfig) -> (r: SuiteRunner)
        requires
            forall|i: int|
                0 <= i < suite.stages@.len() ==> (#[trigger] suite.stages@[i]).max_retries >= 1,
        ensures
            r.wf(),
            r.suite == suite,
            r.stage_idx == 0,
            r.attempt == 0,
            r.results@.len() == 0,
            r.store@ == Seq::<(KeyView, Seq<char>)>::empty(),
    {
        let r = SuiteRunner {
            suite,
            store: Store::new(),
            stage_idx: 0,
            attempt: 0,
            results: Vec::new(),
        };
        proof {
            assert(r.model().results =~= Seq::<(bool, nat)>::empty());
        }
        r
    }

    /// Whether every stage has completed.
    pub fn finished(&self) -> (r: bool)
        ensures
            r == self.spec_finished(),
    {
        self.stage_idx >= self.suite.stages.len()
    }

    /// The action to execute for the current attempt, with the stage's
    /// textual fields substituted from the store, or `None` when the run
    /// has finished.
    pub fn current_request(&self) -> (r: Option<ActionRequest>)
        requires
            self.wf(),
        ensures
            (r is None) == self.spec_finished(),
            (match r {
                Some(req) => {
                    let stage = self.suite.stages@[self.stage_idx as int];
                    &&& req.delay_before == stage.delay_before
                    &&& req.delay_after == stage.delay_after
                    &&& (match (stage.check, req.command) {
                        (CheckCommand::Shell(c), CheckCommand::Shell(c2)) => c2@ == spec_subst(
                            c@,
                            self.store@,
                        ),
                        (
                            CheckCommand::HttpRequest { url, headers, method },
                            CheckCommand::HttpRequest { url: url2, headers: headers2, method: method2 },
                        ) => {
                            &&& url2@ == spec_subst(url@, self.store@)
                            &&& method2@ == method@
                            &&& headers2@.len() == headers@.len()
                            &&& forall|i: int|
                                0 <= i < headers@.len() ==> (#[trigger] headers2@[i]).0@
                                    == spec_subst(headers@[i].0@, self.store@) && headers2@[i].1@
                                    == spec_subst(headers@[i].1@, self.store@)
                        },
                        _ => false,
                    })
                },
                None => true,
            }),
    {
        if self.stage_idx >= self.suite.stages.len() {
            return None;
        }
        let stage = &self.suite.stages[self.stage_idx];
        let command = match &stage.check {
            CheckCommand::Shell(c) => CheckCommand::Shell(
                format_variables(c.as_str(), &self.store),
            ),
            CheckCommand::HttpRequest { url, headers, method } => {
                let u = format_variables(url.as_str(), &self.store);
                let mut hs: Vec<(String, String)> = Vec::new();
                let mut i: usize = 0;
                while i < headers.len()
                    invariant
                        i <= headers@.len(),
                        hs@.len() == i,
                        forall|q: int|
                            0 <= q < i ==> (#[trigger] hs@[q]).0@ == spec_subst(
                                headers@[q].0@,
                                self.store@,
                            ) && hs@[q].1@ == spec_subst(headers@[q].1@, self.store@),
                    decreases headers@.len() - i,
                {
                    let hk = format_variables(headers[i].0.as_str(), &self.store);
                    let hv = format_variables(headers[i].1.as_str(), &self.store);
                    hs.push((hk, hv));
                    i += 1;
                }
                CheckCommand::HttpRequest { url: u, headers: hs, method: method.clone() }
            },
        };
        Some(
            ActionRequest {
                command,
                delay_before: stage.delay_before,
                delay_after: stage.delay_after,
            },
        )
    }

    /// Takes one attempt's outcome: the action's raw output, or the text
    /// of its failure. On output, the current stage's matchers run against
    /// it and may write captures into the store; a failed action matches
    /// nothing and touches nothing. The stage then passes, retries or is
    /// exhausted as the state machine says.
    pub fn feed(&mut self, outcome: Result<String, String>)
        requires
            old(self).wf(),
            !old(self).spec_finished(),
        ensures
            final(self).wf(),
            final(self).suite == old(self).suite,
            ({
                let stage = old(self).suite.stages@[old(self).stage_idx as int];
                let matched = match outcome {
                    Ok(out) => spec_matchers_fold(stage.matchers@, out@, old(self).store@, 0).0,
                    Err(_) => false,
                };
                let st2 = match outcome {
                    Ok(out) => spec_matchers_fold(stage.matchers@, out@, old(self).store@, 0).1,
                    Err(_) => old(self).store@,
                };
                &&& final(self).store@ == st2
                &&& final(self).model() == spec_step(
                    old(self).model(),
                    spec_retries(old(self).suite),
                    matched,
                )
                &&& (final(self).stage_idx != old(self).stage_idx
                    ==> final(self).results@.last().name@ == stage.name@)
                &&& final(self).results@.len() >= old(self).results@.len()
                &&& (forall|q: int|
                    0 <= q < old(self).results@.len()
                        ==> final(self).results@[q] == old(self).results@[q])
            }),
    {
        let ghost m0 = self.model();
        let ghost rs = spec_retries(self.suite);
        let nstages = self.suite.stages.len();
        proof {
            assert(self.stage_idx < nstages);
        }
        let matched = match outcome {
            Ok(out) => {
                let stage = &self.suite.stages[self.stage_idx];
                check_stdout(stage, self.suite.test_name.as_str(), out.as_str(), &mut self.store)
            },
            Err(_) => false,
        };
        let stage_name = self.suite.stages[self.stage_idx].name.clone();
        if matched {
            self.results.push(
                StageResult { name: stage_name, passed: true, attempts: self.attempt + 1 },
            );
            self.stage_idx += 1;
            self.attempt = 0;
            proof {
                assert(final(self).model().results =~= spec_step(m0, rs, true).results);
            }
        } else if self.attempt + 1 < self.suite.stages[self.stage_idx].max_retries {
            self.attempt += 1;
        } else {
            self.results.push(
                StageResult { name: stage_name, passed: false, attempts: self.attempt + 1 },
            );
            self.stage_idx += 1;
            self.attempt = 0;
            proof {
                assert(final(self).model().results =~= spec_step(m0, rs, false).results);
            }
        }
    }

    /// How many stages have passed so far.
    pub fn passed_stages(&self) -> (n: usize)
        ensures
            n == spec_count_passed(self.model().results, 0),
    {
        let ghost rm = self.model().results;
        let mut n: usize = 0;
        let mut i: usize = 0;
        proof {
            lemma_count_passed_bounds(rm, 0);
        }
        while i < self.results.len()
            invariant
                i <= self.results@.len(),
                rm == self.model().results,
                n + spec_count_passed(rm, i as int) == spec_count_passed(rm, 0),
                n <= i,
            decreases self.results@.len() - i,
        {
            proof {
                assert(rm[i as int] == (self.results@[i as int].passed,
                    self.results@[i as int].attempts as nat));
                lemma_count_passed_bounds(rm, i + 1);
            }
            if self.results[i].passed {
                n += 1;
            }
            i += 1;
        }
        n
    }

    /// Whether the whole suite passed: every stage completed and matched
    /// within its retries.
    pub fn suite_passed(&self) -> (r: bool)
        requires
            self.wf(),
        ensures
            r == (self.spec_finished() && spec_count_passed(self.model().results, 0)
                == self.suite.stages@.len()),
    {
        let n = self.passed_stages();
        proof {
            lemma_count_passed_bounds(self.model().results, 0);
        }
        self.finished() && n == self.suite.stages.len()
    }
}

/// The pass count never exceeds the number of recorded stages.
proof fn lemma_count_passed_bounds(rs: Seq<(bool, nat)>, i: int)
    ensures
        0 <= spec_count_passed(rs, i) <= rs.len(),
        0 <= i <= rs.len() ==> spec_count_passed(rs, i) <= rs.len() - i,
    decreases rs.len() - i,
{
    if 0 <= i < rs.len() {
        lemma_count_passed_bounds(rs, i + 1);
    }
}

/// A stage whose attempts all fail is exhausted after exactly its retry
/// budget: feeding `n` failed attempts to a fresh stage with budget `n`
/// records one failed result with `n` attempts and moves to the next
/// stage.
pub proof fn lemma_retry_exhaustion(m: RunModel, rs: Seq<nat>, n: nat)
    requires
        m.attempt == 0,
        m.stage_idx < rs.len(),
        rs[m.stage_idx as int] == n,
        n >= 1,
    ensures
        ({
            let m2 = spec_run_events(m, rs, Seq::new(n, |i: int| false));
            m2.stage_idx == m.stage_idx + 1 && m2.attempt == 0 && m2.results == m.results.push(
                (false, n),
            )
        }),
{
    lemma_failures_advance(m, rs, n, 0);
}

proof fn lemma_failures_advance(m: RunModel, rs: Seq<nat>, n: nat, k: nat)
    requires
        m.stage_idx < rs.len(),
        rs[m.stage_idx as int] == n,
        m.attempt == k,
        k < n,
    ensures
        ({
            let m2 = spec_run_events(m, rs, Seq::new((n - k) as nat, |i: int| false));
            m2.stage_idx == m.stage_idx + 1 && m2.attempt == 0 && m2.results == m.results.push(
                (false, n),
            )
        }),
    decreases n - k,
{
    let evs = Seq::new((n - k) as nat, |i: int| false);
    assert(evs[0] == false);
    let m1 = spec_step(m, rs, false);
    if k + 1 < n {
        lemma_failures_advance(m1, rs, n, k + 1);
        assert(evs.skip(1) =~= Seq::new((n - k - 1) as nat, |i: int| false));
    } else {
        assert(evs.skip(1) =~= Seq::new(0, |i: int| false));
        assert(spec_run_events(m1, rs, evs.skip(1)) == m1);
    }
}

/// A stage whose attempt matches passes at once: no further attempts are
/// made, whatever retry budget remains.
pub proof fn lemma_stage_short_circuit(m: RunModel, rs: Seq<nat>)
    requires
        m.attempt == 0,
        m.stage_idx < rs.len(),
    ensures
        ({
            let m2 = spec_step(m, rs, true);
            m2.stage_idx == m.stage_idx + 1 && m2.attempt == 0 && m2.results == m.results.push(
                (true, 1),
            )
        }),
{
}

/// A failed stage does not stop the suite: every attempt outcome leaves a
/// sound state, and a run that reaches the end has recorded exactly one
/// result per stage, whether it passed or not.
pub proof fn lemma_suite_continuation(m: RunModel, rs: Seq<nat>, evs: Seq<bool>)
    requires
        model_wf(m, rs),
        forall|i: int| 0 <= i < rs.len() ==> #[trigger] rs[i] >= 1,
        spec_run_events(m, rs, evs).stage_idx == rs.len(),
    ensures
        model_wf(spec_run_events(m, rs, evs), rs),
        spec_run_events(m, rs, evs).results.len() == rs.len(),
    decreases evs.len(),
{
    if evs.len() > 0 {
        lemma_suite_continuation(spec_step(m, rs, evs[0]), rs, evs.skip(1));
    }
}

/// Builds the stage counter for one completed stage, tagged with the suite
/// and stage names.
pub fn stage_metric(test_name: &String, r: &StageResult) -> (e: MetricEvent)
    ensures
        e.key@ == (if r.passed {
            "stage.passed"@
        } else {
            "stage.failed"@
        }),
        e.tags@.len() == 2,
        e.tags@[0].0@ == "test_name"@,
        e.tags@[0].1@ == test_name@,
        e.tags@[1].0@ == "stage"@,
        e.tags@[1].1@ == r.name@,
{
    let key = if r.passed {
        String::from_str("stage.passed")
    } else {
        String::from_str("stage.failed")
    };
    let mut tags: Vec<(String, String)> = Vec::new();
    tags.push((String::from_str("test_name"), test_name.clone()));
    tags.push((String::from_str("stage"), r.name.clone()));
    MetricEvent { key, tags }
}

/// Builds the suite counter, tagged with the suite name.
pub fn check_metric(test_name: &String, passed: bool) -> (e: MetricEvent)
    ensures
        e.key@ == (if passed {
            "check.passed"@
        } else {
            "check.failed"@
        }),
        e.tags@.len() == 1,
        e.tags@[0].0@ == "test_name"@,
        e.tags@[0].1@ == test_name@,
{
    let key = if passed {
        String::from_str("check.passed")
    } else {
        String::from_str("check.failed")
    };
    let mut tags: Vec<(String, String)> = Vec::new();
    tags.push((String::from_str("test_name"), test_name.clone()));
    MetricEvent { key, tags }
}

/// Builds the overall counter: untagged, passed only when every suite
/// passed.
pub fn probe_metric(passed: bool) -> (e: MetricEvent)
    ensures
        e.key@ == (if passed {
            "probe.passed"@
        } else {
            "probe.failed"@
        }),
        e.tags@.len() == 0,
{
    let key = if passed {
        String::from_str("probe.passed")
    } else {
        String::from_str("probe.failed")
    };
    MetricEvent { key, tags: Vec::new() }
}

/// Whether every suite passed: the overall probe result.
pub fn all_passed(results: &Vec<bool>) -> (r: bool)
    ensures
        r == (forall|i: int| 0 <= i < results@.len() ==> results@[i]),
{
    let mut i: usize = 0;
    while i < results.len()
        invariant
            i <= results@.len(),
            forall|q: int| 0 <= q < i ==> results@[q],
        decreases results@.len() - i,
    {
        if !results[i] {
            return false;
        }
        i += 1;
    }
    true
}

} // verus!

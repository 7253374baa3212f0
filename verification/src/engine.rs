use std::time::Duration;

use vstd::prelude::*;

use crate::analysis::Analysis;
use crate::analyzer::{
    AnalyzerInfo, RunContext, ToolRequirement, duration_from_secs, duration_millis, duration_of_secs, duration_zero, is_zero_duration, zero_duration,
    ExecutionOutcome, FailedReason, RunOutput,
};
use crate::finding::Finding;
use crate::order::{
    lemma_sorted_findings_rule_first, lemma_sorted_outcomes_failures_first, findings_sorted, findings_stably_permuted, outcomes_sorted, outcomes_stably_permuted, sort_findings,
    sort_outcomes,
};
use crate::text::{chars_of, push_str, seq_less};

verus! {

/// Engine configuration bounds for execution.
#[derive(Debug, Clone, Copy)]
pub struct EngineConfig {
    pub concurrency: usize,
    pub default_timeout: Duration,
}

impl Default for EngineConfig {
    fn default() -> (r: Self)
        ensures
            r.concurrency == 4,
            r.default_timeout == duration_of_secs(120),
    {
        EngineConfig { concurrency: 4, default_timeout: duration_from_secs(120) }
    }
}

/// What became of one analyzer execution.
#[derive(Debug)]
pub enum UnitResult {
    /// The analyzer returned, after the elapsed time.
    Completed { result: Result<RunOutput, String>, elapsed: Duration },
    /// The analyzer panicked, with the panic's message if it had one.
    Panicked { message: Option<String> },
}

// ---------------------------------------------------------------------------
// Failure classification.
// ---------------------------------------------------------------------------

/// `char::to_ascii_lowercase`.
pub open spec fn ascii_lower(c: char) -> char {
    if 'A' <= c && c <= 'Z' {
        ((c as u32) + 32) as char
    } else {
        c
    }
}

/// ASCII capitals become small letters, every other character is unchanged.
fn lower_char(c: char) -> (r: char)
    ensures
        r == ascii_lower(c),
{
    if 'A' <= c && c <= 'Z' {
        let code: u8 = c as u8;
        assert(code == c as u32);
        (code + 32) as char
    } else {
        c
    }
}

/// `str::to_ascii_lowercase`, character by character.
pub open spec fn lowercase(s: Seq<char>) -> Seq<char> {
    s.map_values(|c: char| ascii_lower(c))
}

/// `pattern` occurs in `text`.
pub open spec fn contains_seq(text: Seq<char>, pattern: Seq<char>) -> bool {
    exists|i: int| 0 <= i <= text.len() - pattern.len() && #[trigger] text.subrange(i, i + pattern.len()) == pattern
}

fn occurs_at(text: &Vec<char>, pattern: &Vec<char>, i: usize) -> (r: bool)
    requires
        i + pattern@.len() <= text@.len(),
    ensures
        r == (text@.subrange(i as int, i + pattern@.len()) == pattern@),
{
    let mut j: usize = 0;
    let tl = text.len();
    while j < pattern.len()
        invariant
            i + pattern@.len() <= text@.len(),
            tl == text@.len(),
            j <= pattern@.len(),
            forall|k: int| 0 <= k < j ==> text@[i + k] == pattern@[k],
        decreases pattern@.len() - j,
    {
        if text[i + j] != pattern[j] {
            assert(text@.subrange(i as int, i + pattern@.len())[j as int] != pattern@[j as int]);
            return false;
        }
        j = j + 1;
    }
    assert(text@.subrange(i as int, i + pattern@.len()) =~= pattern@);
    true
}

fn contains(text: &Vec<char>, pattern: &str) -> (r: bool)
    ensures
        r == contains_seq(text@, pattern@),
{
    let p = chars_of(pattern);
    if p.len() > text.len() {
        return false;
    }
    let last = text.len() - p.len();
    let mut i: usize = 0;
    loop
        invariant
            p@ == pattern@,
            last == text@.len() - p@.len(),
            i <= last,
            forall|k: int| 0 <= k < i ==> #[trigger] text@.subrange(k, k + p@.len()) != p@,
        decreases last - i,
    {
        if occurs_at(text, &p, i) {
            return true;
        }
        if i == last {
            return false;
        }
        i = i + 1;
    }
}

/// The reason a failure message points at: a timeout, a tool that could
/// not be started, a tool that exited with a failing status, else internal.
pub open spec fn classify(message: Seq<char>) -> FailedReason {
    let lower = lowercase(message);
    if contains_seq(lower, "timeout"@) {
        FailedReason::Timeout
    } else if contains_seq(lower, "could not start"@) || contains_seq(lower, "no such file"@) {
        FailedReason::MissingTool
    } else if contains_seq(lower, "exited with status"@) {
        FailedReason::ExitStatus
    } else {
        FailedReason::Internal
    }
}

pub fn classify_failure(message: &str) -> (r: FailedReason)
    ensures
        r == classify(message@),
{
    let cs = chars_of(message);
    let mut lower: Vec<char> = Vec::new();
    let mut i: usize = 0;
    while i < cs.len()
        invariant
            i <= cs@.len(),
            lower@ == cs@.take(i as int).map_values(|c: char| ascii_lower(c)),
        decreases cs@.len() - i,
    {
        lower.push(lower_char(cs[i]));
        assert(cs@.take(i as int + 1).map_values(|c: char| ascii_lower(c)) =~= cs@.take(i as int).map_values(
            |c: char| ascii_lower(c),
        ).push(ascii_lower(cs@[i as int])));
        i = i + 1;
    }
    assert(cs@.take(cs@.len() as int) =~= message@);
    assert(lower@ =~= lowercase(message@));
    if contains(&lower, "timeout") {
        FailedReason::Timeout
    } else if contains(&lower, "could not start") || contains(&lower, "no such file") {
        FailedReason::MissingTool
    } else if contains(&lower, "exited with status") {
        FailedReason::ExitStatus
    } else {
        FailedReason::Internal
    }
}

/// The message recorded for a panicking analyzer.
pub open spec fn panic_text(message: Option<String>) -> Seq<char> {
    match message {
        Some(m) => "analyzer panicked: "@ + m@,
        None => "analyzer panicked"@,
    }
}

/// The message recorded for a panicking analyzer, given the panic's own
/// message when it carried one.
pub fn panic_message(message: Option<String>) -> (r: String)
    ensures
        r@ == panic_text(message),
{
    match message {
        Some(m) => {
            let mut text = String::new();
            push_str(&mut text, "analyzer panicked: ");
            push_str(&mut text, m.as_str());
            text
        },
        None => "analyzer panicked".to_owned(),
    }
}

/// The duration recorded for a run: the analyzer's own report, unless it
/// reported zero, then the time measured around it.
pub open spec fn chosen_duration(elapsed: Duration, reported: Duration) -> Duration {
    if duration_zero(reported) {
        elapsed
    } else {
        reported
    }
}

fn duration_or(elapsed: Duration, reported: Duration) -> (r: Duration)
    ensures
        r == chosen_duration(elapsed, reported),
{
    if is_zero_duration(reported) {
        elapsed
    } else {
        reported
    }
}

/// The findings a unit contributes: those of a successful run, else none.
pub open spec fn unit_findings(u: UnitResult) -> Seq<Finding> {
    match u {
        UnitResult::Completed { result: Ok(out), .. } => out.findings@,
        _ => Seq::empty(),
    }
}

/// The outcome recorded for a unit.
pub open spec fn unit_outcome(o: ExecutionOutcome, u: UnitResult) -> bool {
    match u {
        UnitResult::Completed { result: Ok(out), elapsed } => o == ExecutionOutcome::Succeeded {
            tool_version: out.tool_version,
            duration_ms: duration_millis(chosen_duration(elapsed, out.duration)),
        },
        UnitResult::Completed { result: Err(message), elapsed } => o == ExecutionOutcome::Failed {
            reason: classify(message@),
            message,
            duration_ms: duration_millis(elapsed),
        },
        UnitResult::Panicked { message } => o matches ExecutionOutcome::Failed { reason, message: m, duration_ms }
            && reason == FailedReason::Internal && m@ == panic_text(message) && duration_ms == 0,
    }
}

/// Turns what one analyzer returned into its findings and its outcome.
/// Failures are recorded as outcomes, never as findings.
pub fn execute(result: Result<RunOutput, String>, elapsed: Duration) -> (r: (Vec<Finding>, ExecutionOutcome))
    ensures
        r.0@ == unit_findings(UnitResult::Completed { result, elapsed }),
        unit_outcome(r.1, UnitResult::Completed { result, elapsed }),
{
    match result {
        Ok(RunOutput { findings, tool_version, duration }) => {
            let outcome = ExecutionOutcome::succeeded(tool_version, duration_or(elapsed, duration));
            (findings, outcome)
        },
        Err(message) => {
            let reason = classify_failure(message.as_str());
            (Vec::new(), ExecutionOutcome::failed(reason, message, elapsed))
        },
    }
}

/// The findings of all units, unit by unit.
pub open spec fn all_findings(units: Seq<UnitResult>) -> Seq<Finding>
    decreases units.len(),
{
    if units.len() == 0 {
        Seq::empty()
    } else {
        all_findings(units.drop_last()) + unit_findings(units.last())
    }
}

/// One batch of consecutive units, `[start, end)`.
pub open spec fn batches_cover(b: Seq<(usize, usize)>, n: int, size: int) -> bool {
    &&& n == 0 <==> b.len() == 0
    &&& b.len() > 0 ==> b[0].0 == 0 && b.last().1 == n
    &&& forall|k: int| 0 <= k < b.len() - 1 ==> (#[trigger] b[k]).1 == b[k + 1].0
    &&& forall|k: int| 0 <= k < b.len() ==> 0 < (#[trigger] b[k]).1 - b[k].0 <= size
    &&& forall|k: int| 0 <= k < b.len() - 1 ==> (#[trigger] b[k]).1 - b[k].0 == size
}

/// Orchestrates analyzers and combines their results into one `Analysis`.
///
/// Execution is bounded by `concurrency` and isolated per analyzer; results
/// are merged deterministically regardless of execution order.
pub struct AnalysisEngine {
    config: EngineConfig,
}

impl AnalysisEngine {
    pub closed spec fn spec_config(&self) -> EngineConfig {
        self.config
    }

    /// The number of analyzers run at once: the configured concurrency, at
    /// least one.
    pub open spec fn batch_size(&self) -> int {
        if self.spec_config().concurrency == 0 {
            1
        } else {
            self.spec_config().concurrency as int
        }
    }

    pub fn new(config: EngineConfig) -> (r: Self)
        ensures
            r.spec_config() == config,
    {
        AnalysisEngine { config }
    }

    /// The batches in which `n` units run: consecutive ranges that cover
    /// them in order, each at most `batch_size()` long and all but the last
    /// exactly that long.
    pub fn batches(&self, n: usize) -> (r: Vec<(usize, usize)>)
        ensures
            batches_cover(r@, n as int, self.batch_size()),
    {
        let size = if self.config.concurrency == 0 {
            1
        } else {
            self.config.concurrency
        };
        let mut out: Vec<(usize, usize)> = Vec::new();
        let mut start: usize = 0;
        while start < n
            invariant
                start <= n,
                size == self.batch_size(),
                size >= 1,
                out@.len() == 0 <==> start == 0,
                out@.len() > 0 ==> out@[0].0 == 0 && out@.last().1 == start,
                forall|k: int| 0 <= k < out@.len() - 1 ==> (#[trigger] out@[k]).1 == out@[k + 1].0,
                forall|k: int| 0 <= k < out@.len() ==> 0 < (#[trigger] out@[k]).1 - out@[k].0 <= size,
                out@.len() > 0 && start < n ==> out@.last().1 - out@.last().0 == size,
                forall|k: int| 0 <= k < out@.len() - 1 ==> (#[trigger] out@[k]).1 - out@[k].0 == size,
            decreases n - start,
        {
            let end = if n - start > size {
                start + size
            } else {
                n
            };
            let ghost before = out@;
            out.push((start, end));
            proof {
                assert forall|k: int| 0 <= k < out@.len() - 1 implies (#[trigger] out@[k]).1 == out@[k + 1].0 by {
                    if k < before.len() - 1 {
                        assert(out@[k] == before[k] && out@[k + 1] == before[k + 1]);
                    }
                }
                assert forall|k: int| 0 <= k < out@.len() implies 0 < (#[trigger] out@[k]).1 - out@[k].0 <= size by {
                    if k < before.len() {
                        assert(out@[k] == before[k]);
                    }
                }
                assert forall|k: int| 0 <= k < out@.len() - 1 implies (#[trigger] out@[k]).1 - out@[k].0 == size by {
                    assert(out@[k] == before[k]);
                }
            }
            start = end;
        }
        out
    }

    /// Merges what the units produced, in unit order, into one analysis:
    /// findings sorted by rule, file, line and column; outcomes sorted by
    /// label; ties keep their unit order.
    pub fn merge(&self, results: Vec<UnitResult>) -> (r: Analysis)
        ensures
            findings_sorted(r.findings@),
            forall|i: int, j: int|
                0 <= i < j < r.findings@.len() ==> !seq_less(
                    (#[trigger] r.findings@[j]).rule_id@,
                    (#[trigger] r.findings@[i]).rule_id@,
                ) && (r.findings@[i].rule_id@ == r.findings@[j].rule_id@ ==> !seq_less(
                    r.findings@[j].location.file@,
                    r.findings@[i].location.file@,
                )),
            findings_stably_permuted(r.findings@, all_findings(results@)),
            outcomes_sorted(r.outcomes@),
            forall|i: int, j: int|
                0 <= i < j < r.outcomes@.len() ==> !((#[trigger] r.outcomes@[i]) is Succeeded && (
                #[trigger] r.outcomes@[j]) is Failed),
            exists|outcomes: Seq<ExecutionOutcome>|
                {
                    &&& outcomes.len() == results@.len()
                    &&& forall|i: int| 0 <= i < outcomes.len() ==> unit_outcome(#[trigger] outcomes[i], results@[i])
                    &&& outcomes_stably_permuted(r.outcomes@, outcomes)
                },
    {
        let ghost units = results@;
        let mut rest = results;
        let mut findings: Vec<Finding> = Vec::new();
        let mut outcomes: Vec<ExecutionOutcome> = Vec::new();
        let n = rest.len();
        let mut i: usize = 0;
        while rest.len() > 0
            invariant
                units.len() == n,
                i <= n,
                rest@ == units.skip(i as int),
                findings@ == all_findings(units.take(i as int)),
                outcomes@.len() == i,
                forall|k: int| 0 <= k < i ==> unit_outcome(#[trigger] outcomes@[k], units[k]),
            decreases rest@.len(),
        {
            assert(units.skip(i as int).len() > 0);
            let unit = rest.remove(0);
            assert(unit == units[i as int]);
            let ghost before = outcomes@;
            match unit {
                UnitResult::Completed { result, elapsed } => {
                    let (mut found, outcome) = execute(result, elapsed);
                    findings.append(&mut found);
                    outcomes.push(outcome);
                },
                UnitResult::Panicked { message } => {
                    let text = panic_message(message);
                    outcomes.push(ExecutionOutcome::failed(FailedReason::Internal, text, zero_duration()));
                },
            }
            proof {
                assert(units.take(i as int + 1).drop_last() =~= units.take(i as int));
                assert(rest@ =~= units.skip(i as int + 1));
                assert forall|k: int| 0 <= k < i + 1 implies unit_outcome(#[trigger] outcomes@[k], units[k]) by {
                    if k < i {
                        assert(outcomes@[k] == before[k]);
                    }
                }
            }
            i = i + 1;
        }
        proof {
            assert(units.take(n as int) =~= units);
        }
        let ghost collected = outcomes@;
        let sorted_findings = sort_findings(findings);
        proof {
            lemma_sorted_findings_rule_first(sorted_findings@);
        }
        let sorted_outcomes = sort_outcomes(outcomes);
        proof {
            lemma_sorted_outcomes_failures_first(sorted_outcomes@);
        }
        Analysis::new(sorted_findings, sorted_outcomes)
    }
}

/// The findings of units run one after another are those of each part.
pub proof fn lemma_all_findings_concat(a: Seq<UnitResult>, b: Seq<UnitResult>)
    ensures
        all_findings(a + b) == all_findings(a) + all_findings(b),
    decreases b.len(),
{
    if b.len() == 0 {
        assert(a + b =~= a);
        assert(all_findings(b) =~= Seq::<Finding>::empty());
        assert(all_findings(a) + all_findings(b) =~= all_findings(a));
    } else {
        lemma_all_findings_concat(a, b.drop_last());
        assert((a + b).drop_last() =~= a + b.drop_last());
        assert((a + b).last() == b.last());
        assert(all_findings(a) + all_findings(b) =~= all_findings(a) + all_findings(b.drop_last()) + unit_findings(
            b.last(),
        ));
    }
}

/// Analyzers are isolated: when one of them fails or panics, the merged
/// findings are exactly those of all the others, in the same order.
pub proof fn lemma_failure_is_isolated(units: Seq<UnitResult>, i: int, failure: UnitResult)
    requires
        0 <= i < units.len(),
        !(failure matches UnitResult::Completed { result: Ok(_), .. }),
    ensures
        all_findings(units.update(i, failure)) == all_findings(units.take(i)) + all_findings(units.skip(i + 1)),
{
    let u = units.update(i, failure);
    assert(u =~= units.take(i) + seq![failure] + units.skip(i + 1));
    lemma_all_findings_concat(units.take(i) + seq![failure], units.skip(i + 1));
    lemma_all_findings_concat(units.take(i), seq![failure]);
    assert(seq![failure].drop_last() =~= Seq::<UnitResult>::empty());
    assert(seq![failure].last() == failure);
    assert(unit_findings(failure) =~= Seq::<Finding>::empty()) by {
        match failure {
            UnitResult::Completed { result, .. } => {
                assert(result is Err);
            },
            UnitResult::Panicked { .. } => {},
        }
    }
    assert(all_findings(Seq::<UnitResult>::empty()) =~= Seq::<Finding>::empty());
    assert(all_findings(seq![failure]) =~= Seq::<Finding>::empty());
    assert(all_findings(units.take(i)) + Seq::<Finding>::empty() =~= all_findings(units.take(i)));
}

// ---------------------------------------------------------------------------
// Analyzers, and the order in which they run.
// ---------------------------------------------------------------------------

/// An analyzer that executes an external tool.
///
/// The engine treats analyzers as opaque: each analyzer returns its own
/// findings and is responsible for its own tool execution.
pub trait Analyzer: Send + Sync {
    fn info(&self) -> AnalyzerInfo;

    fn tool_requirement(&self) -> ToolRequirement;

    /// Execute the analyzer. Failures are returned as errors and recorded by
    /// the engine as execution outcomes, never as findings.
    fn run(&self, ctx: &RunContext) -> Result<RunOutput, String>;
}

/// One analyzer execution: the analyzer plus its dedicated context.
pub struct RunUnit {
    pub analyzer: Box<dyn Analyzer>,
    pub context: RunContext,
}

/// The next thing to do while running units.
#[derive(Debug, Clone, Copy, PartialEq, Eq, Structural)]
pub enum ScheduleStep {
    /// Start running this unit.
    Start { unit: usize },
    /// Wait until every unit in progress has returned.
    JoinRunning,
    /// Every unit has run and returned.
    Finish,
}

/// The step a schedule takes, and the number of units started and in
/// progress after it.
pub open spec fn schedule_next(size: nat, total: nat, next: nat, running: nat) -> (ScheduleStep, nat, nat) {
    if running < size && next < total {
        (ScheduleStep::Start { unit: next as usize }, next + 1, running + 1)
    } else if running > 0 {
        (ScheduleStep::JoinRunning, next, 0)
    } else {
        (ScheduleStep::Finish, next, running)
    }
}

/// The units started and in progress after `k` steps of a fresh schedule.
pub open spec fn schedule_state(size: nat, total: nat, k: nat) -> (nat, nat)
    decreases k,
{
    if k == 0 {
        (0, 0)
    } else {
        let prev = schedule_state(size, total, (k - 1) as nat);
        let after = schedule_next(size, total, prev.0, prev.1);
        (after.1, after.2)
    }
}

/// Steps still owed from a state: two per unit not yet started, one while
/// units are in progress.
pub open spec fn schedule_measure(total: nat, next: nat, running: nat) -> int {
    2 * (total - next) + if running > 0 {
        1int
    } else {
        0
    }
}

/// A whole run by the schedule: at no point are more than `size` units in
/// progress; and after `2 * total` steps every unit has been started and has
/// returned, so the next step finishes the run.
pub proof fn lemma_schedule_run(size: nat, total: nat, k: nat)
    requires
        size >= 1,
    ensures
        schedule_state(size, total, k).1 <= size,
        schedule_state(size, total, k).1 <= schedule_state(size, total, k).0 <= total,
        schedule_measure(total, schedule_state(size, total, k).0, schedule_state(size, total, k).1) <= if k
            <= 2 * total {
            2 * total - k
        } else {
            0
        },
        k >= 2 * total ==> schedule_state(size, total, k) == (total, 0nat),
        k >= 2 * total ==> schedule_next(
            size,
            total,
            schedule_state(size, total, k).0,
            schedule_state(size, total, k).1,
        ).0 == ScheduleStep::Finish,
    decreases k,
{
    if k > 0 {
        lemma_schedule_run(size, total, (k - 1) as nat);
    }
}

/// Runs `total` units in order, at most `size` at a time: units are started
/// until `size` are in progress (or none is left), then all in progress are
/// waited for, batch after batch.
pub struct RunSchedule {
    size: usize,
    total: usize,
    next: usize,
    running: usize,
}

impl RunSchedule {
    #[verifier::type_invariant]
    spec fn within_bounds(&self) -> bool {
        &&& 1 <= self.size
        &&& self.running <= self.size
        &&& self.running <= self.next <= self.total
    }

    /// How many units may be in progress at once.
    pub closed spec fn spec_size(&self) -> nat {
        self.size as nat
    }

    /// How many units there are.
    pub closed spec fn spec_total(&self) -> nat {
        self.total as nat
    }

    /// How many units have been started.
    pub closed spec fn spec_next(&self) -> nat {
        self.next as nat
    }

    /// How many started units have not yet been waited for.
    pub closed spec fn spec_running(&self) -> nat {
        self.running as nat
    }

    /// Steps left before the schedule finishes, at most.
    pub open spec fn remaining(&self) -> nat {
        ((self.spec_total() - self.spec_next()) * 2 + if self.spec_running() > 0 {
            1int
        } else {
            0
        }) as nat
    }

    /// A schedule for `total` units with the given concurrency (zero counts
    /// as one); nothing has started.
    pub fn new(concurrency: usize, total: usize) -> (r: Self)
        ensures
            r.spec_size() == if concurrency == 0 {
                1
            } else {
                concurrency as nat
            },
            r.spec_total() == total,
            r.spec_next() == 0,
            r.spec_running() == 0,
    {
        let size = if concurrency == 0 {
            1
        } else {
            concurrency
        };
        RunSchedule { size, total, next: 0, running: 0 }
    }

    /// How many started units have not yet been waited for: never more than
    /// the concurrency, and never more than have been started.
    pub fn in_progress(&self) -> (r: usize)
        ensures
            r == self.spec_running(),
            1 <= self.spec_size(),
            self.spec_running() <= self.spec_size(),
            self.spec_running() <= self.spec_next() <= self.spec_total(),
    {
        proof {
            use_type_invariant(self);
        }
        self.running
    }

    /// Decides the next step and records it: a unit is started while fewer
    /// than the concurrency are in progress and some are left; otherwise the
    /// units in progress are waited for; when none is in progress and none
    /// is left, the run is finished. Units start in order, each once.
    pub fn step(&mut self) -> (r: ScheduleStep)
        ensures
            final(self).spec_size() == old(self).spec_size(),
            final(self).spec_total() == old(self).spec_total(),
            final(self).spec_running() <= final(self).spec_size(),
            final(self).spec_running() <= final(self).spec_next() <= final(self).spec_total(),
            (r, final(self).spec_next(), final(self).spec_running()) == schedule_next(
                old(self).spec_size(),
                old(self).spec_total(),
                old(self).spec_next(),
                old(self).spec_running(),
            ),
            match r {
                ScheduleStep::Start { unit } => {
                    &&& unit == old(self).spec_next()
                    &&& old(self).spec_running() < old(self).spec_size()
                    &&& old(self).spec_next() < old(self).spec_total()
                    &&& final(self).spec_next() == old(self).spec_next() + 1
                    &&& final(self).spec_running() == old(self).spec_running() + 1
                },
                ScheduleStep::JoinRunning => {
                    &&& old(self).spec_running() > 0
                    &&& (old(self).spec_running() == old(self).spec_size() || old(self).spec_next()
                        == old(self).spec_total())
                    &&& final(self).spec_next() == old(self).spec_next()
                    &&& final(self).spec_running() == 0
                },
                ScheduleStep::Finish => {
                    &&& old(self).spec_running() == 0
                    &&& old(self).spec_next() == old(self).spec_total()
                    &&& final(self).spec_next() == old(self).spec_next()
                    &&& final(self).spec_running() == 0
                },
            },
            !(r is Finish) ==> final(self).remaining() < old(self).remaining(),
    {
        proof {
            use_type_invariant(&*self);
        }
        if self.running < self.size && self.next < self.total {
            let unit = self.next;
            self.next = self.next + 1;
            self.running = self.running + 1;
            ScheduleStep::Start { unit }
        } else if self.running > 0 {
            self.running = 0;
            ScheduleStep::JoinRunning
        } else {
            ScheduleStep::Finish
        }
    }
}

/// How a failure message is classified, by what it mentions, whatever the
/// letter case: a timeout wins over everything; a tool that could not be
/// started (or a missing file) over an exit status; a message that mentions
/// none of these is an internal failure.
pub proof fn lemma_classify_priorities(message: Seq<char>)
    ensures
        contains_seq(lowercase(message), "timeout"@) ==> classify(message) == FailedReason::Timeout,
        !contains_seq(lowercase(message), "timeout"@) && (contains_seq(lowercase(message), "could not start"@)
            || contains_seq(lowercase(message), "no such file"@)) ==> classify(message)
            == FailedReason::MissingTool,
        classify(message) == FailedReason::ExitStatus ==> contains_seq(lowercase(message), "exited with status"@),
        classify(message) == FailedReason::Internal ==> !contains_seq(lowercase(message), "timeout"@)
            && !contains_seq(lowercase(message), "could not start"@) && !contains_seq(
            lowercase(message),
            "no such file"@,
        ) && !contains_seq(lowercase(message), "exited with status"@),
{
}

} // verus!

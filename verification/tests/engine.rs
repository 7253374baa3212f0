use std::time::Duration;

use std::sync::atomic::{AtomicUsize, Ordering};
use std::sync::Arc;

use forge::analyzer::{AnalyzerInfo, ExecutionOutcome, FailedReason, RunContext, RunOutput, ToolRequirement};
use forge::engine::{
    classify_failure, execute, panic_message, AnalysisEngine, Analyzer, EngineConfig, RunSchedule, RunUnit,
    ScheduleStep, UnitResult,
};
use forge::finding::{Category, Finding, Location, Severity};

fn engine_finding(rule: &str, file: &str, line: u32) -> Finding {
    Finding::new(
        "fake",
        rule,
        Severity::Major,
        Category::Maintainability,
        Location { file: file.to_string(), start_line: Some(line), start_column: None, end_line: None, end_column: None },
        "message",
        None,
    )
}

fn completed(findings: Vec<Finding>) -> UnitResult {
    UnitResult::Completed {
        result: Ok(RunOutput { findings, tool_version: Some("1.0".to_string()), duration: Duration::from_millis(1) }),
        elapsed: Duration::from_millis(2),
    }
}

fn failed(message: &str) -> UnitResult {
    UnitResult::Completed { result: Err(message.to_string()), elapsed: Duration::from_millis(2) }
}

#[test]
fn merges_results_from_multiple_analyzers() {
    let engine = AnalysisEngine::new(EngineConfig { concurrency: 2, ..Default::default() });
    let results = vec![completed(vec![engine_finding("r1", "f.rs", 1)]), completed(vec![engine_finding("r0", "f.rs", 2)])];
    let analysis = engine.merge(results);
    assert_eq!(analysis.findings.len(), 2);
    assert_eq!(analysis.findings[0].rule_id, "r0");
    assert_eq!(analysis.findings[1].rule_id, "r1");
    assert_eq!(analysis.outcomes.len(), 2);
    assert!(!analysis.has_execution_failures());
}

#[test]
fn failing_analyzer_is_isolated() {
    let engine = AnalysisEngine::new(EngineConfig::default());
    let results = vec![completed(vec![engine_finding("r1", "f.rs", 1)]), failed("fake failure")];
    let analysis = engine.merge(results);
    assert_eq!(analysis.findings.len(), 1);
    assert_eq!(analysis.findings[0].rule_id, "r1");
    assert!(analysis.has_execution_failures());
}

#[test]
fn panicking_analyzer_is_recorded_as_failure() {
    let engine = AnalysisEngine::new(EngineConfig::default());
    let results = vec![UnitResult::Panicked { message: Some("boom".to_string()) }];
    let analysis = engine.merge(results);
    assert!(analysis.findings.is_empty());
    assert!(analysis.has_execution_failures());
    assert_eq!(
        analysis.outcomes[0],
        ExecutionOutcome::Failed {
            reason: FailedReason::Internal,
            message: "analyzer panicked: boom".to_string(),
            duration_ms: 0,
        }
    );
}

#[test]
fn batches_never_exceed_the_concurrency() {
    let engine = AnalysisEngine::new(EngineConfig { concurrency: 2, ..Default::default() });
    assert_eq!(engine.batches(5), vec![(0, 2), (2, 4), (4, 5)]);
    assert_eq!(engine.batches(4), vec![(0, 2), (2, 4)]);
    assert!(engine.batches(0).is_empty());
    let serial = AnalysisEngine::new(EngineConfig { concurrency: 0, ..Default::default() });
    assert_eq!(serial.batches(3), vec![(0, 1), (1, 2), (2, 3)]);
}

#[test]
fn failures_are_classified_by_message() {
    assert_eq!(classify_failure("Tool TIMEOUT after 5s"), FailedReason::Timeout);
    assert_eq!(classify_failure("could not start 'x'"), FailedReason::MissingTool);
    assert_eq!(classify_failure("No such file or directory"), FailedReason::MissingTool);
    assert_eq!(classify_failure("tool exited with status 2"), FailedReason::ExitStatus);
    assert_eq!(classify_failure("something else"), FailedReason::Internal);
}

#[test]
fn panic_messages_are_prefixed() {
    assert_eq!(panic_message(Some("boom".to_string())), "analyzer panicked: boom");
    assert_eq!(panic_message(None), "analyzer panicked");
}

#[test]
fn reported_duration_is_preferred_unless_zero() {
    let (found, outcome) = execute(
        Ok(RunOutput { findings: Vec::new(), tool_version: None, duration: Duration::ZERO }),
        Duration::from_millis(40),
    );
    assert!(found.is_empty());
    assert_eq!(outcome, ExecutionOutcome::Succeeded { tool_version: None, duration_ms: 40 });
    let (_, outcome) = execute(
        Ok(RunOutput { findings: Vec::new(), tool_version: None, duration: Duration::from_millis(9) }),
        Duration::from_millis(40),
    );
    assert_eq!(outcome, ExecutionOutcome::Succeeded { tool_version: None, duration_ms: 9 });
}

#[test]
fn merge_orders_findings_and_outcomes_deterministically() {
    let engine = AnalysisEngine::new(EngineConfig::default());
    let results = vec![
        completed(vec![engine_finding("r1", "b.rs", 3), engine_finding("r1", "a.rs", 9)]),
        failed("tool timeout"),
        completed(vec![engine_finding("r1", "a.rs", 2)]),
    ];
    let analysis = engine.merge(results);
    let keys: Vec<(String, String, Option<u32>)> = analysis
        .findings
        .iter()
        .map(|f| (f.rule_id.clone(), f.location.file.clone(), f.location.start_line))
        .collect();
    assert_eq!(
        keys,
        vec![
            ("r1".to_string(), "a.rs".to_string(), Some(2)),
            ("r1".to_string(), "a.rs".to_string(), Some(9)),
            ("r1".to_string(), "b.rs".to_string(), Some(3)),
        ]
    );
    assert!(analysis.outcomes[0].is_failed());
    assert!(!analysis.outcomes[1].is_failed());
}

#[test]
fn batches_cover_all_units_in_order() {
    let engine = AnalysisEngine::new(EngineConfig { concurrency: 2, ..Default::default() });
    let batches = engine.batches(4);
    assert!(batches.iter().all(|(start, end)| end - start <= 2));
    let covered: Vec<usize> = batches.iter().flat_map(|(start, end)| *start..*end).collect();
    assert_eq!(covered, vec![0, 1, 2, 3]);
}

struct Counting {
    runs: Arc<AtomicUsize>,
}

impl Analyzer for Counting {
    fn info(&self) -> AnalyzerInfo {
        AnalyzerInfo {
            id: "counting".to_string(),
            name: "counting".to_string(),
            description: String::new(),
            capabilities: Vec::new(),
            supported_project_types: Vec::new(),
        }
    }

    fn tool_requirement(&self) -> ToolRequirement {
        ToolRequirement { executable: "fake".to_string(), supported_version_range: None }
    }

    fn run(&self, _ctx: &RunContext) -> Result<RunOutput, String> {
        self.runs.fetch_add(1, Ordering::SeqCst);
        Ok(RunOutput { findings: Vec::new(), tool_version: None, duration: Duration::from_millis(20) })
    }
}

fn ctx() -> RunContext {
    RunContext {
        workspace_root: "/tmp".to_string(),
        executable: "fake".to_string(),
        args: Vec::new(),
        timeout: Duration::from_secs(1),
        version_command: None,
    }
}

#[test]
fn concurrency_is_bounded() {
    let runs = Arc::new(AtomicUsize::new(0));
    let units: Vec<RunUnit> = (0..4)
        .map(|_| RunUnit { analyzer: Box::new(Counting { runs: runs.clone() }), context: ctx() })
        .collect();
    let mut schedule = RunSchedule::new(2, units.len());
    let mut in_progress: Vec<usize> = Vec::new();
    let mut max_active = 0;
    let mut results = Vec::new();
    loop {
        match schedule.step() {
            ScheduleStep::Start { unit } => {
                in_progress.push(unit);
                max_active = max_active.max(in_progress.len());
            }
            ScheduleStep::JoinRunning => {
                for unit in in_progress.drain(..) {
                    results.push(units[unit].analyzer.run(&units[unit].context));
                }
            }
            ScheduleStep::Finish => break,
        }
    }
    assert!(max_active <= 2);
    assert!(in_progress.is_empty());
    assert_eq!(results.len(), 4);
    assert_eq!(runs.load(Ordering::SeqCst), 4);
    assert_eq!(units[0].analyzer.info().id, "counting");
}

#[test]
fn schedule_runs_units_in_batches_of_the_concurrency() {
    let mut schedule = RunSchedule::new(2, 5);
    let mut steps = Vec::new();
    loop {
        let step = schedule.step();
        assert!(schedule.in_progress() <= 2);
        steps.push(step);
        if step == ScheduleStep::Finish {
            break;
        }
    }
    assert_eq!(
        steps,
        vec![
            ScheduleStep::Start { unit: 0 },
            ScheduleStep::Start { unit: 1 },
            ScheduleStep::JoinRunning,
            ScheduleStep::Start { unit: 2 },
            ScheduleStep::Start { unit: 3 },
            ScheduleStep::JoinRunning,
            ScheduleStep::Start { unit: 4 },
            ScheduleStep::JoinRunning,
            ScheduleStep::Finish,
        ]
    );
    let mut serial = RunSchedule::new(0, 2);
    assert_eq!(serial.step(), ScheduleStep::Start { unit: 0 });
    assert_eq!(serial.step(), ScheduleStep::JoinRunning);
    let mut empty = RunSchedule::new(3, 0);
    assert_eq!(empty.step(), ScheduleStep::Finish);
}

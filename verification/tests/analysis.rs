use std::time::Duration;

use forge::analysis::Analysis;
use forge::analyzer::{
    finding_lines, invalid_record, process_result, start_failure, truncate, version_from_output, ExecutionOutcome,
    FailedReason, OutputFormat, PollAction, PollEvent, poll_step,
};

#[test]
fn execution_failures_detected() {
    let analysis = Analysis::new(
        Vec::new(),
        vec![ExecutionOutcome::failed(FailedReason::MissingTool, "not found".to_string(), Duration::ZERO)],
    );
    assert!(analysis.has_execution_failures());
}

#[test]
fn no_failures_when_all_succeeded() {
    let analysis = Analysis::new(Vec::new(), vec![ExecutionOutcome::succeeded(None, Duration::ZERO)]);
    assert!(!analysis.has_execution_failures());
}

#[test]
fn succeeded_is_not_failed() {
    let outcome = ExecutionOutcome::succeeded(None, Duration::from_secs(1));
    assert!(!outcome.is_failed());
}

#[test]
fn failed_is_failed() {
    let outcome =
        ExecutionOutcome::failed(FailedReason::Timeout, "tool exceeded timeout".to_string(), Duration::from_secs(5));
    assert!(outcome.is_failed());
}

#[test]
fn exit_code_format_has_no_findings() {
    let parsed = finding_lines(OutputFormat::ExitCode, "ignored output");
    assert!(parsed.is_empty());
}

#[test]
fn outcome_durations_are_recorded_in_milliseconds() {
    let outcome = ExecutionOutcome::succeeded(Some("1.2".to_string()), Duration::from_secs(2));
    assert_eq!(
        outcome,
        ExecutionOutcome::Succeeded { tool_version: Some("1.2".to_string()), duration_ms: 2000 }
    );
    let failed = ExecutionOutcome::failed(FailedReason::ExitStatus, "x".to_string(), Duration::from_millis(7));
    assert_eq!(
        failed,
        ExecutionOutcome::Failed { reason: FailedReason::ExitStatus, message: "x".to_string(), duration_ms: 7 }
    );
}

#[test]
fn json_lines_are_split_trimmed_and_blank_ones_skipped() {
    let lines = finding_lines(OutputFormat::JsonLines, "  {\"a\":1}  \n\n   \n{\"b\":2}\n");
    assert_eq!(lines, vec!["{\"a\":1}".to_string(), "{\"b\":2}".to_string()]);
    assert!(finding_lines(OutputFormat::JsonLines, "").is_empty());
    assert_eq!(finding_lines(OutputFormat::JsonLines, "x"), vec!["x".to_string()]);
}

#[test]
fn version_is_read_from_successful_output_only() {
    assert_eq!(version_from_output(true, " 1.2.3\n"), Some("1.2.3".to_string()));
    assert_eq!(version_from_output(true, "  \n"), None);
    assert_eq!(version_from_output(false, "1.2.3"), None);
}

#[test]
fn truncate_keeps_short_text_and_cuts_long_text() {
    assert_eq!(truncate("short", 10), "short");
    assert_eq!(truncate("abcdef", 3), "abc\u{2026}");
    assert_eq!(truncate("é", 1), "\u{2026}");
    assert_eq!(truncate("aé", 2), "a\u{2026}");
    assert_eq!(truncate("", 0), "");
}

#[test]
fn invalid_json_line_is_an_error() {
    let records = finding_lines(OutputFormat::JsonLines, "not-json");
    assert_eq!(records, vec!["not-json".to_string()]);
    let error = serde_json::from_str::<serde_json::Value>(&records[0]).unwrap_err();
    let err = invalid_record(&records[0], &error.to_string());
    assert!(err.contains("invalid finding line"));
    assert!(err.starts_with("invalid finding line 'not-json': "));
}

#[test]
fn failed_processes_report_their_status() {
    assert_eq!(
        process_result(OutputFormat::JsonLines, "lint", false, Some(2), "{}"),
        Err("'lint' exited with status 2".to_string())
    );
    assert_eq!(
        process_result(OutputFormat::JsonLines, "lint", false, None, ""),
        Err("'lint' exited with status -1".to_string())
    );
    assert_eq!(
        process_result(OutputFormat::ExitCode, "lint", true, Some(0), "anything"),
        Ok(Vec::new())
    );
    assert_eq!(start_failure("lint", "No such file"), "could not start 'lint': No such file");
}

#[test]
fn long_invalid_records_are_shortened() {
    let long = "x".repeat(100);
    let err = invalid_record(&long, "bad");
    assert_eq!(err, format!("invalid finding line '{}\u{2026}': bad", "x".repeat(80)));
}

#[test]
fn processes_are_killed_at_their_deadline() {
    let timeout = Duration::from_secs(5);
    assert_eq!(poll_step("lint", timeout, PollEvent::Exited), PollAction::CollectOutput);
    assert_eq!(poll_step("lint", timeout, PollEvent::Running { elapsed: Duration::from_micros(4_999_999) }), PollAction::Sleep { millis: 50 });
    assert_eq!(
        poll_step("lint", timeout, PollEvent::Running { elapsed: Duration::from_secs(5) }),
        PollAction::Kill { message: "'lint' exceeded timeout of 5s".to_string() }
    );
    assert_eq!(
        poll_step("lint", timeout, PollEvent::WaitFailed { error: "gone".to_string() }),
        PollAction::Fail { message: "could not wait for 'lint': gone".to_string() }
    );
    let short = Duration::from_micros(500);
    assert_eq!(poll_step("t", short, PollEvent::Running { elapsed: Duration::from_micros(499) }), PollAction::Sleep { millis: 50 });
    assert!(matches!(poll_step("t", short, PollEvent::Running { elapsed: short }), PollAction::Kill { .. }));
}

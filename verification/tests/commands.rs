use std::time::Duration;

use forge::analysis::Analysis;
use forge::analyze::{
    active_tools, analysis_exit_code, analyzer_for, context_for, engine_bounds, gate_message, load_error,
    parse_category, policy_from, resolve_policy, AnalysisResult,
};
use forge::analyzer::{ExecutionOutcome, FailedReason, OutputFormat};
use forge::cli::{cli_overrides, command_name, unimplemented_error, Command, FixArgs, Format, GlobalArgs, ScanArgs};
use forge::config::{PolicyConfig, ProfileConfig, ToolConfig};
use forge::context::ForgeContext;
use forge::error::ForgeError;
use forge::exit_code::ExitCode;
use forge::finding::Category;
use forge::gate::{ConditionViolation, GateDecision};
use forge::keyed::KeyedMap;
use forge::report::{
    cache_writable, cargo_manifest, check_line, check_result, doctor_exit_code, explain_lines, explain_sources,
    forge_config, gate_exit_code, gate_result, report_gate, gate_unavailable, git_repository, report, scan_result, show_config,
    version_text,
};
use forge::resolver::{CliOverrides, ConfigResolver, LayerContent, RawConfig, ResolvedConfig};
use forge::store::StoreError;

fn configured_tool(executable: &str, enabled: bool, timeout: Option<u64>) -> ToolConfig {
    ToolConfig {
        executable: executable.to_string(),
        args: vec!["--json".to_string()],
        timeout_secs: timeout,
        version_command: Some(vec!["--version".to_string()]),
        supported_version_range: Some(">=1.0".to_string()),
        enabled,
    }
}

fn resolved_with(project: RawConfig, cli: CliOverrides) -> ResolvedConfig {
    ConfigResolver::new("/ws".to_string(), None, cli).resolve(None, LayerContent::Parsed(project)).unwrap()
}

fn empty_layer() -> RawConfig {
    RawConfig {
        schema: Some(1),
        profile: None,
        offline: None,
        no_cache: None,
        fail_fast: None,
        gate_policy: None,
        profiles: KeyedMap::new(),
        tools: KeyedMap::new(),
        rules: KeyedMap::new(),
        policies: KeyedMap::new(),
    }
}

fn failing_decision() -> GateDecision {
    GateDecision::Fail {
        policy: "strict".to_string(),
        violations: vec![
            ConditionViolation { condition: "blockers".to_string(), limit: 0, actual: 2, responsible_findings: vec![] },
            ConditionViolation { condition: "major".to_string(), limit: 10, actual: 11, responsible_findings: vec![] },
        ],
    }
}

#[test]
fn categories_are_read_by_their_configuration_names() {
    assert_eq!(parse_category("security"), Some(Category::Security));
    assert_eq!(parse_category("supply-chain"), Some(Category::SupplyChain));
    assert_eq!(parse_category("supply chain"), None);
    assert_eq!(parse_category("Security"), None);
}

#[test]
fn policies_take_configured_limits_over_builtin_ones() {
    let mut categories = KeyedMap::new();
    categories.insert("security".to_string(), 2u64);
    categories.insert("unknown".to_string(), 9u64);
    categories.insert("performance".to_string(), 5u64);
    let config = PolicyConfig { max_blockers: Some(1), max_critical: None, max_major: Some(3), max_minor: None, categories };
    let policy = policy_from(&config, "team");
    assert_eq!(policy.name, "team");
    assert_eq!((policy.max_blockers, policy.max_critical, policy.max_major, policy.max_minor), (1, 0, 3, 100));
    assert_eq!(policy.categories.entries(), &[(Category::Security, 2), (Category::Performance, 5)]);
}

#[test]
fn the_gate_uses_the_selected_configured_policy() {
    let mut project = empty_layer();
    project.gate_policy = Some("team".to_string());
    project.policies.insert(
        "team".to_string(),
        PolicyConfig { max_blockers: Some(3), max_critical: None, max_major: None, max_minor: None, categories: KeyedMap::new() },
    );
    let policy = resolve_policy(&resolved_with(project, CliOverrides::default()));
    assert_eq!(policy.name, "team");
    assert_eq!(policy.max_blockers, 3);

    let mut project = empty_layer();
    project.gate_policy = Some("absent".to_string());
    let policy = resolve_policy(&resolved_with(project, CliOverrides::default()));
    assert_eq!((policy.name.as_str(), policy.max_major), ("absent", 10));

    let policy = resolve_policy(&resolved_with(empty_layer(), CliOverrides::default()));
    assert_eq!(policy.name, "default");
}

#[test]
fn bounds_come_from_the_profile_and_the_first_timeout() {
    let mut project = empty_layer();
    project.tools.insert("a".to_string(), configured_tool("a", true, None));
    project.tools.insert("b".to_string(), configured_tool("b", true, Some(30)));
    project.tools.insert("c".to_string(), configured_tool("c", true, Some(90)));
    project.profile = Some("p".to_string());
    project.profiles.insert("p".to_string(), ProfileConfig { tools: vec!["a".to_string()], concurrency: 2 });
    let (concurrency, timeout) = engine_bounds(&resolved_with(project, CliOverrides::default()));
    assert_eq!(concurrency, 2);
    assert_eq!(timeout, Duration::from_secs(30));

    let (concurrency, timeout) = engine_bounds(&resolved_with(empty_layer(), CliOverrides::default()));
    assert_eq!(concurrency, 4);
    assert_eq!(timeout, Duration::from_secs(120));

    let mut project = empty_layer();
    project.profile = Some("zero".to_string());
    project.profiles.insert("zero".to_string(), ProfileConfig { tools: vec![], concurrency: 0 });
    let (concurrency, _) = engine_bounds(&resolved_with(project, CliOverrides::default()));
    assert_eq!(concurrency, 4);
}

#[test]
fn only_enabled_tools_of_the_selected_profile_run() {
    let mut project = empty_layer();
    project.tools.insert("a".to_string(), configured_tool("a-bin", true, None));
    project.tools.insert("b".to_string(), configured_tool("b-bin", true, None));
    project.profile = Some("p".to_string());
    project.profiles.insert("p".to_string(), ProfileConfig { tools: vec!["b".to_string(), "a".to_string()], concurrency: 1 });
    project.profiles.insert("q".to_string(), ProfileConfig { tools: vec!["a".to_string()], concurrency: 1 });
    let resolved = resolved_with(project, CliOverrides::default());
    let active = active_tools(&resolved);
    let ids: Vec<&str> = active.iter().map(|(id, _)| *id).collect();
    assert_eq!(ids, vec!["b", "a"]);
    assert_eq!(active[0].1.executable, "b-bin");
    assert!(active_tools(&resolved_with(empty_layer(), CliOverrides::default())).is_empty());
}

#[test]
fn configured_tools_become_command_analyzers() {
    let t = configured_tool("semgrep", true, Some(5));
    let analyzer = analyzer_for("sg", &t);
    let info = analyzer.info();
    assert_eq!(info.id, "sg");
    assert_eq!(info.name, "sg");
    assert_eq!(info.description, "configured tool 'sg'");
    assert_eq!(analyzer.tool_requirement().executable, "semgrep");
    assert_eq!(analyzer.tool_requirement().supported_version_range, Some(">=1.0".to_string()));
    assert_eq!(analyzer.format(), OutputFormat::JsonLines);
    let context = context_for("/ws", &t, Duration::from_secs(7));
    assert_eq!(context.workspace_root, "/ws");
    assert_eq!(context.executable, "semgrep");
    assert_eq!(context.args, vec!["--json".to_string()]);
    assert_eq!(context.timeout, Duration::from_secs(7));
    assert_eq!(context.version_command, Some(vec!["--version".to_string()]));
}

#[test]
fn gate_messages_list_every_violation() {
    assert_eq!(gate_message(&GateDecision::Pass), "quality gate passed");
    assert_eq!(
        gate_message(&failing_decision()),
        "quality gate failed: policy 'strict': blockers (2/0 limit), major (11/10 limit)"
    );
}

#[test]
fn analysis_results_count_findings_and_failures() {
    let analysis = Analysis::new(
        Vec::new(),
        vec![
            ExecutionOutcome::failed(FailedReason::Timeout, "t".to_string(), Duration::ZERO),
            ExecutionOutcome::succeeded(None, Duration::ZERO),
            ExecutionOutcome::failed(FailedReason::Internal, "i".to_string(), Duration::ZERO),
        ],
    );
    let run = AnalysisResult::from_run("scan", &analysis);
    assert_eq!(run.command, "scan");
    assert_eq!(run.status, "execution-failed");
    assert_eq!(run.failed_analyzers, 2);
    assert_eq!(run.message, "0 findings");
    let gated = AnalysisResult::from_gate("scan", &failing_decision(), &analysis);
    assert_eq!(gated.status, "fail");
    assert_eq!(gated.message, gate_message(&failing_decision()));
    let clean = AnalysisResult::from_run("scan", &Analysis::new(Vec::new(), Vec::new()));
    assert_eq!(clean.status, "pass");
}

#[test]
fn execution_failure_takes_precedence_over_the_gate() {
    let failed = Analysis::new(
        Vec::new(),
        vec![ExecutionOutcome::failed(FailedReason::MissingTool, "m".to_string(), Duration::ZERO)],
    );
    let clean = Analysis::new(Vec::new(), Vec::new());
    assert_eq!(analysis_exit_code(&failed, Some(&failing_decision())), ExitCode::ToolExecution);
    assert_eq!(analysis_exit_code(&failed, None), ExitCode::ToolExecution);
    assert_eq!(analysis_exit_code(&clean, Some(&failing_decision())), ExitCode::QualityGateFailed);
    assert_eq!(analysis_exit_code(&clean, Some(&GateDecision::Pass)), ExitCode::Success);
    assert_eq!(analysis_exit_code(&clean, None), ExitCode::Success);
}

#[test]
fn a_missing_stored_analysis_is_a_usage_error() {
    let error = load_error(&StoreError::NotFound { path: "x.json".to_string() });
    assert_eq!(
        error,
        ForgeError::Usage(
            "no analysis result available (run 'forge scan' first): no analysis result at 'x.json'".to_string()
        )
    );
    assert_eq!(error.exit_code(), ExitCode::Usage);
}

#[test]
fn quality_results_are_written_as_two_lines() {
    let result = check_result();
    assert_eq!(report(&result), "check: pass\nno findings");
    let analysis = Analysis::new(Vec::new(), Vec::new());
    assert_eq!(report(&scan_result(&analysis, None)), "scan: pass\n0 findings");
    let failing = failing_decision();
    let scan = scan_result(&analysis, Some(&failing));
    assert_eq!(scan.status, "fail");
    assert_eq!(scan.message, gate_message(&failing));
    assert_eq!(
        report_gate(&failing),
        "gate: fail\nquality gate failed: policy 'strict': blockers (2/0 limit), major (11/10 limit)"
    );
    let gate = gate_result(&GateDecision::Pass);
    assert_eq!(report(&gate), "gate: pass\nquality gate passed");
    assert_eq!(gate_exit_code(Some(&GateDecision::Pass)), ExitCode::Success);
    assert_eq!(gate_exit_code(Some(&failing)), ExitCode::QualityGateFailed);
    assert_eq!(gate_exit_code(None), ExitCode::Success);
    let unavailable = gate_unavailable(&ForgeError::Usage("nothing stored".to_string()));
    assert_eq!(report(&unavailable), "gate: error\nnothing stored");
}

#[test]
fn version_line_starts_with_the_name() {
    let text = version_text(&ForgeContext::new());
    assert!(text.starts_with("forge "));
    assert_eq!(text, "forge 0.1.0");
}

#[test]
fn doctor_fails_only_on_failed_checks() {
    let checks = [git_repository(false), cargo_manifest(true), forge_config(false), cache_writable(Ok(()))];
    assert_eq!(check_line(&checks[0]), "[warn] repository: no .git directory found");
    assert_eq!(check_line(&checks[1]), "[ok] project: Cargo.toml found");
    assert_eq!(check_line(&checks[2]), "[warn] config: no forge.toml found");
    assert_eq!(check_line(&checks[3]), "[ok] cache: cache directory writable");
    assert_eq!(doctor_exit_code(&checks), ExitCode::Success);
    let broken = cache_writable(Err("read-only".to_string()));
    assert_eq!(check_line(&broken), "[fail] cache: cache directory not writable: read-only");
    assert_eq!(doctor_exit_code(&[git_repository(true), broken]), ExitCode::ToolExecution);
}

#[test]
fn configuration_is_shown_and_explained() {
    let cli = CliOverrides { offline: Some(true), ..Default::default() };
    let resolved = ConfigResolver::new("/ws".to_string(), None, cli).resolve(None, LayerContent::Absent).unwrap();
    assert_eq!(
        show_config(&resolved),
        "schema = 1\nprofile = <unset>\noffline = true\nno_cache = false\nfail_fast = false"
    );
    let sources = explain_sources(&resolved, "offline").unwrap();
    assert_eq!(explain_lines("offline", sources), "offline:\n  - built-in defaults\n  - command-line flags");
    let err = explain_sources(&resolved, "nope").unwrap_err();
    assert_eq!(err, ForgeError::Usage("unknown configuration key: nope".to_string()));

    let mut project = empty_layer();
    project.profile = Some("x".to_string());
    project.profiles.insert("x".to_string(), ProfileConfig { tools: vec![], concurrency: 1 });
    let resolved = resolved_with(project, CliOverrides::default());
    let path = std::path::Path::new("/ws").join("forge.toml").to_string_lossy().into_owned();
    let sources = explain_sources(&resolved, "profile").unwrap();
    assert_eq!(
        explain_lines("profile", sources),
        format!("profile:\n  - built-in defaults\n  - project config ({path})")
    );
}

#[test]
fn unimplemented_commands_are_usage_errors() {
    assert_eq!(command_name(&Command::Fix(FixArgs { dry_run: true })), "fix");
    assert_eq!(
        unimplemented_error(&Command::Fix(FixArgs { dry_run: false })),
        Some(ForgeError::Usage("command 'fix' is not yet implemented".to_string()))
    );
    assert!(unimplemented_error(&Command::Scan(ScanArgs { gate: true })).is_none());
    assert!(unimplemented_error(&Command::Version).is_none());
}

#[test]
fn command_line_flags_become_the_top_layer() {
    let global = GlobalArgs {
        quiet: false,
        verbose: 0,
        no_color: false,
        format: Format::Json,
        config: None,
        profile: Some("ci".to_string()),
        workspace: None,
        offline: None,
        no_cache: Some(true),
        fail_fast: None,
        timings: false,
    };
    let cli = cli_overrides(&global);
    assert_eq!(cli.profile, Some("ci".to_string()));
    assert_eq!(cli.no_cache, Some(true));
    assert_eq!(cli.offline, None);
}

use vstd::prelude::*;

use crate::analysis::Analysis;
use crate::analyze::{gate_message, gate_message_text};
use crate::config::ForgeConfigView;
use crate::context::ForgeContext;
use crate::error::{forge_error_text, ForgeError};
use crate::exit_code::ExitCode;
use crate::gate::GateDecision;
use crate::keyed::lookup;
use crate::resolver::{layer_label, LayerSource, ResolvedConfig};
use crate::text::{bool_text, decimal, join, lemma_join_push, push_bool, push_decimal, push_str};

verus! {

// ---------------------------------------------------------------------------
// Results of the quality commands.
// ---------------------------------------------------------------------------

/// The result of a quality command: which command, how it ended, how many
/// findings, and a message.
#[derive(Debug, Clone)]
pub struct QualityResult {
    pub command: &'static str,
    pub status: &'static str,
    pub findings: usize,
    pub message: String,
}

/// How a result is written on the terminal: `command: status` and the
/// message on the next line.
pub open spec fn quality_text(r: QualityResult) -> Seq<char> {
    r.command@ + ": "@ + r.status@ + "\n"@ + r.message@
}

/// The terminal text of a quality result.
pub fn report(result: &QualityResult) -> (r: String)
    ensures
        r@ == quality_text(*result),
{
    let mut text = String::new();
    push_str(&mut text, result.command);
    push_str(&mut text, ": ");
    push_str(&mut text, result.status);
    push_str(&mut text, "\n");
    push_str(&mut text, result.message.as_str());
    assert(text@ =~= quality_text(*result));
    text
}

/// The result of the fast local check: it passes with no findings.
pub fn check_result() -> (r: QualityResult)
    ensures
        r.command@ == "check"@,
        r.status@ == "pass"@,
        r.findings == 0,
        r.message@ == "no findings"@,
{
    QualityResult { command: "check", status: "pass", findings: 0, message: "no findings".to_owned() }
}

/// The status of a scan: it fails only when the quality gate was evaluated and
/// failed.
pub open spec fn scan_status_text(decision: Option<GateDecision>) -> Seq<char> {
    match decision {
        Some(d) => if d is Pass {
            "pass"@
        } else {
            "fail"@
        },
        None => "pass"@,
    }
}

pub fn scan_status(decision: Option<&GateDecision>) -> (r: &'static str)
    ensures
        r@ == scan_status_text(
            match decision {
                Some(d) => Some(*d),
                None => None,
            },
        ),
{
    match decision {
        Some(d) => if d.passed() {
            "pass"
        } else {
            "fail"
        },
        None => "pass",
    }
}

/// The message of a scan: the quality gate's message when it was evaluated, else how
/// many findings there are.
pub open spec fn scan_message_text(findings: nat, decision: Option<GateDecision>) -> Seq<char> {
    match decision {
        Some(d) => gate_message_text(d),
        None => decimal(findings) + " findings"@,
    }
}

pub fn scan_message(analysis: &Analysis, decision: Option<&GateDecision>) -> (r: String)
    ensures
        r@ == scan_message_text(
            analysis.findings@.len(),
            match decision {
                Some(d) => Some(*d),
                None => None,
            },
        ),
{
    match decision {
        Some(d) => gate_message(d),
        None => {
            let mut text = String::new();
            push_decimal(&mut text, analysis.findings.len() as u64);
            push_str(&mut text, " findings");
            text
        },
    }
}

/// The terminal result of a scan.
pub fn scan_result(analysis: &Analysis, decision: Option<&GateDecision>) -> (r: QualityResult)
    ensures
        r.command@ == "scan"@,
        r.status@ == scan_status_text(
            match decision {
                Some(d) => Some(*d),
                None => None,
            },
        ),
        r.findings == analysis.findings@.len(),
        r.message@ == scan_message_text(
            analysis.findings@.len(),
            match decision {
                Some(d) => Some(*d),
                None => None,
            },
        ),
{
    QualityResult {
        command: "scan",
        status: scan_status(decision),
        findings: analysis.findings.len(),
        message: scan_message(analysis, decision),
    }
}

/// The terminal result of a gate evaluation.
pub fn gate_result(decision: &GateDecision) -> (r: QualityResult)
    ensures
        r.command@ == "gate"@,
        r.status@ == (if *decision is Pass {
            "pass"@
        } else {
            "fail"@
        }),
        r.findings == 0,
        r.message@ == gate_message_text(*decision),
{
    QualityResult {
        command: "gate",
        status: if decision.passed() {
            "pass"
        } else {
            "fail"
        },
        findings: 0,
        message: gate_message(decision),
    }
}

/// The terminal text of a gate decision: `gate: pass` or `gate: fail`, and
/// the decision's message on the next line.
pub fn report_gate(decision: &GateDecision) -> (r: String)
    ensures
        r@ == "gate: "@ + (if *decision is Pass {
            "pass"@
        } else {
            "fail"@
        }) + "\n"@ + gate_message_text(*decision),
{
    let result = gate_result(decision);
    let text = report(&result);
    proof {
        reveal_strlit("gate: ");
        reveal_strlit("gate");
        reveal_strlit(": ");
        assert("gate"@ + ": "@ =~= "gate: "@);
        assert(text@ =~= "gate: "@ + result.status@ + "\n"@ + result.message@);
    }
    text
}

/// The result reported when the quality gate has no analysis to evaluate.
pub fn gate_unavailable(error: &ForgeError) -> (r: QualityResult)
    ensures
        r.command@ == "gate"@,
        r.status@ == "error"@,
        r.findings == 0,
        r.message@ == forge_error_text(*error),
{
    QualityResult { command: "gate", status: "error", findings: 0, message: error.message() }
}

/// The exit code of the `gate` command: a quality-gate failure when the
/// evaluated policy failed; success when it passed, and also when there was
/// no stored analysis to evaluate (that is reported as an error result, not
/// as a failed run).
pub fn gate_exit_code(decision: Option<&GateDecision>) -> (r: ExitCode)
    ensures
        r == (match decision {
            Some(d) => if *d is Pass {
                ExitCode::Success
            } else {
                ExitCode::QualityGateFailed
            },
            None => ExitCode::Success,
        }),
{
    match decision {
        Some(d) => if d.passed() {
            ExitCode::Success
        } else {
            ExitCode::QualityGateFailed
        },
        None => ExitCode::Success,
    }
}

/// The version line: the name, a space, the version.
pub fn version_text(context: &ForgeContext) -> (r: String)
    ensures
        r@ == context.name@ + " "@ + context.version@,
{
    let mut text = String::new();
    push_str(&mut text, context.name.as_str());
    push_str(&mut text, " ");
    push_str(&mut text, context.version.as_str());
    assert(text@ =~= context.name@ + " "@ + context.version@);
    text
}

// ---------------------------------------------------------------------------
// Environment diagnosis.
// ---------------------------------------------------------------------------

/// One environment check: what was checked, how it came out, and why.
#[derive(Debug, Clone)]
pub struct CheckResult {
    pub name: &'static str,
    pub status: &'static str,
    pub detail: String,
}

/// Whether the workspace is a git repository; a missing `.git` directory is
/// a warning.
pub fn git_repository(has_git_dir: bool) -> (r: CheckResult)
    ensures
        r.name@ == "repository"@,
        has_git_dir ==> r.status@ == "ok"@ && r.detail@ == "git repository detected"@,
        !has_git_dir ==> r.status@ == "warn"@ && r.detail@ == "no .git directory found"@,
{
    if has_git_dir {
        CheckResult { name: "repository", status: "ok", detail: "git repository detected".to_owned() }
    } else {
        CheckResult { name: "repository", status: "warn", detail: "no .git directory found".to_owned() }
    }
}

/// Whether the workspace has a Cargo manifest; a missing one is a warning.
pub fn cargo_manifest(has_manifest: bool) -> (r: CheckResult)
    ensures
        r.name@ == "project"@,
        has_manifest ==> r.status@ == "ok"@ && r.detail@ == "Cargo.toml found"@,
        !has_manifest ==> r.status@ == "warn"@ && r.detail@ == "no Cargo.toml found"@,
{
    if has_manifest {
        CheckResult { name: "project", status: "ok", detail: "Cargo.toml found".to_owned() }
    } else {
        CheckResult { name: "project", status: "warn", detail: "no Cargo.toml found".to_owned() }
    }
}

/// Whether the workspace has a configuration file; a missing one is a
/// warning.
pub fn forge_config(has_config: bool) -> (r: CheckResult)
    ensures
        r.name@ == "config"@,
        has_config ==> r.status@ == "ok"@ && r.detail@ == "forge.toml found"@,
        !has_config ==> r.status@ == "warn"@ && r.detail@ == "no forge.toml found"@,
{
    if has_config {
        CheckResult { name: "config", status: "ok", detail: "forge.toml found".to_owned() }
    } else {
        CheckResult { name: "config", status: "warn", detail: "no forge.toml found".to_owned() }
    }
}

/// Whether the cache directory could be created; if not, the check fails
/// with the reason.
pub fn cache_writable(created: Result<(), String>) -> (r: CheckResult)
    ensures
        r.name@ == "cache"@,
        created is Ok ==> r.status@ == "ok"@ && r.detail@ == "cache directory writable"@,
        created matches Err(e) ==> r.status@ == "fail"@ && r.detail@ == "cache directory not writable: "@ + e@,
{
    match created {
        Ok(()) => CheckResult { name: "cache", status: "ok", detail: "cache directory writable".to_owned() },
        Err(e) => {
            let mut detail = String::new();
            push_str(&mut detail, "cache directory not writable: ");
            push_str(&mut detail, e.as_str());
            CheckResult { name: "cache", status: "fail", detail }
        },
    }
}

/// How a check is written on the terminal: `[status] name: detail`.
pub open spec fn check_text(c: CheckResult) -> Seq<char> {
    "["@ + c.status@ + "] "@ + c.name@ + ": "@ + c.detail@
}

pub fn check_line(check: &CheckResult) -> (r: String)
    ensures
        r@ == check_text(*check),
{
    let mut text = String::new();
    push_str(&mut text, "[");
    push_str(&mut text, check.status);
    push_str(&mut text, "] ");
    push_str(&mut text, check.name);
    push_str(&mut text, ": ");
    push_str(&mut text, check.detail.as_str());
    assert(text@ =~= check_text(*check));
    text
}

/// The exit code of a diagnosis: a tool-execution failure when some check
/// failed, success otherwise (warnings do not fail it).
pub fn doctor_exit_code(checks: &[CheckResult]) -> (r: ExitCode)
    ensures
        (exists|i: int| 0 <= i < checks@.len() && (#[trigger] checks@[i]).status@ == "fail"@) ==> r
            == ExitCode::ToolExecution,
        (forall|i: int| 0 <= i < checks@.len() ==> (#[trigger] checks@[i]).status@ != "fail"@) ==> r
            == ExitCode::Success,
{
    let mut i: usize = 0;
    while i < checks.len()
        invariant
            i <= checks@.len(),
            forall|j: int| 0 <= j < i ==> (#[trigger] checks@[j]).status@ != "fail"@,
        decreases checks@.len() - i,
    {
        if crate::text::str_equal(checks[i].status, "fail") {
            return ExitCode::ToolExecution;
        }
        i = i + 1;
    }
    ExitCode::Success
}

// ---------------------------------------------------------------------------
// The effective configuration and where it comes from.
// ---------------------------------------------------------------------------

/// How the effective configuration is shown on the terminal.
pub open spec fn show_text(c: ForgeConfigView) -> Seq<char> {
    "schema = "@ + decimal(c.schema as nat) + "\nprofile = "@ + (match c.profile {
        Some(p) => p@,
        None => "<unset>"@,
    }) + "\noffline = "@ + bool_text(c.offline) + "\nno_cache = "@ + bool_text(c.no_cache) + "\nfail_fast = "@
        + bool_text(c.fail_fast)
}

pub fn show_config(resolved: &ResolvedConfig) -> (r: String)
    ensures
        r@ == show_text(resolved.config@),
{
    let config = &resolved.config;
    let mut text = String::new();
    push_str(&mut text, "schema = ");
    push_decimal(&mut text, config.schema as u64);
    push_str(&mut text, "\nprofile = ");
    match &config.profile {
        Some(p) => push_str(&mut text, p.as_str()),
        None => push_str(&mut text, "<unset>"),
    }
    push_str(&mut text, "\noffline = ");
    push_bool(&mut text, config.offline);
    push_str(&mut text, "\nno_cache = ");
    push_bool(&mut text, config.no_cache);
    push_str(&mut text, "\nfail_fast = ");
    push_bool(&mut text, config.fail_fast);
    assert(text@ =~= show_text(resolved.config@));
    text
}

/// The layers that set a key, or the error for a key that is not a
/// configuration key.
pub fn explain_sources<'a>(resolved: &'a ResolvedConfig, key: &str) -> (r: Result<&'a Vec<LayerSource>, ForgeError>)
    ensures
        match lookup(resolved.provenance.spec_entries(), key@) {
            Some(s) => r == Ok::<&Vec<LayerSource>, ForgeError>(&s),
            None => r matches Err(ForgeError::Usage(m)) && m@ == "unknown configuration key: "@ + key@,
        },
{
    match resolved.provenance.get(key) {
        Some(sources) => Ok(sources),
        None => {
            let mut message = String::new();
            push_str(&mut message, "unknown configuration key: ");
            push_str(&mut message, key);
            Err(ForgeError::Usage(message))
        },
    }
}

/// How one source of a key is listed: `  - layer` and its file, if any.
pub open spec fn source_line(s: LayerSource) -> Seq<char> {
    "  - "@ + layer_label(s.layer) + match s.path {
        Some(p) => " ("@ + p@ + ")"@,
        None => Seq::empty(),
    }
}

pub open spec fn source_line_fn() -> spec_fn(LayerSource) -> Seq<char> {
    |s: LayerSource| source_line(s)
}

/// How the sources of a key are shown: the key, then one line per layer.
pub open spec fn explain_text(key: Seq<char>, sources: Seq<LayerSource>) -> Seq<char> {
    key + ":\n"@ + join(sources.map_values(source_line_fn()), "\n"@)
}

fn push_source_line(text: &mut String, source: &LayerSource)
    ensures
        final(text)@ == old(text)@ + source_line(*source),
{
    push_str(text, "  - ");
    push_str(text, source.layer.label());
    match &source.path {
        Some(p) => {
            push_str(text, " (");
            push_str(text, p.as_str());
            push_str(text, ")");
        },
        None => {},
    }
    assert(final(text)@ =~= old(text)@ + source_line(*source));
}

pub fn explain_lines(key: &str, sources: &Vec<LayerSource>) -> (r: String)
    ensures
        r@ == explain_text(key@, sources@),
{
    let mut text = String::new();
    push_str(&mut text, key);
    push_str(&mut text, ":\n");
    let ghost start = text@;
    let ghost lines = sources@.map_values(source_line_fn());
    let mut i: usize = 0;
    while i < sources.len()
        invariant
            i <= sources@.len(),
            lines == sources@.map_values(source_line_fn()),
            text@ == start + join(lines.take(i as int), "\n"@),
        decreases sources@.len() - i,
    {
        proof {
            assert(lines.take(i as int + 1) =~= lines.take(i as int).push(lines[i as int]));
            lemma_join_push(lines.take(i as int), lines[i as int], "\n"@);
        }
        if i > 0 {
            push_str(&mut text, "\n");
        }
        push_source_line(&mut text, &sources[i]);
        assert(text@ =~= start + join(lines.take(i as int + 1), "\n"@));
        i = i + 1;
    }
    assert(lines.take(sources@.len() as int) =~= lines);
    assert(text@ =~= explain_text(key@, sources@));
    text
}

} // verus!

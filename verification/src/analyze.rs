use vstd::prelude::*;

use std::time::Duration;

use crate::analyzer::{duration_from_secs, duration_of_secs, CommandAnalyzer, OutputFormat, RunContext};
use crate::config::{ForgeConfigView, PolicyConfig, ProfileConfig, ToolConfig};
use crate::seqs::{first_index, lemma_filter_push, lemma_first_index_spec};
use crate::tool::opt_view;
use crate::finding::Category;
use crate::gate::{category_index, is_builtin, Policy, PolicyResolver};
use crate::keyed::{is_first_key, key_index, keys_unique, lemma_key_index, lookup, KeyedMap};
use crate::resolver::ResolvedConfig;
use crate::analysis::{any_failed, Analysis};
use crate::analyzer::{outcome_failed, ExecutionOutcome};
use crate::error::ForgeError;
use crate::exit_code::ExitCode;
use crate::gate::{ConditionViolation, GateDecision};
use crate::store::{store_error_text, StoreError};
use crate::text::{decimal, join, lemma_join_push, push_decimal, push_str, str_equal};

verus! {

// ---------------------------------------------------------------------------
// Policies from configuration.
// ---------------------------------------------------------------------------

/// The category a configuration names, by its configuration spelling.
#[verifier::opaque]
pub open spec fn category_named(name: Seq<char>) -> Option<Category> {
    if name == "security"@ {
        Some(Category::Security)
    } else if name == "reliability"@ {
        Some(Category::Reliability)
    } else if name == "maintainability"@ {
        Some(Category::Maintainability)
    } else if name == "architecture"@ {
        Some(Category::Architecture)
    } else if name == "performance"@ {
        Some(Category::Performance)
    } else if name == "supply-chain"@ {
        Some(Category::SupplyChain)
    } else {
        None
    }
}

/// Reads a category from its configuration spelling.
pub fn parse_category(name: &str) -> (r: Option<Category>)
    ensures
        r == category_named(name@),
{
    proof {
        reveal(category_named);
        reveal_strlit("security");
        reveal_strlit("reliability");
        reveal_strlit("maintainability");
        reveal_strlit("architecture");
        reveal_strlit("performance");
        reveal_strlit("supply-chain");
    }
    if str_equal(name, "security") {
        Some(Category::Security)
    } else if str_equal(name, "reliability") {
        Some(Category::Reliability)
    } else if str_equal(name, "maintainability") {
        Some(Category::Maintainability)
    } else if str_equal(name, "architecture") {
        Some(Category::Architecture)
    } else if str_equal(name, "performance") {
        Some(Category::Performance)
    } else if str_equal(name, "supply-chain") {
        Some(Category::SupplyChain)
    } else {
        None
    }
}

/// The limits after setting one: a category already limited keeps its place
/// and takes the new limit, a new one goes at the end.
pub open spec fn insert_limit(e: Seq<(Category, u64)>, c: Category, limit: u64) -> Seq<(Category, u64)> {
    if exists|i: int| 0 <= i < e.len() && (#[trigger] e[i]).0 == c {
        e.update(category_index(e, c), (c, limit))
    } else {
        e.push((c, limit))
    }
}

/// The category limits a policy configuration sets, in its order; entries
/// that name no category are skipped.
pub open spec fn limits_from(entries: Seq<(String, u64)>) -> Seq<(Category, u64)>
    decreases entries.len(),
{
    if entries.len() == 0 {
        Seq::empty()
    } else {
        let before = limits_from(entries.drop_last());
        match category_named(entries.last().0@) {
            Some(c) => insert_limit(before, c, entries.last().1),
            None => before,
        }
    }
}

/// The limit a configuration sets, or the built-in one.
pub open spec fn limit_or(set: Option<u64>, builtin: u64) -> u64 {
    match set {
        Some(v) => v,
        None => builtin,
    }
}

/// The policy a configuration describes under a name: each severity limit it
/// sets replaces the built-in one, and its categories are limited as listed.
pub open spec fn built_policy(p: Policy, config: PolicyConfig, name: Seq<char>) -> bool {
    &&& p.name@ == name
    &&& p.max_blockers == limit_or(config.max_blockers, 0)
    &&& p.max_critical == limit_or(config.max_critical, 0)
    &&& p.max_major == limit_or(config.max_major, 10)
    &&& p.max_minor == limit_or(config.max_minor, 100)
    &&& p.categories.spec_entries() == limits_from(config.categories.spec_entries())
}

/// Builds the policy a configuration describes under a name.
pub fn policy_from(config: &PolicyConfig, name: &str) -> (r: Policy)
    ensures
        built_policy(r, *config, name@),
{
    let default = Policy::default_named(name);
    let mut policy = Policy {
        name: name.to_owned(),
        max_blockers: match config.max_blockers {
            Some(v) => v,
            None => default.max_blockers,
        },
        max_critical: match config.max_critical {
            Some(v) => v,
            None => default.max_critical,
        },
        max_major: match config.max_major {
            Some(v) => v,
            None => default.max_major,
        },
        max_minor: match config.max_minor {
            Some(v) => v,
            None => default.max_minor,
        },
        categories: default.categories,
    };
    let entries = config.categories.entries();
    let mut i: usize = 0;
    while i < entries.len()
        invariant
            i <= entries@.len(),
            entries@ == config.categories.spec_entries(),
            policy.name@ == name@,
            policy.max_blockers == limit_or(config.max_blockers, 0),
            policy.max_critical == limit_or(config.max_critical, 0),
            policy.max_major == limit_or(config.max_major, 10),
            policy.max_minor == limit_or(config.max_minor, 100),
            policy.categories.spec_entries() == limits_from(entries@.take(i as int)),
        decreases entries@.len() - i,
    {
        assert(entries@.take(i as int + 1).drop_last() =~= entries@.take(i as int));
        match parse_category(entries[i].0.as_str()) {
            Some(category) => {
                policy.categories.insert(category, entries[i].1);
            },
            None => {},
        }
        i = i + 1;
    }
    assert(entries@.take(entries@.len() as int) =~= entries@);
    policy
}

/// Two entry lists with the same keys at the same places find a key at the
/// same place.
pub proof fn lemma_same_keys_index<A, B>(a: Seq<(String, A)>, b: Seq<(String, B)>, key: Seq<char>)
    requires
        a.len() == b.len(),
        forall|i: int| 0 <= i < a.len() ==> (#[trigger] a[i]).0@ == b[i].0@,
    ensures
        key_index(a, key) == key_index(b, key),
{
    lemma_key_index(a, key);
    lemma_key_index(b, key);
    let ka = key_index(a, key);
    let kb = key_index(b, key);
    if ka != -1 && kb != -1 {
        if ka < kb {
            assert(b[ka].0@ == a[ka].0@);
        } else if kb < ka {
            assert(a[kb].0@ == b[kb].0@);
        }
    } else if ka != -1 {
        assert(b[ka].0@ == a[ka].0@);
    } else if kb != -1 {
        assert(a[kb].0@ == b[kb].0@);
    }
}

/// The policy the quality gate uses: the one the configuration selects, built from its
/// configuration; the built-in policy under the selected name when none is
/// configured under it; the built-in `default` policy when none is selected.
pub open spec fn policy_resolution(r: Policy, c: ForgeConfigView) -> bool {
    match c.gate_policy {
        None => r.name@ == "default"@ && is_builtin(r),
        Some(n) => match lookup(c.policies, n@) {
            Some(pc) => built_policy(r, pc, n@),
            None => r.name@ == n@ && is_builtin(r),
        },
    }
}

/// Resolves the configured policy for gate evaluation.
pub fn resolve_policy(resolved: &ResolvedConfig) -> (r: Policy)
    ensures
        policy_resolution(r, resolved.config@),
{
    let entries = resolved.config.policies.entries();
    let mut built: Vec<(String, Policy)> = Vec::new();
    let mut i: usize = 0;
    while i < entries.len()
        invariant
            i <= entries@.len(),
            entries@ == resolved.config.policies.spec_entries(),
            built@.len() == i,
            forall|j: int|
                0 <= j < i ==> (#[trigger] built@[j]).0@ == entries@[j].0@ && built_policy(
                    built@[j].1,
                    entries@[j].1,
                    entries@[j].0@,
                ),
        decreases entries@.len() - i,
    {
        let name = entries[i].0.as_str();
        let policy = policy_from(&entries[i].1, name);
        built.push((entries[i].0.clone(), policy));
        i = i + 1;
    }
    let ghost b = built@;
    let policies = KeyedMap::from_entries(built);
    let selected: Option<&str> = match &resolved.config.gate_policy {
        Some(n) => Some(n.as_str()),
        None => None,
    };
    let r = PolicyResolver::resolve(&policies, selected);
    proof {
        if resolved.config.gate_policy is Some {
            let n = resolved.config.gate_policy->0;
            {
                lemma_same_keys_index(entries@, b, n@);
                lemma_key_index(entries@, n@);
                let k = key_index(entries@, n@);
                if k >= 0 {
                    assert(is_first_key(entries@, n@, k));
                    assert(built_policy(b[k].1, entries@[k].1, entries@[k].0@));
                }
            }
        }
    }
    r
}

// ---------------------------------------------------------------------------
// Which tools run, and within which bounds.
// ---------------------------------------------------------------------------

/// The profile the configuration selects, when it names a configured one.
pub open spec fn selected_profile(c: ForgeConfigView) -> Option<ProfileConfig> {
    match c.profile {
        None => None,
        Some(p) => lookup(c.profiles, p@),
    }
}

/// How many analyzers may run at once: the selected profile's concurrency
/// when it is positive, else four.
pub open spec fn bound_concurrency(c: ForgeConfigView) -> usize {
    match selected_profile(c) {
        Some(p) => if p.concurrency > 0 {
            p.concurrency
        } else {
            4
        },
        None => 4,
    }
}

pub open spec fn sets_timeout(tools: Seq<(String, ToolConfig)>) -> spec_fn(int) -> bool {
    |i: int| tools[i].1.timeout_secs is Some
}

/// The timeout of each run, in seconds: that of the first tool that sets one,
/// else two minutes.
pub open spec fn bound_timeout_secs(tools: Seq<(String, ToolConfig)>) -> u64 {
    let k = first_index(sets_timeout(tools), tools.len() as int);
    if k >= 0 {
        tools[k].1.timeout_secs->0
    } else {
        120
    }
}

/// The execution bounds of an analysis: how many analyzers run at once, and
/// how long each may take.
pub fn engine_bounds(resolved: &ResolvedConfig) -> (r: (usize, Duration))
    ensures
        r.0 == bound_concurrency(resolved.config@),
        r.1 == duration_of_secs(bound_timeout_secs(resolved.config@.tools)),
{
    let concurrency: usize = match &resolved.config.profile {
        Some(name) => match resolved.config.profiles.get(name.as_str()) {
            Some(profile) => if profile.concurrency > 0 {
                profile.concurrency
            } else {
                4
            },
            None => 4,
        },
        None => 4,
    };
    let tools = resolved.config.tools.entries();
    let ghost pred = sets_timeout(tools@);
    proof {
        lemma_first_index_spec(pred, tools@.len() as int);
    }
    let mut i: usize = 0;
    while i < tools.len()
        invariant
            i <= tools@.len(),
            tools@ == resolved.config.tools.spec_entries(),
            concurrency == bound_concurrency(resolved.config@),
            pred == sets_timeout(tools@),
            forall|j: int| 0 <= j < i ==> !#[trigger] pred(j),
            first_index(pred, tools@.len() as int) >= 0 ==> {
                &&& first_index(pred, tools@.len() as int) < tools@.len()
                &&& pred(first_index(pred, tools@.len() as int))
                &&& forall|j: int| 0 <= j < first_index(pred, tools@.len() as int) ==> !#[trigger] pred(j)
            },
            first_index(pred, tools@.len() as int) < 0 ==> forall|j: int|
                0 <= j < tools@.len() ==> !#[trigger] pred(j),
        decreases tools@.len() - i,
    {
        match tools[i].1.timeout_secs {
            Some(secs) => {
                assert(pred(i as int));
                let ghost k = first_index(pred, tools@.len() as int);
                assert(k == i) by {
                    if k < i as int {
                        assert(!pred(k));
                    } else if k > i as int {
                        assert(!pred(i as int));
                    }
                }
                return (concurrency, duration_from_secs(secs));
            },
            None => {
                assert(!pred(i as int));
            },
        }
        i = i + 1;
    }
    assert(first_index(pred, tools@.len() as int) < 0) by {
        if first_index(pred, tools@.len() as int) >= 0 {
            assert(!pred(first_index(pred, tools@.len() as int)));
        }
    }
    (concurrency, duration_from_secs(120))
}

/// The ids the selected profile lists, in its order.
pub open spec fn profile_tools(c: ForgeConfigView) -> Seq<String> {
    match selected_profile(c) {
        Some(p) => p.tools@,
        None => Seq::empty(),
    }
}

/// Whether an id names a configured tool that is enabled.
pub open spec fn tool_active(tools: Seq<(String, ToolConfig)>) -> spec_fn(String) -> bool {
    |id: String| lookup(tools, id@) matches Some(t) && t.enabled
}

/// The ids of the tools that run: those of the selected profile that name a
/// configured, enabled tool, in the profile's order.
pub open spec fn active_ids(c: ForgeConfigView) -> Seq<String> {
    profile_tools(c).filter(tool_active(c.tools))
}

/// Enabled tools of the active profile, each with its id. Unknown or
/// disabled tools are skipped.
pub fn active_tools(resolved: &ResolvedConfig) -> (r: Vec<(&str, &ToolConfig)>)
    ensures
        r@.len() == active_ids(resolved.config@).len(),
        forall|i: int|
            0 <= i < r@.len() ==> (#[trigger] r@[i]).0@ == active_ids(resolved.config@)[i]@ && lookup(
                resolved.config@.tools,
                r@[i].0@,
            ) == Some(*r@[i].1),
{
    let ghost c = resolved.config@;
    let mut out: Vec<(&str, &ToolConfig)> = Vec::new();
    let profile_name = match &resolved.config.profile {
        Some(name) => name,
        None => {
            return out;
        },
    };
    let profile = match resolved.config.profiles.get(profile_name.as_str()) {
        Some(profile) => profile,
        None => {
            return out;
        },
    };
    let ids = &profile.tools;
    assert(ids@ == profile_tools(c));
    let mut i: usize = 0;
    while i < ids.len()
        invariant
            i <= ids@.len(),
            c == resolved.config@,
            ids@ == profile_tools(c),
            out@.len() == ids@.take(i as int).filter(tool_active(c.tools)).len(),
            forall|j: int|
                0 <= j < out@.len() ==> (#[trigger] out@[j]).0@ == ids@.take(i as int).filter(
                    tool_active(c.tools),
                )[j]@ && lookup(c.tools, out@[j].0@) == Some(*out@[j].1),
        decreases ids@.len() - i,
    {
        let id = ids[i].as_str();
        let ghost before = out@;
        proof {
            assert(ids@.take(i as int + 1) =~= ids@.take(i as int).push(ids@[i as int]));
            lemma_filter_push(ids@.take(i as int), ids@[i as int], tool_active(c.tools));
        }
        match resolved.config.tools.get(id) {
            Some(tool) => {
                if tool.enabled {
                    out.push((id, tool));
                    proof {
                        assert forall|j: int| 0 <= j < out@.len() implies (#[trigger] out@[j]).0@
                            == ids@.take(i as int + 1).filter(tool_active(c.tools))[j]@ && lookup(
                            c.tools,
                            out@[j].0@,
                        ) == Some(*out@[j].1) by {
                            if j < before.len() {
                                assert(out@[j] == before[j]);
                            }
                        }
                    }
                }
            },
            None => {},
        }
        i = i + 1;
    }
    assert(ids@.take(ids@.len() as int) =~= ids@);
    out
}

/// The analyzer that runs a configured tool: named by the tool's id, reading
/// findings as JSON lines, bound to the tool's supported version range.
pub fn analyzer_for(tool_id: &str, tool: &ToolConfig) -> (r: CommandAnalyzer)
    ensures
        r.spec_info().id@ == tool_id@,
        r.spec_info().name@ == tool_id@,
        r.spec_info().description@ == "configured tool '"@ + tool_id@ + "'"@,
        r.spec_info().capabilities@.len() == 0,
        r.spec_info().supported_project_types@.len() == 0,
        r.spec_requirement().executable@ == tool.executable@,
        opt_view(r.spec_requirement().supported_version_range) == opt_view(tool.supported_version_range),
        r.spec_format() == OutputFormat::JsonLines,
{
    let mut description = String::new();
    push_str(&mut description, "configured tool '");
    push_str(&mut description, tool_id);
    push_str(&mut description, "'");
    let mut analyzer = CommandAnalyzer::new(
        tool_id,
        tool_id,
        description.as_str(),
        tool.executable.as_str(),
        OutputFormat::JsonLines,
    );
    match &tool.supported_version_range {
        Some(range) => {
            analyzer = analyzer.with_version_range(range.as_str());
        },
        None => {},
    }
    analyzer
}

/// The content of an optional list of texts.
pub open spec fn opt_strings(o: Option<Vec<String>>) -> Option<Seq<String>> {
    match o {
        Some(v) => Some(v@),
        None => None,
    }
}

/// The context of one run of a configured tool.
pub fn context_for(root: &str, tool: &ToolConfig, timeout: Duration) -> (r: RunContext)
    ensures
        r.workspace_root@ == root@,
        r.executable == tool.executable,
        r.args@ == tool.args@,
        r.timeout == timeout,
        opt_strings(r.version_command) == opt_strings(tool.version_command),
{
    let args = tool.args.clone();
    assert(args@ =~= tool.args@);
    let version_command = match &tool.version_command {
        Some(v) => {
            let c = v.clone();
            assert(c@ =~= v@);
            Some(c)
        },
        None => None,
    };
    RunContext {
        workspace_root: root.to_owned(),
        executable: tool.executable.clone(),
        args,
        timeout,
        version_command,
    }
}

// ---------------------------------------------------------------------------
// Reporting an analysis.
// ---------------------------------------------------------------------------

/// How a violated condition is reported: `condition (actual/limit limit)`.
pub open spec fn violation_reason(v: ConditionViolation) -> Seq<char> {
    v.condition@ + " ("@ + decimal(v.actual as nat) + "/"@ + decimal(v.limit as nat) + " limit)"@
}

pub open spec fn reason_fn() -> spec_fn(ConditionViolation) -> Seq<char> {
    |v: ConditionViolation| violation_reason(v)
}

/// The message of a gate decision: that it passed, or the policy that failed
/// and every violated condition, in order.
pub open spec fn gate_message_text(d: GateDecision) -> Seq<char> {
    match d {
        GateDecision::Pass => "quality gate passed"@,
        GateDecision::Fail { policy, violations } => "quality gate failed: policy '"@ + policy@ + "': "@
            + join(violations@.map_values(reason_fn()), ", "@),
    }
}

fn push_reason(text: &mut String, v: &ConditionViolation)
    ensures
        final(text)@ == old(text)@ + violation_reason(*v),
{
    push_str(text, v.condition.as_str());
    push_str(text, " (");
    push_decimal(text, v.actual);
    push_str(text, "/");
    push_decimal(text, v.limit);
    push_str(text, " limit)");
    assert(final(text)@ =~= old(text)@ + violation_reason(*v));
}

/// The message of a gate decision.
pub fn gate_message(decision: &GateDecision) -> (r: String)
    ensures
        r@ == gate_message_text(*decision),
{
    let mut text = String::new();
    match decision {
        GateDecision::Pass => {
            push_str(&mut text, "quality gate passed");
        },
        GateDecision::Fail { policy, violations } => {
            push_str(&mut text, "quality gate failed: policy '");
            push_str(&mut text, policy.as_str());
            push_str(&mut text, "': ");
            let ghost start = text@;
            let ghost reasons = violations@.map_values(reason_fn());
            let mut i: usize = 0;
            while i < violations.len()
                invariant
                    i <= violations@.len(),
                    reasons == violations@.map_values(reason_fn()),
                    text@ == start + join(reasons.take(i as int), ", "@),
                decreases violations@.len() - i,
            {
                proof {
                    assert(reasons.take(i as int + 1) =~= reasons.take(i as int).push(reasons[i as int]));
                    lemma_join_push(reasons.take(i as int), reasons[i as int], ", "@);
                }
                if i > 0 {
                    push_str(&mut text, ", ");
                }
                push_reason(&mut text, &violations[i]);
                assert(text@ =~= start + join(reasons.take(i as int + 1), ", "@));
                i = i + 1;
            }
            assert(reasons.take(violations@.len() as int) =~= reasons);
        },
    }
    assert(text@ =~= gate_message_text(*decision));
    text
}

pub open spec fn is_failed_outcome() -> spec_fn(ExecutionOutcome) -> bool {
    |o: ExecutionOutcome| outcome_failed(o)
}

/// How many analyzer executions failed.
pub open spec fn failed_count(outcomes: Seq<ExecutionOutcome>) -> nat {
    outcomes.filter(is_failed_outcome()).len()
}

fn count_failed(outcomes: &Vec<ExecutionOutcome>) -> (r: usize)
    ensures
        r == failed_count(outcomes@),
{
    let mut count: usize = 0;
    let mut i: usize = 0;
    while i < outcomes.len()
        invariant
            i <= outcomes@.len(),
            count == failed_count(outcomes@.take(i as int)),
            count <= i,
        decreases outcomes@.len() - i,
    {
        proof {
            assert(outcomes@.take(i as int + 1) =~= outcomes@.take(i as int).push(outcomes@[i as int]));
            lemma_filter_push(outcomes@.take(i as int), outcomes@[i as int], is_failed_outcome());
        }
        if outcomes[i].is_failed() {
            count = count + 1;
        }
        i = i + 1;
    }
    assert(outcomes@.take(outcomes@.len() as int) =~= outcomes@);
    count
}

/// Result of a gated command, as reported in structured output.
#[derive(Debug, Clone)]
pub struct AnalysisResult {
    pub command: &'static str,
    pub status: String,
    pub findings: usize,
    pub failed_analyzers: usize,
    pub message: String,
}

impl AnalysisResult {
    /// The result of an analysis run without a gate.
    pub fn from_run(command: &'static str, analysis: &Analysis) -> (r: Self)
        ensures
            r.command == command,
            r.status@ == (if any_failed(analysis.outcomes@) {
                "execution-failed"@
            } else {
                "pass"@
            }),
            r.findings == analysis.findings@.len(),
            r.failed_analyzers == failed_count(analysis.outcomes@),
            r.message@ == decimal(analysis.findings@.len()) + " findings"@,
    {
        let status = if analysis.has_execution_failures() {
            "execution-failed".to_owned()
        } else {
            "pass".to_owned()
        };
        let mut message = String::new();
        push_decimal(&mut message, analysis.findings.len() as u64);
        push_str(&mut message, " findings");
        AnalysisResult {
            command,
            status,
            findings: analysis.findings.len(),
            failed_analyzers: count_failed(&analysis.outcomes),
            message,
        }
    }

    /// The result of an analysis run judged by the quality gate.
    pub fn from_gate(command: &'static str, decision: &GateDecision, analysis: &Analysis) -> (r: Self)
        ensures
            r.command == command,
            r.status@ == (if *decision is Pass {
                "pass"@
            } else {
                "fail"@
            }),
            r.findings == analysis.findings@.len(),
            r.failed_analyzers == failed_count(analysis.outcomes@),
            r.message@ == gate_message_text(*decision),
    {
        let status = if decision.passed() {
            "pass".to_owned()
        } else {
            "fail".to_owned()
        };
        AnalysisResult {
            command,
            status,
            findings: analysis.findings.len(),
            failed_analyzers: count_failed(&analysis.outcomes),
            message: gate_message(decision),
        }
    }
}

/// The exit code of a completed analysis: an execution failure comes first,
/// then a failed gate; otherwise success.
pub open spec fn analysis_exit(execution_failed: bool, gate_passed: Option<bool>) -> ExitCode {
    if execution_failed {
        ExitCode::ToolExecution
    } else if gate_passed == Some(false) {
        ExitCode::QualityGateFailed
    } else {
        ExitCode::Success
    }
}

/// Exit code for a completed analysis: 0 success, 1 gate failure, 3
/// execution failure.
pub fn analysis_exit_code(analysis: &Analysis, decision: Option<&GateDecision>) -> (r: ExitCode)
    ensures
        r == analysis_exit(
            any_failed(analysis.outcomes@),
            match decision {
                Some(d) => Some(*d is Pass),
                None => None,
            },
        ),
{
    if analysis.has_execution_failures() {
        return ExitCode::ToolExecution;
    }
    match decision {
        Some(d) => {
            if !d.passed() {
                return ExitCode::QualityGateFailed;
            }
        },
        None => {},
    }
    ExitCode::Success
}

/// The error reported when no stored analysis can be read for the quality gate.
pub fn load_error(error: &StoreError) -> (r: ForgeError)
    ensures
        r matches ForgeError::Usage(m) && m@ == "no analysis result available (run 'forge scan' first): "@
            + store_error_text(*error),
{
    let mut message = String::new();
    push_str(&mut message, "no analysis result available (run 'forge scan' first): ");
    let text = error.message();
    push_str(&mut message, text.as_str());
    ForgeError::Usage(message)
}

/// An execution failure decides the exit code whatever the quality gate said; a
/// failed gate decides it when every analyzer ran; only a clean run that
/// passed (or was not gated) succeeds.
pub proof fn lemma_exit_code_precedence(execution_failed: bool, gate_passed: Option<bool>)
    ensures
        execution_failed ==> analysis_exit(execution_failed, gate_passed) == ExitCode::ToolExecution,
        !execution_failed && gate_passed == Some(false) ==> analysis_exit(execution_failed, gate_passed)
            == ExitCode::QualityGateFailed,
        analysis_exit(execution_failed, gate_passed) == ExitCode::Success <==> !execution_failed && gate_passed
            != Some(false),
{
}

/// Each severity limit a policy configuration sets is the built policy's
/// limit; an unset one is the built-in limit (no blockers, no critical
/// findings, ten major, a hundred minor). The policy takes the given name.
pub proof fn lemma_policy_takes_configured_limits(p: Policy, config: PolicyConfig, name: Seq<char>)
    requires
        built_policy(p, config, name),
    ensures
        p.name@ == name,
        config.max_blockers matches Some(v) ==> p.max_blockers == v,
        config.max_critical matches Some(v) ==> p.max_critical == v,
        config.max_major matches Some(v) ==> p.max_major == v,
        config.max_minor matches Some(v) ==> p.max_minor == v,
        config.max_blockers is None ==> p.max_blockers == 0,
        config.max_critical is None ==> p.max_critical == 0,
        config.max_major is None ==> p.max_major == 10,
        config.max_minor is None ==> p.max_minor == 100,
{
}

/// Different spellings name different categories.
proof fn lemma_category_named_injective(a: Seq<char>, b: Seq<char>)
    requires
        category_named(a) is Some,
        category_named(a) == category_named(b),
    ensures
        a == b,
{
    reveal(category_named);
}

/// Where a category occurs, its first occurrence is found.
proof fn lemma_category_index_found(e: Seq<(Category, u64)>, c: Category, i: int)
    requires
        0 <= i < e.len(),
        e[i].0 == c,
    ensures
        0 <= category_index(e, c) < e.len(),
        e[category_index(e, c)].0 == c,
    decreases i,
{
    if exists|j: int| 0 <= j < i && (#[trigger] e[j]).0 == c {
        let j = choose|j: int| 0 <= j < i && (#[trigger] e[j]).0 == c;
        lemma_category_index_found(e, c, j);
    } else {
        assert(0 <= i < e.len() && (#[trigger] e[i]).0 == c && forall|j: int| 0 <= j < i ==> (#[trigger] e[j]).0 != c);
    }
}

/// What setting one limit does: the category ends up with the new limit,
/// every other category keeps its entry in place, and nothing else appears.
proof fn lemma_insert_limit_facts(before: Seq<(Category, u64)>, c: Category, v: u64)
    ensures
        insert_limit(before, c, v).len() >= before.len(),
        insert_limit(before, c, v).contains((c, v)),
        forall|j: int| 0 <= j < before.len() && before[j].0 != c ==> #[trigger] insert_limit(before, c, v)[j] == before[j],
        forall|m: int|
            0 <= m < insert_limit(before, c, v).len() ==> #[trigger] insert_limit(before, c, v)[m] == (c, v) || (m
                < before.len() && insert_limit(before, c, v)[m] == before[m]),
{
    let after = insert_limit(before, c, v);
    if exists|i: int| 0 <= i < before.len() && (#[trigger] before[i]).0 == c {
        let i = choose|i: int| 0 <= i < before.len() && (#[trigger] before[i]).0 == c;
        lemma_category_index_found(before, c, i);
        let idx = category_index(before, c);
        assert(0 <= idx < before.len() && before[idx].0 == c);
        assert(after[idx] == (c, v));
    } else {
        assert(after[before.len() as int] == (c, v));
    }
}

/// Every category limit a configuration sets (each category named once) is
/// a limit of the built policy.
pub proof fn lemma_policy_takes_configured_categories(entries: Seq<(String, u64)>)
    requires
        keys_unique(entries),
    ensures
        forall|k: int|
            0 <= k < entries.len() && (#[trigger] category_named(entries[k].0@)) is Some ==> limits_from(
                entries,
            ).contains((category_named(entries[k].0@)->0, entries[k].1)),
    decreases entries.len(),
{
    if entries.len() > 0 {
        let init = entries.drop_last();
        let last = entries.last();
        assert(keys_unique(init)) by {
            assert forall|i: int, j: int|
                0 <= i < init.len() && 0 <= j < init.len() && i != j implies (#[trigger] init[i]).0@
                != (#[trigger] init[j]).0@ by {
                assert(init[i] == entries[i] && init[j] == entries[j]);
            }
        }
        lemma_policy_takes_configured_categories(init);
        let before = limits_from(init);
        let after = limits_from(entries);
        assert forall|k: int|
            0 <= k < entries.len() && (#[trigger] category_named(entries[k].0@)) is Some implies after.contains(
            (category_named(entries[k].0@)->0, entries[k].1),
        ) by {
            let ck = category_named(entries[k].0@)->0;
            match category_named(last.0@) {
                None => {
                    assert(k < init.len());
                    assert(init[k] == entries[k]);
                    assert(category_named(init[k].0@) is Some);
                    assert(after == before);
                },
                Some(c) => {
                    lemma_insert_limit_facts(before, c, last.1);
                    assert(after == insert_limit(before, c, last.1));
                    if k == entries.len() - 1 {
                        assert(entries[k] == last);
                        assert(after.contains((c, last.1)));
                    } else {
                        assert(init[k] == entries[k]);
                        assert(category_named(init[k].0@) is Some);
                        assert(before.contains((ck, entries[k].1)));
                        let j = choose|j: int| 0 <= j < before.len() && before[j] == (ck, entries[k].1);
                        assert(entries[k].0@ != entries[entries.len() - 1].0@);
                        if ck == c {
                            lemma_category_named_injective(entries[k].0@, last.0@);
                        }
                        assert(insert_limit(before, c, last.1)[j] == before[j]);
                        assert(after[j] == (ck, entries[k].1));
                    }
                },
            }
        }
    }
}

/// Every limit of the built policy is one that the configuration sets.
pub proof fn lemma_policy_categories_come_from_config(entries: Seq<(String, u64)>)
    ensures
        forall|m: int|
            0 <= m < limits_from(entries).len() ==> exists|k: int|
                0 <= k < entries.len() && category_named(entries[k].0@) == Some(
                    (#[trigger] limits_from(entries)[m]).0,
                ) && entries[k].1 == limits_from(entries)[m].1,
    decreases entries.len(),
{
    if entries.len() > 0 {
        let init = entries.drop_last();
        let last = entries.last();
        lemma_policy_categories_come_from_config(init);
        let before = limits_from(init);
        let after = limits_from(entries);
        assert forall|m: int| 0 <= m < after.len() implies exists|k: int|
            0 <= k < entries.len() && category_named(entries[k].0@) == Some((#[trigger] after[m]).0)
                && entries[k].1 == after[m].1 by {
            match category_named(last.0@) {
                None => {
                    let k = choose|k: int|
                        0 <= k < init.len() && category_named(init[k].0@) == Some((#[trigger] before[m]).0)
                            && init[k].1 == before[m].1;
                    assert(init[k] == entries[k]);
                },
                Some(c) => {
                    lemma_insert_limit_facts(before, c, last.1);
                    assert(after == insert_limit(before, c, last.1));
                    if after[m] == (c, last.1) {
                        assert(entries[entries.len() - 1] == last);
                    } else {
                        assert(after[m] == before[m]);
                        let k = choose|k: int|
                            0 <= k < init.len() && category_named(init[k].0@) == Some((#[trigger] before[m]).0)
                                && init[k].1 == before[m].1;
                        assert(init[k] == entries[k]);
                    }
                },
            }
        }
    }
}

} // verus!

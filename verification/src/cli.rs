use vstd::prelude::*;

use crate::error::ForgeError;
use crate::resolver::CliOverrides;
use crate::text::push_str;

verus! {

/// The parsed command line: options shared by every command, and the command.
#[derive(Debug)]
pub struct Cli {
    pub global: GlobalArgs,
    pub command: Command,
}

/// Options accepted by every command.
#[derive(Debug, Clone)]
pub struct GlobalArgs {
    /// Reduce output to errors only.
    pub quiet: bool,
    /// Verbosity; each repetition of the flag adds one.
    pub verbose: u8,
    /// Disable colored output.
    pub no_color: bool,
    /// Output format.
    pub format: Format,
    /// Path to the configuration file.
    pub config: Option<String>,
    /// Analysis profile to use.
    pub profile: Option<String>,
    /// Workspace root directory.
    pub workspace: Option<String>,
    /// Do not access the network.
    pub offline: Option<bool>,
    /// Disable the analysis cache.
    pub no_cache: Option<bool>,
    /// Stop after the first failure.
    pub fail_fast: Option<bool>,
    /// Report command timings.
    pub timings: bool,
}

/// How results are written.
#[derive(Debug, Clone, Copy, PartialEq, Eq, Structural)]
pub enum Format {
    Terminal,
    Json,
}

#[derive(Debug)]
pub enum Command {
    /// Initialize in a repository.
    Init,
    /// Fast local quality check.
    Check,
    /// Full analysis.
    Scan(ScanArgs),
    /// Evaluate quality gate.
    Gate,
    /// Manage rules and rule packs.
    Rules(RulesArgs),
    /// Manage integrated analyzers.
    Tools(ToolsArgs),
    /// Manage analysis profiles.
    Profile(ProfileArgs),
    /// Manage quality policies.
    Policy(PolicyArgs),
    /// Manage existing technical debt.
    Baseline(BaselineArgs),
    /// Explain a finding or rule.
    Explain(ExplainArgs),
    /// Apply supported automatic fixes.
    Fix(FixArgs),
    /// Generate reports.
    Report(ReportArgs),
    /// Analyze changes.
    Diff(DiffArgs),
    /// Inspect effective configuration.
    Config(ConfigArgs),
    /// Diagnose the environment.
    Doctor,
    /// Manage the analysis cache.
    Cache(CacheArgs),
    /// Print version information.
    Version,
}

#[derive(Debug, Clone, Copy)]
pub struct ScanArgs {
    /// Evaluate the quality gate after scanning.
    pub gate: bool,
}

#[derive(Debug, Clone)]
pub struct RulesArgs {
    pub command: RulesCommand,
}

#[derive(Debug, Clone)]
pub enum RulesCommand {
    /// List available rules.
    List,
    /// Explain a rule.
    Explain { rule: String },
}

#[derive(Debug, Clone, Copy)]
pub struct ToolsArgs {
    pub command: ToolsCommand,
}

#[derive(Debug, Clone, Copy)]
pub enum ToolsCommand {
    /// List integrated tools.
    List,
    /// Diagnose tool environment.
    Doctor,
}

#[derive(Debug, Clone)]
pub struct ProfileArgs {
    pub command: ProfileCommand,
}

#[derive(Debug, Clone)]
pub enum ProfileCommand {
    /// List analysis profiles.
    List,
    /// Show a profile.
    Show { name: String },
}

#[derive(Debug, Clone)]
pub struct PolicyArgs {
    pub command: PolicyCommand,
}

#[derive(Debug, Clone)]
pub enum PolicyCommand {
    /// List quality policies.
    List,
    /// Show a policy.
    Show { name: String },
}

#[derive(Debug, Clone, Copy)]
pub struct BaselineArgs {
    pub command: BaselineCommand,
}

#[derive(Debug, Clone, Copy)]
pub enum BaselineCommand {
    /// Record current findings as the baseline.
    Create,
    /// Show the current baseline.
    Show,
    /// Update the baseline.
    Update,
    /// Clear the baseline.
    Clear,
}

#[derive(Debug, Clone)]
pub struct ExplainArgs {
    /// Finding or rule identifier.
    pub target: String,
}

#[derive(Debug, Clone, Copy)]
pub struct FixArgs {
    /// Show available fixes without applying them.
    pub dry_run: bool,
}

#[derive(Debug, Clone, Copy)]
pub struct ReportArgs {
    pub command: ReportCommand,
}

#[derive(Debug, Clone, Copy)]
pub enum ReportCommand {
    /// Generate a report from the last analysis.
    Generate,
}

#[derive(Debug, Clone)]
pub struct DiffArgs {
    /// Base revision to compare against.
    pub base: Option<String>,
}

#[derive(Debug, Clone)]
pub struct ConfigArgs {
    pub command: ConfigCommand,
}

#[derive(Debug, Clone)]
pub enum ConfigCommand {
    /// Show the effective configuration.
    Show,
    /// Explain where a configuration value comes from.
    Explain { key: String },
}

#[derive(Debug, Clone, Copy)]
pub struct CacheArgs {
    pub command: CacheCommand,
}

#[derive(Debug, Clone, Copy)]
pub enum CacheCommand {
    /// Show cache status.
    Status,
    /// Clear the cache.
    Clear,
    /// Prune stale cache entries.
    Prune,
}

/// The name of a command as typed on the command line.
pub open spec fn command_label(command: Command) -> Seq<char> {
    match command {
        Command::Init => "init"@,
        Command::Check => "check"@,
        Command::Scan(_) => "scan"@,
        Command::Gate => "gate"@,
        Command::Rules(_) => "rules"@,
        Command::Tools(_) => "tools"@,
        Command::Profile(_) => "profile"@,
        Command::Policy(_) => "policy"@,
        Command::Baseline(_) => "baseline"@,
        Command::Explain(_) => "explain"@,
        Command::Fix(_) => "fix"@,
        Command::Report(_) => "report"@,
        Command::Diff(_) => "diff"@,
        Command::Config(_) => "config"@,
        Command::Doctor => "doctor"@,
        Command::Cache(_) => "cache"@,
        Command::Version => "version"@,
    }
}

/// Whether a command has a handler.
pub open spec fn is_implemented(command: Command) -> bool {
    match command {
        Command::Check | Command::Scan(_) | Command::Gate | Command::Doctor | Command::Version
        | Command::Init | Command::Config(_) => true,
        _ => false,
    }
}

/// The name of a command as typed on the command line.
pub fn command_name(command: &Command) -> (r: &'static str)
    ensures
        r@ == command_label(*command),
{
    match command {
        Command::Init => "init",
        Command::Check => "check",
        Command::Scan(_) => "scan",
        Command::Gate => "gate",
        Command::Rules(_) => "rules",
        Command::Tools(_) => "tools",
        Command::Profile(_) => "profile",
        Command::Policy(_) => "policy",
        Command::Baseline(_) => "baseline",
        Command::Explain(_) => "explain",
        Command::Fix(_) => "fix",
        Command::Report(_) => "report",
        Command::Diff(_) => "diff",
        Command::Config(_) => "config",
        Command::Doctor => "doctor",
        Command::Cache(_) => "cache",
        Command::Version => "version",
    }
}

/// The refusal of a command that has no handler yet: a usage error naming
/// it. Commands with a handler get none.
pub fn unimplemented_error(command: &Command) -> (r: Option<ForgeError>)
    ensures
        is_implemented(*command) ==> r is None,
        !is_implemented(*command) ==> (r matches Some(ForgeError::Usage(m)) && m@ == "command '"@
            + command_label(*command) + "' is not yet implemented"@),
{
    match command {
        Command::Check | Command::Scan(_) | Command::Gate | Command::Doctor | Command::Version
        | Command::Init | Command::Config(_) => None,
        _ => {
            let mut message = String::new();
            push_str(&mut message, "command '");
            push_str(&mut message, command_name(command));
            push_str(&mut message, "' is not yet implemented");
            Some(ForgeError::Usage(message))
        },
    }
}

/// The command-line layer of the configuration: the flags given.
pub fn cli_overrides(global: &GlobalArgs) -> (r: CliOverrides)
    ensures
        r.profile == global.profile,
        r.offline == global.offline,
        r.no_cache == global.no_cache,
        r.fail_fast == global.fail_fast,
{
    CliOverrides {
        profile: match &global.profile {
            Some(p) => Some(p.clone()),
            None => None,
        },
        offline: global.offline,
        no_cache: global.no_cache,
        fail_fast: global.fail_fast,
    }
}

} // verus!

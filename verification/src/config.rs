use vstd::prelude::*;

use crate::keyed::KeyedMap;

verus! {

/// The only schema version understood.
pub const SUPPORTED_SCHEMA_VERSION: u32 = 1;

/// Effective configuration.
///
/// `schema` is required in a configuration file; every other field falls back
/// to the built-in default when absent from a layer.
#[derive(Debug, Clone, PartialEq, Eq)]
pub struct ForgeConfig {
    pub schema: u32,
    pub profile: Option<String>,
    pub offline: bool,
    pub no_cache: bool,
    pub fail_fast: bool,
    pub gate_policy: Option<String>,
    pub profiles: KeyedMap<ProfileConfig>,
    pub tools: KeyedMap<ToolConfig>,
    pub rules: KeyedMap<RuleConfig>,
    pub policies: KeyedMap<PolicyConfig>,
}

/// The mathematical content of a configuration: its scalar settings and the
/// entries of its named tables, in order.
pub struct ForgeConfigView {
    pub schema: u32,
    pub profile: Option<String>,
    pub offline: bool,
    pub no_cache: bool,
    pub fail_fast: bool,
    pub gate_policy: Option<String>,
    pub profiles: Seq<(String, ProfileConfig)>,
    pub tools: Seq<(String, ToolConfig)>,
    pub rules: Seq<(String, RuleConfig)>,
    pub policies: Seq<(String, PolicyConfig)>,
}

impl View for ForgeConfig {
    type V = ForgeConfigView;

    open spec fn view(&self) -> ForgeConfigView {
        ForgeConfigView {
            schema: self.schema,
            profile: self.profile,
            offline: self.offline,
            no_cache: self.no_cache,
            fail_fast: self.fail_fast,
            gate_policy: self.gate_policy,
            profiles: self.profiles.spec_entries(),
            tools: self.tools.spec_entries(),
            rules: self.rules.spec_entries(),
            policies: self.policies.spec_entries(),
        }
    }
}

/// The built-in defaults: schema 1, no profile or gate policy, every flag off,
/// every table empty.
pub open spec fn default_config() -> ForgeConfigView {
    ForgeConfigView {
        schema: 1,
        profile: None,
        offline: false,
        no_cache: false,
        fail_fast: false,
        gate_policy: None,
        profiles: Seq::empty(),
        tools: Seq::empty(),
        rules: Seq::empty(),
        policies: Seq::empty(),
    }
}

/// A named analysis profile selecting tools and execution bounds.
#[derive(Debug, Clone, PartialEq, Eq)]
pub struct ProfileConfig {
    pub tools: Vec<String>,
    pub concurrency: usize,
}

/// The concurrency of a profile that does not set one.
pub fn default_concurrency() -> (r: usize)
    ensures
        r == 4,
{
    4
}

/// Configuration for an external tool.
#[derive(Debug, Clone, PartialEq, Eq)]
pub struct ToolConfig {
    pub executable: String,
    pub args: Vec<String>,
    pub timeout_secs: Option<u64>,
    pub version_command: Option<Vec<String>>,
    pub supported_version_range: Option<String>,
    pub enabled: bool,
}

/// Per-rule enablement and severity override.
#[derive(Debug, Clone, PartialEq, Eq)]
pub struct RuleConfig {
    pub enabled: bool,
    pub severity: Option<String>,
}

/// A quality policy with severity and category thresholds.
#[derive(Debug, Clone, PartialEq, Eq)]
pub struct PolicyConfig {
    pub max_blockers: Option<u64>,
    pub max_critical: Option<u64>,
    pub max_major: Option<u64>,
    pub max_minor: Option<u64>,
    pub categories: KeyedMap<u64>,
}

/// The value of flags that default to on (a tool's or a rule's `enabled`).
pub fn default_true() -> (r: bool)
    ensures
        r,
{
    true
}

impl Default for ForgeConfig {
    fn default() -> (r: Self)
        ensures
            r@ == default_config(),
    {
        ForgeConfig {
            schema: SUPPORTED_SCHEMA_VERSION,
            profile: None,
            offline: false,
            no_cache: false,
            fail_fast: false,
            gate_policy: None,
            profiles: KeyedMap::new(),
            tools: KeyedMap::new(),
            rules: KeyedMap::new(),
            policies: KeyedMap::new(),
        }
    }
}

} // verus!

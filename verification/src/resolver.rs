use vstd::prelude::*;

use crate::config::{
    default_config, ForgeConfig, ForgeConfigView, PolicyConfig, ProfileConfig, RuleConfig, ToolConfig,
    SUPPORTED_SCHEMA_VERSION,
};
use crate::config_error::{ConfigError, ConfigErrorView};
use crate::keyed::{lookup, KeyedMap};
use crate::seqs::{first_index, lemma_first_index, lemma_first_index_none};
use crate::text::{blank, decimal, is_blank, join_path, joined_path, push_decimal, push_str};

verus! {

/// A configuration layer, from lowest to highest precedence.
#[derive(Debug, Clone, Copy, PartialEq, Eq, Structural)]
pub enum Layer {
    Defaults,
    Global,
    Project,
    Cli,
}

pub open spec fn layer_label(l: Layer) -> Seq<char> {
    match l {
        Layer::Defaults => "built-in defaults"@,
        Layer::Global => "global user config"@,
        Layer::Project => "project config"@,
        Layer::Cli => "command-line flags"@,
    }
}

impl Layer {
    pub fn label(self) -> (r: &'static str)
        ensures
            r@ == layer_label(self),
    {
        match self {
            Layer::Defaults => "built-in defaults",
            Layer::Global => "global user config",
            Layer::Project => "project config",
            Layer::Cli => "command-line flags",
        }
    }
}

/// Where a configuration value came from: a layer and, for file layers, the
/// file's path.
#[derive(Debug, PartialEq, Eq)]
pub struct LayerSource {
    pub layer: Layer,
    pub path: Option<String>,
}

pub struct LayerSourceView {
    pub layer: Layer,
    pub path: Option<Seq<char>>,
}

impl View for LayerSource {
    type V = LayerSourceView;

    open spec fn view(&self) -> LayerSourceView {
        LayerSourceView {
            layer: self.layer,
            path: match self.path {
                Some(p) => Some(p@),
                None => None,
            },
        }
    }
}

impl Clone for LayerSource {
    fn clone(&self) -> (r: Self)
        ensures
            r == *self,
    {
        LayerSource {
            layer: self.layer,
            path: match &self.path {
                Some(p) => Some(p.clone()),
                None => None,
            },
        }
    }
}

pub open spec fn source_view() -> spec_fn(LayerSource) -> LayerSourceView {
    |s: LayerSource| s@
}

/// Values given on the command line; `None` leaves the lower layers' value.
#[derive(Debug, Clone)]
pub struct CliOverrides {
    pub profile: Option<String>,
    pub offline: Option<bool>,
    pub no_cache: Option<bool>,
    pub fail_fast: Option<bool>,
}

impl Default for CliOverrides {
    fn default() -> (r: Self)
        ensures
            r.profile is None,
            r.offline is None,
            r.no_cache is None,
            r.fail_fast is None,
    {
        CliOverrides { profile: None, offline: None, no_cache: None, fail_fast: None }
    }
}

/// The effective configuration and, for each configuration key, the layers
/// that set it, lowest first.
#[derive(Debug, Clone)]
pub struct ResolvedConfig {
    pub config: ForgeConfig,
    pub provenance: KeyedMap<Vec<LayerSource>>,
}

/// One configuration file as written: every key optional.
#[derive(Debug, Clone)]
pub struct RawConfig {
    pub schema: Option<u32>,
    pub profile: Option<String>,
    pub offline: Option<bool>,
    pub no_cache: Option<bool>,
    pub fail_fast: Option<bool>,
    pub gate_policy: Option<String>,
    pub profiles: KeyedMap<ProfileConfig>,
    pub tools: KeyedMap<ToolConfig>,
    pub rules: KeyedMap<RuleConfig>,
    pub policies: KeyedMap<PolicyConfig>,
}

/// What was found at a configuration file's path.
#[derive(Debug, Clone)]
pub enum LayerContent {
    /// No file is there.
    Absent,
    /// A file is there but could not be read.
    Unreadable { message: String },
    /// The file is not a TOML document of the configuration's shape.
    Malformed { message: String },
    /// The file's parsed content.
    Parsed(RawConfig),
}

/// A configuration file and what was found at its path.
#[derive(Debug, Clone)]
pub struct LayerFile {
    pub path: String,
    pub content: LayerContent,
}

// ---------------------------------------------------------------------------
// The configuration keys and how each layer sets them.
// ---------------------------------------------------------------------------

/// The configuration keys, in the order they are reported.
pub open spec fn config_key(i: int) -> Seq<char> {
    if i == 0 {
        "schema"@
    } else if i == 1 {
        "profile"@
    } else if i == 2 {
        "offline"@
    } else if i == 3 {
        "no_cache"@
    } else if i == 4 {
        "fail_fast"@
    } else if i == 5 {
        "gate_policy"@
    } else if i == 6 {
        "profiles"@
    } else if i == 7 {
        "tools"@
    } else if i == 8 {
        "rules"@
    } else {
        "policies"@
    }
}

/// Whether a file layer sets the `i`-th key: scalars when present, tables
/// when non-empty.
pub open spec fn raw_sets(raw: RawConfig, i: int) -> bool {
    if i == 0 {
        raw.schema is Some
    } else if i == 1 {
        raw.profile is Some
    } else if i == 2 {
        raw.offline is Some
    } else if i == 3 {
        raw.no_cache is Some
    } else if i == 4 {
        raw.fail_fast is Some
    } else if i == 5 {
        raw.gate_policy is Some
    } else if i == 6 {
        raw.profiles.spec_entries().len() > 0
    } else if i == 7 {
        raw.tools.spec_entries().len() > 0
    } else if i == 8 {
        raw.rules.spec_entries().len() > 0
    } else {
        raw.policies.spec_entries().len() > 0
    }
}

/// Whether the command line sets the `i`-th key.
pub open spec fn cli_sets(cli: CliOverrides, i: int) -> bool {
    if i == 1 {
        cli.profile is Some
    } else if i == 2 {
        cli.offline is Some
    } else if i == 3 {
        cli.no_cache is Some
    } else if i == 4 {
        cli.fail_fast is Some
    } else {
        false
    }
}

/// The configuration after a file layer: each key the layer sets replaces
/// the lower layers' value.
pub open spec fn layer_config(raw: RawConfig, c: ForgeConfigView) -> ForgeConfigView {
    ForgeConfigView {
        schema: if raw.schema is Some { raw.schema->0 } else { c.schema },
        profile: if raw.profile is Some { raw.profile } else { c.profile },
        offline: if raw.offline is Some { raw.offline->0 } else { c.offline },
        no_cache: if raw.no_cache is Some { raw.no_cache->0 } else { c.no_cache },
        fail_fast: if raw.fail_fast is Some { raw.fail_fast->0 } else { c.fail_fast },
        gate_policy: if raw.gate_policy is Some { raw.gate_policy } else { c.gate_policy },
        profiles: if raw.profiles.spec_entries().len() > 0 { raw.profiles.spec_entries() } else { c.profiles },
        tools: if raw.tools.spec_entries().len() > 0 { raw.tools.spec_entries() } else { c.tools },
        rules: if raw.rules.spec_entries().len() > 0 { raw.rules.spec_entries() } else { c.rules },
        policies: if raw.policies.spec_entries().len() > 0 { raw.policies.spec_entries() } else { c.policies },
    }
}

/// The configuration after an optional file layer.
pub open spec fn maybe_layer_config(raw: Option<RawConfig>, c: ForgeConfigView) -> ForgeConfigView {
    match raw {
        Some(r) => layer_config(r, c),
        None => c,
    }
}

/// The configuration after the command line: each flag given replaces the
/// files' value.
pub open spec fn cli_config(cli: CliOverrides, c: ForgeConfigView) -> ForgeConfigView {
    ForgeConfigView {
        profile: if cli.profile is Some { cli.profile } else { c.profile },
        offline: if cli.offline is Some { cli.offline->0 } else { c.offline },
        no_cache: if cli.no_cache is Some { cli.no_cache->0 } else { c.no_cache },
        fail_fast: if cli.fail_fast is Some { cli.fail_fast->0 } else { c.fail_fast },
        ..c
    }
}

/// What a file layer contributes: nothing, its content, or an error.
pub open spec fn load_outcome(content: LayerContent, path: Seq<char>) -> Result<Option<RawConfig>, ConfigErrorView> {
    match content {
        LayerContent::Absent => Ok(None),
        LayerContent::Unreadable { message } => Err(ConfigErrorView::Io { path, source: message@ }),
        LayerContent::Malformed { message } => Err(ConfigErrorView::Parse { path, message: message@ }),
        LayerContent::Parsed(raw) => match raw.schema {
            None => Err(ConfigErrorView::Parse { path, message: "missing required key 'schema'"@ }),
            Some(s) => if s != 1 {
                Err(ConfigErrorView::UnsupportedSchema { found: s, path })
            } else {
                Ok(Some(raw))
            },
        },
    }
}

/// The layer source, if the layer sets the key.
pub open spec fn source_if(sets: bool, layer: Layer, path: Option<Seq<char>>) -> Seq<LayerSourceView> {
    if sets {
        seq![LayerSourceView { layer, path }]
    } else {
        Seq::empty()
    }
}

pub open spec fn raw_sets_opt(raw: Option<RawConfig>, i: int) -> bool {
    match raw {
        Some(r) => raw_sets(r, i),
        None => false,
    }
}

/// The sources of the `i`-th key: the defaults, then each layer that sets it.
pub open spec fn key_sources(
    global: Option<RawConfig>,
    global_path: Seq<char>,
    project: Option<RawConfig>,
    project_path: Seq<char>,
    cli: CliOverrides,
    i: int,
) -> Seq<LayerSourceView> {
    seq![LayerSourceView { layer: Layer::Defaults, path: None }] + source_if(
        raw_sets_opt(global, i),
        Layer::Global,
        Some(global_path),
    ) + source_if(raw_sets_opt(project, i), Layer::Project, Some(project_path)) + source_if(
        cli_sets(cli, i),
        Layer::Cli,
        None,
    )
}

// ---------------------------------------------------------------------------
// Validation of the merged configuration.
// ---------------------------------------------------------------------------

/// A profile's tool reference is bad when the tool is unknown or disabled.
pub open spec fn bad_tool_ref(tools: Seq<(String, ToolConfig)>, name: String) -> bool {
    match lookup(tools, name@) {
        None => true,
        Some(t) => !t.enabled,
    }
}

/// Whether the `i`-th of the referenced tools is a bad reference.
pub open spec fn bad_ref_at(tools: Seq<(String, ToolConfig)>, refs: Seq<String>) -> spec_fn(int) -> bool {
    |i: int| bad_tool_ref(tools, refs[i])
}

/// The error of the first bad tool reference of the active profile, if any.
pub open spec fn profile_ref_error(c: ForgeConfigView) -> Option<ConfigErrorView> {
    match c.profile {
        None => None,
        Some(name) => match lookup(c.profiles, name@) {
            None => None,
            Some(p) => {
                let refs = p.tools@;
                let i = first_index(bad_ref_at(c.tools, refs), refs.len() as int);
                if i < 0 {
                    None
                } else {
                    let what = if lookup(c.tools, refs[i]@) is None {
                        "' references unknown tool '"@
                    } else {
                        "' references disabled tool '"@
                    };
                    Some(
                        ConfigErrorView::Invalid {
                            key: "profiles"@,
                            message: "profile '"@ + name@ + what + refs[i]@ + "'"@,
                        },
                    )
                }
            },
        },
    }
}

/// A tool entry is bad when its executable is blank or its version command
/// is empty.
pub open spec fn bad_tool(t: ToolConfig) -> bool {
    is_blank(t.executable@) || (t.version_command is Some && t.version_command->0@.len() == 0)
}

/// The error of the first bad tool entry, if any.
pub open spec fn tool_error(c: ForgeConfigView) -> Option<ConfigErrorView> {
    let i = first_index(|i: int| bad_tool(c.tools[i].1), c.tools.len() as int);
    if i < 0 {
        None
    } else {
        let what = if is_blank(c.tools[i].1.executable@) {
            "' has an empty executable"@
        } else {
            "' has an empty version command"@
        };
        Some(ConfigErrorView::Invalid { key: "tools"@, message: "tool '"@ + c.tools[i].0@ + what })
    }
}

/// The first validation failure of a merged configuration, if any.
pub open spec fn validation_error(c: ForgeConfigView) -> Option<ConfigErrorView> {
    if c.schema != 1 {
        Some(
            ConfigErrorView::Invalid {
                key: "schema"@,
                message: "unsupported schema version "@ + decimal(c.schema as nat) + " (supported: "@ + decimal(1)
                    + ")"@,
            },
        )
    } else if c.profile is Some && is_blank(c.profile->0@) {
        Some(ConfigErrorView::Invalid { key: "profile"@, message: "profile must not be empty"@ })
    } else if profile_ref_error(c) is Some {
        profile_ref_error(c)
    } else {
        tool_error(c)
    }
}

/// A result that reports exactly the expected error, or none.
pub open spec fn check_matches(r: Result<(), ConfigError>, expected: Option<ConfigErrorView>) -> bool {
    match r {
        Ok(()) => expected is None,
        Err(e) => expected == Some(e@),
    }
}

fn invalid(key: &str, message: String) -> (r: ConfigError)
    ensures
        r@ == (ConfigErrorView::Invalid { key: key@, message: message@ }),
{
    ConfigError::Invalid { key: key.to_owned(), message }
}

fn validate_profile_refs(config: &ForgeConfig) -> (r: Result<(), ConfigError>)
    ensures
        check_matches(r, profile_ref_error(config@)),
{
    let profile_name = match &config.profile {
        Some(name) => name,
        None => return Ok(()),
    };
    let profile = match config.profiles.get(profile_name.as_str()) {
        Some(p) => p,
        None => return Ok(()),
    };
    let ghost c = config@;
    let ghost refs = profile.tools@;
    let ghost pred = bad_ref_at(c.tools, refs);
    let mut i: usize = 0;
    while i < profile.tools.len()
        invariant
            i <= refs.len(),
            refs == profile.tools@,
            c == config@,
            pred == bad_ref_at(c.tools, refs),
            c.profile == Some(*profile_name),
            lookup(c.profiles, profile_name@) == Some(*profile),
            forall|j: int| 0 <= j < i ==> !#[trigger] pred(j),
        decreases refs.len() - i,
    {
        let tool = &profile.tools[i];
        match config.tools.get(tool.as_str()) {
            None => {
                proof {
                    lemma_first_index(pred, refs.len() as int, i as int);
                }
                let mut message = String::new();
                push_str(&mut message, "profile '");
                push_str(&mut message, profile_name.as_str());
                push_str(&mut message, "' references unknown tool '");
                push_str(&mut message, tool.as_str());
                push_str(&mut message, "'");
                assert(message@ =~= "profile '"@ + profile_name@ + "' references unknown tool '"@ + tool@ + "'"@);
                return Err(invalid("profiles", message));
            },
            Some(tool_config) => {
                if !tool_config.enabled {
                    proof {
                        lemma_first_index(pred, refs.len() as int, i as int);
                    }
                    let mut message = String::new();
                    push_str(&mut message, "profile '");
                    push_str(&mut message, profile_name.as_str());
                    push_str(&mut message, "' references disabled tool '");
                    push_str(&mut message, tool.as_str());
                    push_str(&mut message, "'");
                    assert(message@ =~= "profile '"@ + profile_name@ + "' references disabled tool '"@ + tool@ + "'"@);
                    return Err(invalid("profiles", message));
                }
            },
        }
        i = i + 1;
    }
    proof {
        lemma_first_index_none(pred, refs.len() as int);
    }
    Ok(())
}

fn validate_tools(config: &ForgeConfig) -> (r: Result<(), ConfigError>)
    ensures
        check_matches(r, tool_error(config@)),
{
    let tools = config.tools.entries();
    let ghost c = config@;
    let ghost pred = |i: int| bad_tool(c.tools[i].1);
    let mut i: usize = 0;
    while i < tools.len()
        invariant
            i <= tools@.len(),
            tools@ == c.tools,
            c == config@,
            pred == (|i: int| bad_tool(c.tools[i].1)),
            forall|j: int| 0 <= j < i ==> !#[trigger] pred(j),
        decreases tools@.len() - i,
    {
        let (name, tool) = (&tools[i].0, &tools[i].1);
        if blank(tool.executable.as_str()) {
            proof {
                lemma_first_index(pred, tools@.len() as int, i as int);
            }
            let mut message = String::new();
            push_str(&mut message, "tool '");
            push_str(&mut message, name.as_str());
            push_str(&mut message, "' has an empty executable");
            return Err(invalid("tools", message));
        }
        let empty_command = match &tool.version_command {
            Some(args) => args.len() == 0,
            None => false,
        };
        if empty_command {
            proof {
                lemma_first_index(pred, tools@.len() as int, i as int);
            }
            let mut message = String::new();
            push_str(&mut message, "tool '");
            push_str(&mut message, name.as_str());
            push_str(&mut message, "' has an empty version command");
            return Err(invalid("tools", message));
        }
        i = i + 1;
    }
    proof {
        lemma_first_index_none(pred, tools@.len() as int);
    }
    Ok(())
}

fn validate(config: &ForgeConfig) -> (r: Result<(), ConfigError>)
    ensures
        check_matches(r, validation_error(config@)),
{
    if config.schema != SUPPORTED_SCHEMA_VERSION {
        let mut message = String::new();
        push_str(&mut message, "unsupported schema version ");
        push_decimal(&mut message, config.schema as u64);
        push_str(&mut message, " (supported: ");
        push_decimal(&mut message, SUPPORTED_SCHEMA_VERSION as u64);
        push_str(&mut message, ")");
        return Err(invalid("schema", message));
    }
    if let Some(profile) = &config.profile {
        if blank(profile.as_str()) {
            return Err(invalid("profile", "profile must not be empty".to_owned()));
        }
    }
    match validate_profile_refs(config) {
        Err(e) => return Err(e),
        Ok(()) => {},
    }
    validate_tools(config)
}

} // verus!

verus! {

/// The sources of each key, indexed by key position.
pub open spec fn sources_view(s: Seq<Vec<LayerSource>>, i: int) -> Seq<LayerSourceView> {
    s[i]@.map_values(source_view())
}

fn push_source(sources: &mut Vec<Vec<LayerSource>>, i: usize, source: LayerSource)
    requires
        i < old(sources)@.len(),
    ensures
        final(sources)@.len() == old(sources)@.len(),
        forall|j: int|
            0 <= j < old(sources)@.len() && j != i ==> #[trigger] final(sources)@[j] == old(sources)@[j],
        final(sources)@[i as int]@ == old(sources)@[i as int]@.push(source),
{
    let mut entry = sources.remove(i);
    entry.push(source);
    sources.insert(i, entry);
}

proof fn lemma_push_view(s: Seq<LayerSource>, x: LayerSource)
    ensures
        s.push(x).map_values(source_view()) == s.map_values(source_view()).push(x@),
{
    assert(s.push(x).map_values(source_view()) =~= s.map_values(source_view()).push(x@));
}

/// Records that the layer set the `i`-th key when `sets` holds.
fn record(sources: &mut Vec<Vec<LayerSource>>, i: usize, sets: bool, layer: &LayerSource)
    requires
        i < old(sources)@.len(),
    ensures
        final(sources)@.len() == old(sources)@.len(),
        forall|j: int| 0 <= j < old(sources)@.len() && j != i ==> #[trigger] final(sources)@[j] == old(sources)@[j],
        sources_view(final(sources)@, i as int) == sources_view(old(sources)@, i as int) + source_if(
            sets,
            layer.layer,
            layer@.path,
        ),
{
    if sets {
        let copy = layer.clone();
        proof {
            lemma_push_view(old(sources)@[i as int]@, copy);
        }
        push_source(sources, i, copy);
        assert(sources_view(sources@, i as int) =~= sources_view(old(sources)@, i as int) + source_if(
            sets,
            layer.layer,
            layer@.path,
        ));
    } else {
        assert(sources_view(sources@, i as int) =~= sources_view(old(sources)@, i as int) + source_if(
            sets,
            layer.layer,
            layer@.path,
        ));
    }
}

#[verifier::rlimit(40)]
fn apply_layer(raw: RawConfig, config: &mut ForgeConfig, sources: &mut Vec<Vec<LayerSource>>, layer: LayerSource)
    requires
        old(sources)@.len() == 10,
    ensures
        final(config)@ == layer_config(raw, old(config)@),
        final(sources)@.len() == 10,
        forall|i: int|
            0 <= i < 10 ==> #[trigger] sources_view(final(sources)@, i) == sources_view(old(sources)@, i)
                + source_if(raw_sets(raw, i), layer.layer, layer@.path),
{
    let ghost raw0 = raw;
    let RawConfig { schema, profile, offline, no_cache, fail_fast, gate_policy, profiles, tools, rules, policies } =
        raw;
    let ghost s0 = sources@;
    record(sources, 0, schema.is_some(), &layer);
    let ghost s1 = sources@;
    record(sources, 1, profile.is_some(), &layer);
    let ghost s2 = sources@;
    record(sources, 2, offline.is_some(), &layer);
    let ghost s3 = sources@;
    record(sources, 3, no_cache.is_some(), &layer);
    let ghost s4 = sources@;
    record(sources, 4, fail_fast.is_some(), &layer);
    let ghost s5 = sources@;
    record(sources, 5, gate_policy.is_some(), &layer);
    let ghost s6 = sources@;
    record(sources, 6, !profiles.is_empty(), &layer);
    let ghost s7 = sources@;
    record(sources, 7, !tools.is_empty(), &layer);
    let ghost s8 = sources@;
    record(sources, 8, !rules.is_empty(), &layer);
    let ghost s9 = sources@;
    record(sources, 9, !policies.is_empty(), &layer);
    proof {
        assert forall|i: int| 0 <= i < 10 implies #[trigger] sources_view(sources@, i) == sources_view(s0, i)
            + source_if(raw_sets(raw0, i), layer.layer, layer@.path) by {
            if i == 0 {
                assert(sources_view(sources@, 0) == sources_view(s1, 0));
            } else if i == 1 {
                assert(sources_view(sources@, 1) == sources_view(s2, 1));
                assert(sources_view(s1, 1) == sources_view(s0, 1));
            } else if i == 2 {
                assert(sources_view(sources@, 2) == sources_view(s3, 2));
                assert(sources_view(s2, 2) == sources_view(s0, 2));
            } else if i == 3 {
                assert(sources_view(sources@, 3) == sources_view(s4, 3));
                assert(sources_view(s3, 3) == sources_view(s0, 3));
            } else if i == 4 {
                assert(sources_view(sources@, 4) == sources_view(s5, 4));
                assert(sources_view(s4, 4) == sources_view(s0, 4));
            } else if i == 5 {
                assert(sources_view(sources@, 5) == sources_view(s6, 5));
                assert(sources_view(s5, 5) == sources_view(s0, 5));
            } else if i == 6 {
                assert(sources_view(sources@, 6) == sources_view(s7, 6));
                assert(sources_view(s6, 6) == sources_view(s0, 6));
            } else if i == 7 {
                assert(sources_view(sources@, 7) == sources_view(s8, 7));
                assert(sources_view(s7, 7) == sources_view(s0, 7));
            } else if i == 8 {
                assert(sources_view(sources@, 8) == sources_view(s9, 8));
                assert(sources_view(s8, 8) == sources_view(s0, 8));
            } else {
                assert(sources_view(s9, 9) == sources_view(s0, 9));
            }
        }
    }
    if let Some(v) = schema {
        config.schema = v;
    }
    if profile.is_some() {
        config.profile = profile;
    }
    if let Some(v) = offline {
        config.offline = v;
    }
    if let Some(v) = no_cache {
        config.no_cache = v;
    }
    if let Some(v) = fail_fast {
        config.fail_fast = v;
    }
    if gate_policy.is_some() {
        config.gate_policy = gate_policy;
    }
    if !profiles.is_empty() {
        config.profiles = profiles;
    }
    if !tools.is_empty() {
        config.tools = tools;
    }
    if !rules.is_empty() {
        config.rules = rules;
    }
    if !policies.is_empty() {
        config.policies = policies;
    }
}

fn apply_cli(cli: &CliOverrides, config: &mut ForgeConfig, sources: &mut Vec<Vec<LayerSource>>)
    requires
        old(sources)@.len() == 10,
    ensures
        final(config)@ == cli_config(*cli, old(config)@),
        final(sources)@.len() == 10,
        forall|i: int|
            0 <= i < 10 ==> #[trigger] sources_view(final(sources)@, i) == sources_view(old(sources)@, i)
                + source_if(cli_sets(*cli, i), Layer::Cli, None),
{
    let layer = LayerSource { layer: Layer::Cli, path: None };
    let ghost s0 = sources@;
    record(sources, 1, cli.profile.is_some(), &layer);
    let ghost s1 = sources@;
    record(sources, 2, cli.offline.is_some(), &layer);
    let ghost s2 = sources@;
    record(sources, 3, cli.no_cache.is_some(), &layer);
    let ghost s3 = sources@;
    record(sources, 4, cli.fail_fast.is_some(), &layer);
    proof {
        assert forall|i: int| 0 <= i < 10 implies #[trigger] sources_view(sources@, i) == sources_view(s0, i)
            + source_if(cli_sets(*cli, i), Layer::Cli, None) by {
            if i == 1 {
                assert(sources_view(sources@, 1) == sources_view(s1, 1));
            } else if i == 2 {
                assert(sources_view(sources@, 2) == sources_view(s2, 2));
                assert(sources_view(s1, 2) == sources_view(s0, 2));
            } else if i == 3 {
                assert(sources_view(sources@, 3) == sources_view(s3, 3));
                assert(sources_view(s2, 3) == sources_view(s0, 3));
            } else if i == 4 {
                assert(sources_view(s3, 4) == sources_view(s0, 4));
            } else {
                assert(sources_view(sources@, i) == sources_view(s0, i));
                assert(source_if(cli_sets(*cli, i), Layer::Cli, None) =~= Seq::<LayerSourceView>::empty());
                assert(sources_view(s0, i) + Seq::<LayerSourceView>::empty() =~= sources_view(s0, i));
            }
        }
    }
    match &cli.profile {
        Some(p) => {
            config.profile = Some(p.clone());
        },
        None => {},
    }
    if let Some(v) = cli.offline {
        config.offline = v;
    }
    if let Some(v) = cli.no_cache {
        config.no_cache = v;
    }
    if let Some(v) = cli.fail_fast {
        config.fail_fast = v;
    }
}

} // verus!

verus! {

/// What the global layer contributes, when there is a global file.
pub open spec fn global_outcome(global: Option<LayerFile>) -> Result<Option<RawConfig>, ConfigErrorView> {
    match global {
        None => Ok(None),
        Some(f) => load_outcome(f.content, f.path@),
    }
}

pub open spec fn global_path_of(global: Option<LayerFile>) -> Seq<char> {
    match global {
        Some(f) => f.path@,
        None => Seq::empty(),
    }
}

/// The configuration after all layers: defaults, global file, project file,
/// command line.
pub open spec fn merged_config(global: Option<RawConfig>, project: Option<RawConfig>, cli: CliOverrides) -> ForgeConfigView {
    cli_config(cli, maybe_layer_config(project, maybe_layer_config(global, default_config())))
}

/// The provenance holds the ten keys in order, each with the defaults and
/// then every layer that set it.
pub open spec fn provenance_matches(
    p: KeyedMap<Vec<LayerSource>>,
    global: Option<RawConfig>,
    global_path: Seq<char>,
    project: Option<RawConfig>,
    project_path: Seq<char>,
    cli: CliOverrides,
) -> bool {
    &&& p.spec_entries().len() == 10
    &&& forall|i: int|
        0 <= i < 10 ==> (#[trigger] p.spec_entries()[i]).0@ == config_key(i) && p.spec_entries()[i].1@.map_values(
            source_view(),
        ) == key_sources(global, global_path, project, project_path, cli, i)
}

fn key_name(i: usize) -> (r: &'static str)
    requires
        i < 10,
    ensures
        r@ == config_key(i as int),
{
    if i == 0 {
        "schema"
    } else if i == 1 {
        "profile"
    } else if i == 2 {
        "offline"
    } else if i == 3 {
        "no_cache"
    } else if i == 4 {
        "fail_fast"
    } else if i == 5 {
        "gate_policy"
    } else if i == 6 {
        "profiles"
    } else if i == 7 {
        "tools"
    } else if i == 8 {
        "rules"
    } else {
        "policies"
    }
}

fn default_sources() -> (r: Vec<Vec<LayerSource>>)
    ensures
        r@.len() == 10,
        forall|i: int|
            0 <= i < 10 ==> #[trigger] sources_view(r@, i) == seq![LayerSourceView { layer: Layer::Defaults, path: None }],
{
    let mut sources: Vec<Vec<LayerSource>> = Vec::new();
    let mut i: usize = 0;
    while i < 10
        invariant
            i <= 10,
            sources@.len() == i,
            forall|j: int|
                0 <= j < i ==> #[trigger] sources_view(sources@, j) == seq![LayerSourceView { layer: Layer::Defaults, path: None }],
        decreases 10 - i,
    {
        let mut entry: Vec<LayerSource> = Vec::new();
        entry.push(LayerSource { layer: Layer::Defaults, path: None });
        let ghost before = sources@;
        sources.push(entry);
        proof {
            assert(sources_view(sources@, i as int) =~= seq![LayerSourceView { layer: Layer::Defaults, path: None }]);
            assert forall|j: int| 0 <= j < i implies #[trigger] sources_view(sources@, j) == seq![LayerSourceView { layer: Layer::Defaults, path: None }] by {
                assert(sources@[j] == before[j]);
                assert(sources_view(before, j) == seq![LayerSourceView { layer: Layer::Defaults, path: None }]);
                assert(sources_view(sources@, j) == sources_view(before, j));
            }
        }
        i = i + 1;
    }
    sources
}

/// The configuration keys are distinct.
proof fn lemma_config_keys_distinct(i: int, j: int)
    requires
        0 <= i < 10,
        0 <= j < 10,
        i != j,
    ensures
        config_key(i) != config_key(j),
{
    reveal_strlit("schema");
    reveal_strlit("profile");
    reveal_strlit("offline");
    reveal_strlit("no_cache");
    reveal_strlit("fail_fast");
    reveal_strlit("gate_policy");
    reveal_strlit("profiles");
    reveal_strlit("tools");
    reveal_strlit("rules");
    reveal_strlit("policies");
    let a = config_key(i);
    let b = config_key(j);
    if a.len() == b.len() {
        if a[0] == b[0] {
            assert(a[2] != b[2]);
        }
    }
}

fn provenance_map(sources: Vec<Vec<LayerSource>>) -> (r: KeyedMap<Vec<LayerSource>>)
    requires
        sources@.len() == 10,
    ensures
        r.spec_entries().len() == 10,
        forall|i: int|
            0 <= i < 10 ==> (#[trigger] r.spec_entries()[i]).0@ == config_key(i) && r.spec_entries()[i].1
                == sources@[i],
{
    let ghost given = sources@;
    let mut rest = sources;
    let mut entries: Vec<(String, Vec<LayerSource>)> = Vec::new();
    let mut i: usize = 0;
    while i < 10
        invariant
            i <= 10,
            given.len() == 10,
            rest@ == given.subrange(i as int, 10),
            entries@.len() == i,
            forall|j: int| 0 <= j < i ==> (#[trigger] entries@[j]).0@ == config_key(j) && entries@[j].1 == given[j],
        decreases 10 - i,
    {
        let item = rest.remove(0);
        let ghost before = entries@;
        entries.push((key_name(i).to_owned(), item));
        proof {
            assert(rest@ =~= given.subrange(i as int + 1, 10));
            assert forall|j: int| 0 <= j < i + 1 implies (#[trigger] entries@[j]).0@ == config_key(j) && entries@[j].1 == given[j] by {
                if j < i {
                    assert(entries@[j] == before[j]);
                }
            }
        }
        i = i + 1;
    }
    proof {
        assert forall|a: int, b: int|
            0 <= a < entries@.len() && 0 <= b < entries@.len() && a != b implies (#[trigger] entries@[a]).0@
            != (#[trigger] entries@[b]).0@ by {
            lemma_config_keys_distinct(a, b);
        }
    }
    KeyedMap::from_entries(entries)
}

/// Applies a file layer's outcome: a parsed file whose schema is present and
/// supported yields its content.
fn load_layer(content: LayerContent, path: &String) -> (r: Result<Option<RawConfig>, ConfigError>)
    ensures
        match load_outcome(content, path@) {
            Ok(raw) => r == Ok::<Option<RawConfig>, ConfigError>(raw),
            Err(e) => r matches Err(x) && x@ == e,
        },
{
    match content {
        LayerContent::Absent => Ok(None),
        LayerContent::Unreadable { message } => Err(ConfigError::Io { path: path.clone(), source: message }),
        LayerContent::Malformed { message } => Err(ConfigError::Parse { path: path.clone(), message }),
        LayerContent::Parsed(raw) => match raw.schema {
            None => Err(
                ConfigError::Parse { path: path.clone(), message: "missing required key 'schema'".to_owned() },
            ),
            Some(schema) => {
                if schema != SUPPORTED_SCHEMA_VERSION {
                    Err(ConfigError::UnsupportedSchema { found: schema, path: path.clone() })
                } else {
                    Ok(Some(raw))
                }
            },
        },
    }
}

/// Resolves the effective configuration from its layers: built-in defaults,
/// the global user file, the project file, and command-line flags.
pub struct ConfigResolver {
    workspace: String,
    config_path: Option<String>,
    cli: CliOverrides,
}

impl ConfigResolver {
    pub closed spec fn spec_workspace(&self) -> Seq<char> {
        self.workspace@
    }

    pub closed spec fn spec_config_path(&self) -> Option<Seq<char>> {
        match self.config_path {
            Some(p) => Some(p@),
            None => None,
        }
    }

    pub closed spec fn spec_cli(&self) -> CliOverrides {
        self.cli
    }

    /// The project file: the explicit path if one was given, else
    /// `forge.toml` in the workspace.
    pub open spec fn project_file(&self) -> Seq<char> {
        match self.spec_config_path() {
            Some(p) => p,
            None => joined_path(self.spec_workspace(), "forge.toml"@),
        }
    }

    /// What the project layer contributes. A missing file is an error only
    /// when its path was given explicitly.
    pub open spec fn project_outcome(&self, project: LayerContent) -> Result<Option<RawConfig>, ConfigErrorView> {
        match project {
            LayerContent::Absent => if self.spec_config_path() is Some {
                Err(ConfigErrorView::Io { path: self.project_file(), source: "configuration file not found"@ })
            } else {
                Ok(None)
            },
            _ => load_outcome(project, self.project_file()),
        }
    }

    pub fn new(workspace: String, config_path: Option<String>, cli: CliOverrides) -> (r: Self)
        ensures
            r.spec_workspace() == workspace@,
            r.spec_config_path() == (match config_path {
                Some(p) => Some(p@),
                None => None::<Seq<char>>,
            }),
            r.spec_cli() == cli,
    {
        ConfigResolver { workspace, config_path, cli }
    }

    /// The path of the global user configuration file under a home
    /// directory: `<home>/.config/forge/forge.toml`; none without a home.
    pub fn global_path(home: Option<&str>) -> (r: Option<String>)
        ensures
            match home {
                Some(h) => r matches Some(p) && p@ == joined_path(
                    joined_path(joined_path(h@, ".config"@), "forge"@),
                    "forge.toml"@,
                ),
                None => r is None,
            },
    {
        match home {
            Some(h) => {
                let config = join_path(h, ".config");
                let forge = join_path(config.as_str(), "forge");
                Some(join_path(forge.as_str(), "forge.toml"))
            },
            None => None,
        }
    }

    /// The path of the project configuration file.
    pub fn project_path(&self) -> (r: Option<String>)
        ensures
            r matches Some(p) && p@ == self.project_file(),
    {
        match &self.config_path {
            Some(path) => Some(path.clone()),
            None => Some(join_path(self.workspace.as_str(), "forge.toml")),
        }
    }

    /// Merges the layers, lowest first, and validates the result.
    ///
    /// `global` is the global user file, when the user has a home directory;
    /// `project` is what was found at `project_path()`. A layer's error stops
    /// the resolution; the global layer's is reported first.
    pub fn resolve(&self, global: Option<LayerFile>, project: LayerContent) -> (r: Result<ResolvedConfig, ConfigError>)
        ensures
            match (global_outcome(global), self.project_outcome(project)) {
                (Err(e), _) => r matches Err(x) && x@ == e,
                (Ok(_), Err(e)) => r matches Err(x) && x@ == e,
                (Ok(g), Ok(p)) => {
                    let c = merged_config(g, p, self.spec_cli());
                    match validation_error(c) {
                        Some(e) => r matches Err(x) && x@ == e,
                        None => r matches Ok(res) && res.config@ == c && provenance_matches(
                            res.provenance,
                            g,
                            global_path_of(global),
                            p,
                            self.project_file(),
                            self.spec_cli(),
                        ),
                    }
                },
            },
    {
        let ghost global0 = global;
        let ghost project0 = project;
        let mut config = ForgeConfig::default();
        let mut sources = default_sources();
        let ghost d_sources = sources@;
        let ghost mut g: Option<RawConfig> = None;
        match global {
            None => {},
            Some(file) => {
                let LayerFile { path, content } = file;
                match load_layer(content, &path) {
                    Err(e) => return Err(e),
                    Ok(None) => {},
                    Ok(Some(raw)) => {
                        proof {
                            g = Some(raw);
                        }
                        apply_layer(raw, &mut config, &mut sources, LayerSource { layer: Layer::Global, path: Some(path) });
                    },
                }
            },
        }
        let ghost g_sources = sources@;
        let ghost g_config = config@;
        assert(g_config == maybe_layer_config(g, default_config()));
        let ghost mut p: Option<RawConfig> = None;
        let path = match self.project_path() {
            Some(path) => path,
            None => String::new(),
        };
        match project {
            LayerContent::Absent => {
                if self.config_path.is_some() {
                    return Err(
                        ConfigError::Io { path, source: "configuration file not found".to_owned() },
                    );
                }
            },
            other => match load_layer(other, &path) {
                Err(e) => return Err(e),
                Ok(None) => {},
                Ok(Some(raw)) => {
                    proof {
                        p = Some(raw);
                    }
                    apply_layer(raw, &mut config, &mut sources, LayerSource { layer: Layer::Project, path: Some(path) });
                },
            },
        }
        let ghost p_sources = sources@;
        assert(config@ == maybe_layer_config(p, maybe_layer_config(g, default_config())));
        apply_cli(&self.cli, &mut config, &mut sources);
        assert(config@ == merged_config(g, p, self.cli));
        match validate(&config) {
            Err(e) => return Err(e),
            Ok(()) => {},
        }
        let ghost final_sources = sources@;
        proof {
            assert forall|i: int| 0 <= i < 10 implies #[trigger] sources_view(final_sources, i) == key_sources(
                g,
                global_path_of(global0),
                p,
                self.project_file(),
                self.cli,
                i,
            ) by {
                let d = seq![LayerSourceView { layer: Layer::Defaults, path: None }];
                let a = source_if(raw_sets_opt(g, i), Layer::Global, Some(global_path_of(global0)));
                let b = source_if(raw_sets_opt(p, i), Layer::Project, Some(self.project_file()));
                let c = source_if(cli_sets(self.cli, i), Layer::Cli, None);
                assert(sources_view(d_sources, i) == d);
                if g is None {
                    assert(a =~= Seq::<LayerSourceView>::empty());
                    assert(g_sources == d_sources);
                }
                assert(sources_view(g_sources, i) =~= d + a);
                if p is None {
                    assert(b =~= Seq::<LayerSourceView>::empty());
                    assert(p_sources == g_sources);
                }
                assert(sources_view(p_sources, i) =~= d + a + b);
                assert(sources_view(final_sources, i) =~= d + a + b + c);
            }
        }
        let provenance = provenance_map(sources);
        proof {
            assert forall|i: int| 0 <= i < 10 implies (#[trigger] provenance.spec_entries()[i]).0@ == config_key(i)
                && provenance.spec_entries()[i].1@.map_values(source_view()) == key_sources(
                g,
                global_path_of(global0),
                p,
                self.project_file(),
                self.cli,
                i,
            ) by {
                assert(sources_view(final_sources, i) == key_sources(
                    g,
                    global_path_of(global0),
                    p,
                    self.project_file(),
                    self.cli,
                    i,
                ));
            }
        }
        Ok(ResolvedConfig { config, provenance })
    }
}

/// The highest layer that sets the `i`-th key: the command line over the
/// project file, the project file over the global file, the global file over
/// the built-in defaults.
pub open spec fn winning_layer(global: Option<RawConfig>, project: Option<RawConfig>, cli: CliOverrides, i: int) -> Layer {
    if cli_sets(cli, i) {
        Layer::Cli
    } else if raw_sets_opt(project, i) {
        Layer::Project
    } else if raw_sets_opt(global, i) {
        Layer::Global
    } else {
        Layer::Defaults
    }
}

/// Layers take precedence in order: built-in defaults, then the global user
/// file, then the project file, then command-line flags. The effective
/// profile and flags are those of the highest layer that sets them; the
/// schema, the selected gate policy and each table (profiles, tools, rules, policies:
/// set when non-empty, and replaced whole) are those of the highest file that
/// sets them.
pub proof fn lemma_layer_precedence(global: Option<RawConfig>, project: Option<RawConfig>, cli: CliOverrides)
    ensures
        ({
            let c = merged_config(global, project, cli);
            &&& c.profile == match winning_layer(global, project, cli, 1) {
                Layer::Cli => cli.profile,
                Layer::Project => project->0.profile,
                Layer::Global => global->0.profile,
                Layer::Defaults => None,
            }
            &&& c.offline == match winning_layer(global, project, cli, 2) {
                Layer::Cli => cli.offline->0,
                Layer::Project => project->0.offline->0,
                Layer::Global => global->0.offline->0,
                Layer::Defaults => false,
            }
            &&& c.no_cache == match winning_layer(global, project, cli, 3) {
                Layer::Cli => cli.no_cache->0,
                Layer::Project => project->0.no_cache->0,
                Layer::Global => global->0.no_cache->0,
                Layer::Defaults => false,
            }
            &&& c.fail_fast == match winning_layer(global, project, cli, 4) {
                Layer::Cli => cli.fail_fast->0,
                Layer::Project => project->0.fail_fast->0,
                Layer::Global => global->0.fail_fast->0,
                Layer::Defaults => false,
            }
            &&& c.schema == match winning_layer(global, project, cli, 0) {
                Layer::Project => project->0.schema->0,
                Layer::Global => global->0.schema->0,
                _ => 1u32,
            }
            &&& c.gate_policy == match winning_layer(global, project, cli, 5) {
                Layer::Project => project->0.gate_policy,
                Layer::Global => global->0.gate_policy,
                _ => None,
            }
            &&& c.profiles == match winning_layer(global, project, cli, 6) {
                Layer::Project => project->0.profiles.spec_entries(),
                Layer::Global => global->0.profiles.spec_entries(),
                _ => Seq::empty(),
            }
            &&& c.tools == match winning_layer(global, project, cli, 7) {
                Layer::Project => project->0.tools.spec_entries(),
                Layer::Global => global->0.tools.spec_entries(),
                _ => Seq::empty(),
            }
            &&& c.rules == match winning_layer(global, project, cli, 8) {
                Layer::Project => project->0.rules.spec_entries(),
                Layer::Global => global->0.rules.spec_entries(),
                _ => Seq::empty(),
            }
            &&& c.policies == match winning_layer(global, project, cli, 9) {
                Layer::Project => project->0.policies.spec_entries(),
                Layer::Global => global->0.policies.spec_entries(),
                _ => Seq::empty(),
            }
        }),
{
}

/// The provenance of a key starts with the built-in defaults and ends with
/// the layer whose value is in effect; a layer is listed exactly when it sets
/// the key.
pub proof fn lemma_provenance_ends_with_winner(
    global: Option<RawConfig>,
    global_path: Seq<char>,
    project: Option<RawConfig>,
    project_path: Seq<char>,
    cli: CliOverrides,
    i: int,
)
    ensures
        ({
            let s = key_sources(global, global_path, project, project_path, cli, i);
            &&& s[0].layer == Layer::Defaults
            &&& s.last().layer == winning_layer(global, project, cli, i)
            &&& s.len() == 1 + (if raw_sets_opt(global, i) { 1int } else { 0 }) + (if raw_sets_opt(project, i) {
                1int
            } else {
                0
            }) + (if cli_sets(cli, i) { 1int } else { 0 })
        }),
{
}

} // verus!

verus! {

/// The layer a key's provenance lists last.
pub open spec fn last_source_layer(p: KeyedMap<Vec<LayerSource>>, i: int) -> Layer {
    p.spec_entries()[i].1@.last().layer
}

/// The effective value of a key is that of the last layer its provenance
/// lists: for the profile, and for each table (replaced whole by the highest
/// file that sets it).
pub proof fn lemma_effective_value_from_last_source(
    p: KeyedMap<Vec<LayerSource>>,
    global: Option<RawConfig>,
    global_path: Seq<char>,
    project: Option<RawConfig>,
    project_path: Seq<char>,
    cli: CliOverrides,
)
    requires
        provenance_matches(p, global, global_path, project, project_path, cli),
    ensures
        ({
            let c = merged_config(global, project, cli);
            &&& c.profile == match last_source_layer(p, 1) {
                Layer::Cli => cli.profile,
                Layer::Project => project->0.profile,
                Layer::Global => global->0.profile,
                Layer::Defaults => None,
            }
            &&& c.profiles == match last_source_layer(p, 6) {
                Layer::Project => project->0.profiles.spec_entries(),
                Layer::Global => global->0.profiles.spec_entries(),
                _ => Seq::empty(),
            }
            &&& c.tools == match last_source_layer(p, 7) {
                Layer::Project => project->0.tools.spec_entries(),
                Layer::Global => global->0.tools.spec_entries(),
                _ => Seq::empty(),
            }
            &&& c.rules == match last_source_layer(p, 8) {
                Layer::Project => project->0.rules.spec_entries(),
                Layer::Global => global->0.rules.spec_entries(),
                _ => Seq::empty(),
            }
            &&& c.policies == match last_source_layer(p, 9) {
                Layer::Project => project->0.policies.spec_entries(),
                Layer::Global => global->0.policies.spec_entries(),
                _ => Seq::empty(),
            }
        }),
{
    lemma_layer_precedence(global, project, cli);
    assert forall|i: int| 0 <= i < 10 implies last_source_layer(p, i) == winning_layer(global, project, cli, i) by {
        lemma_provenance_ends_with_winner(global, global_path, project, project_path, cli, i);
        let s = p.spec_entries()[i].1@;
        let v = s.map_values(source_view());
        assert(v == key_sources(global, global_path, project, project_path, cli, i));
        assert(v.len() == s.len());
        assert(v.last() == source_view()(s.last()));
    }
    assert(last_source_layer(p, 1) == winning_layer(global, project, cli, 1));
    assert(last_source_layer(p, 6) == winning_layer(global, project, cli, 6));
    assert(last_source_layer(p, 7) == winning_layer(global, project, cli, 7));
    assert(last_source_layer(p, 8) == winning_layer(global, project, cli, 8));
    assert(last_source_layer(p, 9) == winning_layer(global, project, cli, 9));
}

} // verus!

use forge::config::{PolicyConfig, ProfileConfig, RuleConfig, ToolConfig};
use forge::config_error::ConfigError;
use forge::keyed::KeyedMap;
use forge::resolver::{CliOverrides, ConfigResolver, Layer, LayerContent, LayerFile, LayerSource, RawConfig};

fn raw() -> RawConfig {
    RawConfig {
        schema: Some(1),
        profile: None,
        offline: None,
        no_cache: None,
        fail_fast: None,
        gate_policy: None,
        profiles: KeyedMap::new(),
        tools: KeyedMap::new(),
        rules: KeyedMap::new(),
        policies: KeyedMap::new(),
    }
}

fn tool(executable: &str) -> ToolConfig {
    ToolConfig {
        executable: executable.to_string(),
        args: Vec::new(),
        timeout_secs: None,
        version_command: None,
        supported_version_range: None,
        enabled: true,
    }
}

fn project_path(dir: &str) -> String {
    std::path::Path::new(dir).join("forge.toml").to_string_lossy().into_owned()
}

fn source(layer: Layer, path: Option<&str>) -> LayerSource {
    LayerSource { layer, path: path.map(|p| p.to_string()) }
}

#[test]
fn defaults_when_no_files() {
    let resolver = ConfigResolver::new("/ws/defaults".to_string(), None, CliOverrides::default());
    let resolved = resolver.resolve(None, LayerContent::Absent).unwrap();
    assert_eq!(resolved.config.schema, 1);
    assert_eq!(resolved.config.profile, None);
    assert!(!resolved.config.offline);
    assert!(!resolved.config.no_cache);
    assert!(!resolved.config.fail_fast);
    assert_eq!(resolved.provenance.get("schema"), Some(&vec![source(Layer::Defaults, None)]));
}

#[test]
fn project_config_overrides_defaults() {
    let mut project = raw();
    project.profile = Some("custom".to_string());
    let resolver = ConfigResolver::new("/ws/project".to_string(), None, CliOverrides::default());
    let resolved = resolver.resolve(None, LayerContent::Parsed(project)).unwrap();
    let path = project_path("/ws/project");
    assert_eq!(resolved.config.profile, Some("custom".to_string()));
    assert_eq!(
        resolved.provenance.get("profile"),
        Some(&vec![source(Layer::Defaults, None), source(Layer::Project, Some(&path))])
    );
}

#[test]
fn missing_schema_is_error() {
    let mut project = raw();
    project.schema = None;
    project.profile = Some("custom".to_string());
    let resolver = ConfigResolver::new("/ws/missing-schema".to_string(), None, CliOverrides::default());
    let err = resolver.resolve(None, LayerContent::Parsed(project)).unwrap_err();
    assert!(matches!(err, ConfigError::Parse { .. }));
}

#[test]
fn unsupported_schema_is_error() {
    let mut project = raw();
    project.schema = Some(99);
    let resolver = ConfigResolver::new("/ws/bad-schema".to_string(), None, CliOverrides::default());
    let err = resolver.resolve(None, LayerContent::Parsed(project)).unwrap_err();
    assert!(matches!(err, ConfigError::UnsupportedSchema { .. }));
}

#[test]
fn cli_overrides_project() {
    let mut project = raw();
    project.profile = Some("custom".to_string());
    let cli = CliOverrides { profile: Some("cli-profile".to_string()), offline: Some(true), ..Default::default() };
    let resolver = ConfigResolver::new("/ws/cli-override".to_string(), None, cli);
    let resolved = resolver.resolve(None, LayerContent::Parsed(project)).unwrap();
    let path = project_path("/ws/cli-override");
    assert_eq!(resolved.config.profile, Some("cli-profile".to_string()));
    assert!(resolved.config.offline);
    assert_eq!(
        resolved.provenance.get("profile"),
        Some(&vec![source(Layer::Defaults, None), source(Layer::Project, Some(&path)), source(Layer::Cli, None)])
    );
}

#[test]
fn explicit_missing_config_is_error() {
    let resolver = ConfigResolver::new(
        "/ws/missing-file".to_string(),
        Some("/ws/missing-file/nonexistent.toml".to_string()),
        CliOverrides::default(),
    );
    let err = resolver.resolve(None, LayerContent::Absent).unwrap_err();
    assert!(matches!(err, ConfigError::Io { .. }));
}

#[test]
fn tools_and_policies_resolve_with_provenance() {
    let mut project = raw();
    project.gate_policy = Some("strict".to_string());
    let mut semgrep = tool("semgrep");
    semgrep.args = vec!["scan".to_string(), "--json".to_string()];
    semgrep.timeout_secs = Some(60);
    project.tools.insert("semgrep".to_string(), semgrep);
    project.policies.insert(
        "strict".to_string(),
        PolicyConfig {
            max_blockers: Some(0),
            max_critical: Some(0),
            max_major: None,
            max_minor: None,
            categories: KeyedMap::new(),
        },
    );
    let resolver = ConfigResolver::new("/ws/analysis-keys".to_string(), None, CliOverrides::default());
    let resolved = resolver.resolve(None, LayerContent::Parsed(project)).unwrap();
    assert_eq!(resolved.config.gate_policy, Some("strict".to_string()));
    let semgrep = resolved.config.tools.get("semgrep").unwrap();
    assert_eq!(semgrep.executable, "semgrep");
    assert_eq!(semgrep.args, vec!["scan", "--json"]);
    assert_eq!(semgrep.timeout_secs, Some(60));
    assert_eq!(resolved.config.policies.get("strict").unwrap().max_blockers, Some(0));
    assert!(resolved.provenance.contains_key("tools"));
    assert!(resolved.provenance.contains_key("policies"));
}

#[test]
fn profile_referencing_unknown_tool_is_invalid() {
    let mut project = raw();
    project.profile = Some("comprehensive".to_string());
    project.profiles.insert(
        "comprehensive".to_string(),
        ProfileConfig { tools: vec!["does-not-exist".to_string()], concurrency: 4 },
    );
    let resolver = ConfigResolver::new("/ws/bad-profile-ref".to_string(), None, CliOverrides::default());
    let err = resolver.resolve(None, LayerContent::Parsed(project)).unwrap_err();
    assert!(matches!(err, ConfigError::Invalid { .. }));
    assert_eq!(
        err.message(),
        "invalid configuration key 'profiles': profile 'comprehensive' references unknown tool 'does-not-exist'"
    );
}

#[test]
fn empty_tool_executable_is_invalid() {
    let mut project = raw();
    project.tools.insert("bad".to_string(), tool(""));
    let resolver = ConfigResolver::new("/ws/empty-executable".to_string(), None, CliOverrides::default());
    let err = resolver.resolve(None, LayerContent::Parsed(project)).unwrap_err();
    assert!(matches!(err, ConfigError::Invalid { .. }));
}

#[test]
fn rule_override_resolves() {
    let mut project = raw();
    project.rules.insert("security.sql-injection".to_string(), RuleConfig { enabled: false, severity: None });
    let resolver = ConfigResolver::new("/ws/rule-override".to_string(), None, CliOverrides::default());
    let resolved = resolver.resolve(None, LayerContent::Parsed(project)).unwrap();
    assert!(!resolved.config.rules.get("security.sql-injection").unwrap().enabled);
}

#[test]
fn global_layer_sits_between_defaults_and_project() {
    let mut global = raw();
    global.profile = Some("from-global".to_string());
    global.fail_fast = Some(true);
    let mut project = raw();
    project.profile = Some("from-project".to_string());
    let resolver = ConfigResolver::new("/ws/layers".to_string(), None, CliOverrides::default());
    let file = LayerFile { path: "/home/u/.config/forge/config.toml".to_string(), content: LayerContent::Parsed(global) };
    let resolved = resolver.resolve(Some(file), LayerContent::Parsed(project)).unwrap();
    assert_eq!(resolved.config.profile, Some("from-project".to_string()));
    assert!(resolved.config.fail_fast);
    assert_eq!(
        resolved.provenance.get("fail_fast"),
        Some(&vec![
            source(Layer::Defaults, None),
            source(Layer::Global, Some("/home/u/.config/forge/config.toml"))
        ])
    );
    assert_eq!(resolved.provenance.len(), 10);
}

#[test]
fn unreadable_and_malformed_files_are_reported() {
    let resolver = ConfigResolver::new("/ws/broken".to_string(), None, CliOverrides::default());
    let err = resolver.resolve(None, LayerContent::Unreadable { message: "denied".to_string() }).unwrap_err();
    assert_eq!(err, ConfigError::Io { path: project_path("/ws/broken"), source: "denied".to_string() });
    let err = resolver.resolve(None, LayerContent::Malformed { message: "bad toml".to_string() }).unwrap_err();
    assert_eq!(err, ConfigError::Parse { path: project_path("/ws/broken"), message: "bad toml".to_string() });
    let global = LayerFile { path: "g.toml".to_string(), content: LayerContent::Malformed { message: "x".to_string() } };
    let err = resolver.resolve(Some(global), LayerContent::Absent).unwrap_err();
    assert_eq!(err, ConfigError::Parse { path: "g.toml".to_string(), message: "x".to_string() });
}

#[test]
fn blank_profile_and_disabled_tool_references_are_invalid() {
    let cli = CliOverrides { profile: Some("  ".to_string()), ..Default::default() };
    let resolver = ConfigResolver::new("/ws/blank".to_string(), None, cli);
    let err = resolver.resolve(None, LayerContent::Absent).unwrap_err();
    assert_eq!(err, ConfigError::Invalid { key: "profile".to_string(), message: "profile must not be empty".to_string() });

    let mut project = raw();
    let mut off = tool("lint");
    off.enabled = false;
    project.tools.insert("lint".to_string(), off);
    project.profile = Some("p".to_string());
    project.profiles.insert("p".to_string(), ProfileConfig { tools: vec!["lint".to_string()], concurrency: 1 });
    let resolver = ConfigResolver::new("/ws/disabled".to_string(), None, CliOverrides::default());
    let err = resolver.resolve(None, LayerContent::Parsed(project)).unwrap_err();
    assert_eq!(
        err,
        ConfigError::Invalid {
            key: "profiles".to_string(),
            message: "profile 'p' references disabled tool 'lint'".to_string()
        }
    );
}

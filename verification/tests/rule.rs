use forge::finding::{Category, Severity};
use forge::keyed::KeyedMap;
use forge::rule::{Rule, RuleOverride, RuleRegistry};

fn sample_rules() -> Vec<Rule> {
    vec![
        Rule::new(
            "security.sql-injection",
            "SQL injection",
            Category::Security,
            Severity::Critical,
            "Prevent SQL injection",
            "databases",
        ),
        Rule::new(
            "maintainability.long-function",
            "Long function",
            Category::Maintainability,
            Severity::Minor,
            "Keep functions short",
            "all",
        ),
    ]
}

#[test]
fn registry_resolves_rules_deterministically() {
    let mut registry = RuleRegistry::new();
    registry.register_all(sample_rules());
    let overrides = KeyedMap::new();
    let enabled = registry.enabled_rules(&overrides);
    assert_eq!(enabled.len(), 2);
    assert_eq!(enabled[0].id, "security.sql-injection");
    assert_eq!(enabled[1].id, "maintainability.long-function");
}

#[test]
fn disabled_rule_is_excluded() {
    let mut registry = RuleRegistry::new();
    registry.register_all(sample_rules());
    let mut overrides = KeyedMap::new();
    overrides.insert("security.sql-injection".to_string(), RuleOverride { enabled: Some(false), severity: None });
    let enabled = registry.enabled_rules(&overrides);
    assert_eq!(enabled.len(), 1);
    assert_eq!(enabled[0].id, "maintainability.long-function");
}

#[test]
fn severity_override_applies() {
    let mut registry = RuleRegistry::new();
    registry.register_all(sample_rules());
    let mut overrides = KeyedMap::new();
    overrides.insert(
        "maintainability.long-function".to_string(),
        RuleOverride { enabled: None, severity: Some(Severity::Critical) },
    );
    let enabled = registry.enabled_rules(&overrides);
    assert_eq!(enabled[0].default_severity, Severity::Critical);
}

#[test]
fn an_override_touches_only_its_own_rule() {
    let mut registry = RuleRegistry::new();
    registry.register_all(sample_rules());
    let mut overrides = KeyedMap::new();
    overrides.insert(
        "security.sql-injection".to_string(),
        RuleOverride { enabled: None, severity: Some(Severity::Info) },
    );
    let enabled = registry.enabled_rules(&overrides);
    assert_eq!(enabled[0].default_severity, Severity::Info);
    assert_eq!(enabled[1], sample_rules()[1]);
}

#[test]
fn a_disabled_rule_can_be_enabled_again() {
    let mut rule = Rule::new("r", "R", Category::Performance, Severity::Major, "d", "all");
    rule.enabled = false;
    let mut registry = RuleRegistry::new();
    registry.register(rule).register(Rule::new("s", "S", Category::Security, Severity::Minor, "d", "all"));
    assert_eq!(registry.enabled_rules(&KeyedMap::new()).len(), 1);
    let mut overrides = KeyedMap::new();
    overrides.insert("r".to_string(), RuleOverride { enabled: Some(true), severity: None });
    let enabled = registry.enabled_rules(&overrides);
    assert_eq!(enabled.len(), 2);
    assert_eq!(enabled[0].id, "r");
}

#[test]
fn get_finds_the_first_rule_with_the_id() {
    let mut registry = RuleRegistry::new();
    registry.register_all(sample_rules());
    registry.register(Rule::new("security.sql-injection", "Other", Category::Security, Severity::Info, "x", "y"));
    assert_eq!(registry.get("security.sql-injection").map(|r| r.name.as_str()), Some("SQL injection"));
    assert!(registry.get("nope").is_none());
    assert_eq!(registry.all().len(), 3);
}

#[test]
fn rule_override_defaults_to_no_change() {
    let over = RuleOverride::default();
    assert_eq!(over, RuleOverride { enabled: None, severity: None });
}

use forge::analysis::Analysis;
use forge::finding::{Category, Finding, Location, Severity};
use forge::gate::{GateDecision, GateEvaluator, Policy, PolicyResolver};
use forge::keyed::KeyedMap;

fn gate_finding(rule: &str, severity: Severity, category: Category) -> Finding {
    Finding::new(
        "demo",
        rule,
        severity,
        category,
        Location {
            file: "src/main.rs".to_string(),
            start_line: Some(1),
            start_column: None,
            end_line: None,
            end_column: None,
        },
        "message",
        None,
    )
}

#[test]
fn zero_blocker_threshold_fails_on_one_blocker() {
    let analysis = Analysis::new(vec![gate_finding("a", Severity::Blocker, Category::Security)], Vec::new());
    let policy = Policy::default_named("strict");
    let decision = GateEvaluator::evaluate(&analysis, &policy);
    assert!(!decision.passed());
    let GateDecision::Fail { policy, violations } = decision else {
        panic!("expected failure");
    };
    assert_eq!(policy, "strict");
    assert_eq!(violations.len(), 1);
    assert_eq!(violations[0].condition, "blockers");
    assert_eq!(violations[0].actual, 1);
    assert_eq!(violations[0].responsible_findings.len(), 1);
}

#[test]
fn category_threshold_fails() {
    let analysis = Analysis::new(
        vec![gate_finding("a", Severity::Minor, Category::Security), gate_finding("b", Severity::Minor, Category::Security)],
        Vec::new(),
    );
    let mut policy = Policy::default_named("cat");
    policy.categories.insert(Category::Security, 1u64);
    let decision = GateEvaluator::evaluate(&analysis, &policy);
    let GateDecision::Fail { violations, .. } = decision else {
        panic!("expected failure");
    };
    assert_eq!(violations[0].condition, "category:security");
    assert_eq!(violations[0].actual, 2);
}

#[test]
fn within_thresholds_passes() {
    let analysis = Analysis::new(vec![gate_finding("a", Severity::Minor, Category::Maintainability)], Vec::new());
    let policy = Policy::default_named("lenient");
    assert!(GateEvaluator::evaluate(&analysis, &policy).passed());
}

#[test]
fn decision_is_deterministic() {
    let analysis = Analysis::new(
        vec![gate_finding("a", Severity::Critical, Category::Security), gate_finding("b", Severity::Major, Category::Reliability)],
        Vec::new(),
    );
    let policy = Policy::default_named("d");
    let first = GateEvaluator::evaluate(&analysis, &policy);
    let second = GateEvaluator::evaluate(&analysis, &policy);
    assert_eq!(first, second);
}

#[test]
fn resolver_falls_back_to_default() {
    let policies: KeyedMap<Policy> = KeyedMap::new();
    let resolved = PolicyResolver::resolve(&policies, None);
    assert_eq!(resolved.name, "default");
    let named = PolicyResolver::resolve(&policies, Some("missing"));
    assert_eq!(named.name, "missing");
    let mut policies = KeyedMap::new();
    policies.insert("strict".to_string(), Policy::default_named("strict"));
    let resolved = PolicyResolver::resolve(&policies, Some("strict"));
    assert_eq!(resolved.name, "strict");
}

#[test]
fn violations_are_listed_in_condition_order_with_responsible_findings() {
    let analysis = Analysis::new(
        vec![
            gate_finding("a", Severity::Critical, Category::Security),
            gate_finding("b", Severity::Blocker, Category::Security),
            gate_finding("c", Severity::Critical, Category::Reliability),
        ],
        Vec::new(),
    );
    let mut policy = Policy::default_named("p");
    policy.max_critical = 1;
    policy.categories.insert(Category::Security, 1);
    let GateDecision::Fail { violations, .. } = GateEvaluator::evaluate(&analysis, &policy) else {
        panic!("expected failure");
    };
    let conditions: Vec<&str> = violations.iter().map(|v| v.condition.as_str()).collect();
    assert_eq!(conditions, vec!["blockers", "critical", "category:security"]);
    assert_eq!(violations[1].limit, 1);
    assert_eq!(violations[1].actual, 2);
    assert_eq!(violations[1].responsible_findings, vec![analysis.findings[0].id.clone(), analysis.findings[2].id.clone()]);
}

#[test]
fn a_count_equal_to_its_limit_passes() {
    let analysis = Analysis::new(vec![gate_finding("a", Severity::Minor, Category::Security)], Vec::new());
    let mut policy = Policy::default_named("edge");
    policy.max_minor = 1;
    policy.categories.insert(Category::Security, 1);
    assert!(GateEvaluator::evaluate(&analysis, &policy).passed());
    policy.max_minor = 0;
    assert!(!GateEvaluator::evaluate(&analysis, &policy).passed());
}

#[test]
fn category_limits_keep_each_category_once() {
    let mut policy = Policy::default_named("x");
    policy.categories.insert(Category::Security, 3);
    policy.categories.insert(Category::Reliability, 1);
    policy.categories.insert(Category::Security, 2);
    assert_eq!(policy.categories.entries(), &[(Category::Security, 2), (Category::Reliability, 1)]);
    assert_eq!(policy.categories.len(), 2);
}

use forge::finding::{Category, Finding, Location, Severity};

fn sample_location() -> Location {
    Location {
        file: "src/main.rs".to_string(),
        start_line: Some(10),
        start_column: Some(5),
        end_line: Some(10),
        end_column: Some(20),
    }
}

#[test]
fn finding_id_is_stable() {
    let a = Finding::new(
        "demo",
        "test.rule",
        Severity::Major,
        Category::Maintainability,
        sample_location(),
        "some message",
        Some("fix it"),
    );
    let b = Finding::new(
        "demo",
        "test.rule",
        Severity::Major,
        Category::Maintainability,
        sample_location(),
        "some message",
        Some("fix it"),
    );
    assert_eq!(a.id, b.id);
}

#[test]
fn finding_id_changes_with_location() {
    let a = Finding::new(
        "demo",
        "test.rule",
        Severity::Major,
        Category::Maintainability,
        sample_location(),
        "some message",
        None,
    );
    let mut moved = sample_location();
    moved.start_line = Some(11);
    let b = Finding::new("demo", "test.rule", Severity::Major, Category::Maintainability, moved, "some message", None);
    assert_ne!(a.id, b.id);
}

#[test]
fn finding_id_is_the_colon_separated_fingerprint() {
    let f = Finding::new(
        "demo",
        "test.rule",
        Severity::Minor,
        Category::Security,
        Location { file: "a.rs".to_string(), start_line: None, start_column: Some(7), end_line: None, end_column: None },
        "msg",
        Some("do this"),
    );
    assert_eq!(f.id, "demo:test.rule:a.rs:0:7:msg");
    assert_eq!(f.remediation, Some("do this".to_string()));
}

#[test]
fn severity_ranks_and_category_labels() {
    assert_eq!(Severity::Blocker.rank(), 0);
    assert_eq!(Severity::Critical.rank(), 1);
    assert_eq!(Severity::Major.rank(), 2);
    assert_eq!(Severity::Minor.rank(), 3);
    assert_eq!(Severity::Info.rank(), 4);
    assert_eq!(Category::SupplyChain.label(), "supply chain");
    assert_eq!(Category::Security.label(), "security");
}

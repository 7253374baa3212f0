use forge::tool::{compare_versions, range_matches, ToolResolver, ToolStatus};

#[test]
fn compare_versions_orders_correctly() {
    assert!(compare_versions("1.60.0", "1.60.0") == 0);
    assert!(compare_versions("2.0.0", "1.99.0") > 0);
    assert!(compare_versions("1.5", "1.50") < 0);
}

#[test]
fn range_matches_plain_prefix() {
    assert!(range_matches(">=1.60", "1.61.0"));
    assert!(!range_matches(">=1.60", "1.59.0"));
    assert!(range_matches("any", "1.0"));
}

#[test]
fn missing_tool_is_reported() {
    let found_on_path: Option<String> = None;
    let status = ToolResolver::check(found_on_path, None, None);
    assert_eq!(status, ToolStatus::Missing);
}

#[test]
fn available_and_incompatible_tools_are_told_apart() {
    let path = Some("/usr/bin/tool".to_string());
    assert_eq!(
        ToolResolver::check(path.clone(), None, Some("1.0")),
        ToolStatus::Available { version: Some("1.0".to_string()) }
    );
    assert_eq!(
        ToolResolver::check(path.clone(), Some(">=2"), None),
        ToolStatus::Incompatible { expected: ">=2".to_string(), found: None }
    );
    assert_eq!(
        ToolResolver::check(path.clone(), Some(">=2"), Some("1.9")),
        ToolStatus::Incompatible { expected: ">=2".to_string(), found: Some("1.9".to_string()) }
    );
    assert_eq!(
        ToolResolver::check(path, Some(">=2"), Some("2.0.1")),
        ToolStatus::Available { version: Some("2.0.1".to_string()) }
    );
    assert_eq!(ToolResolver::status_label(&ToolStatus::Missing), "missing");
    assert_eq!(ToolResolver::status_label(&ToolStatus::Available { version: None }), "available");
}

#[test]
fn version_parts_keep_their_leading_digits() {
    assert_eq!(compare_versions("1.2rc1", "1.2"), 0);
    assert!(compare_versions("1.x.3", "1.2") > 0);
    assert_eq!(compare_versions("3", "3"), 0);
    assert!(compare_versions("1.2", "1.2.0") < 0);
}

#[test]
fn ranges_other_than_a_minimum_leave_the_tool_available() {
    let path = Some("/usr/bin/tool".to_string());
    assert_eq!(ToolResolver::check(path.clone(), Some("any"), None), ToolStatus::Available { version: None });
    assert_eq!(
        ToolResolver::check(path, Some("~1.2"), Some("0.1")),
        ToolStatus::Available { version: Some("0.1".to_string()) }
    );
}

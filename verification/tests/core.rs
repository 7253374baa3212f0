use forge::config_error::ConfigError;
use forge::context::ForgeContext;
use forge::error::ForgeError;
use forge::exit_code::ExitCode;
use forge::store::{AnalysisStore, StoreError};

#[test]
fn error_exit_codes_match_contract() {
    assert_eq!(ForgeError::Usage("x".into()).exit_code(), ExitCode::Usage);
    assert_eq!(ForgeError::Config("x".into()).exit_code(), ExitCode::Usage);
    assert_eq!(ForgeError::ToolExecution("x".into()).exit_code(), ExitCode::ToolExecution);
    assert_eq!(ForgeError::Internal("x".into()).exit_code(), ExitCode::Internal);
}

#[test]
fn exit_codes_match_contract() {
    assert_eq!(ExitCode::Success.as_i32(), 0);
    assert_eq!(ExitCode::QualityGateFailed.as_i32(), 1);
    assert_eq!(ExitCode::Usage.as_i32(), 2);
    assert_eq!(ExitCode::ToolExecution.as_i32(), 3);
    assert_eq!(ExitCode::Internal.as_i32(), 4);
    assert_eq!(ExitCode::Interrupted.as_i32(), 5);
}

#[test]
fn error_messages_name_their_category() {
    assert_eq!(ForgeError::Usage("bad flag".into()).message(), "bad flag");
    assert_eq!(ForgeError::Config("x".into()).message(), "configuration error: x");
    assert_eq!(ForgeError::ToolExecution("y".into()).message(), "tool execution error: y");
    assert_eq!(ForgeError::Internal("z".into()).message(), "internal error: z");
}

#[test]
fn configuration_errors_become_configuration_category_errors() {
    let error = ForgeError::from(ConfigError::UnsupportedSchema { found: 99, path: "forge.toml".to_string() });
    assert_eq!(
        error,
        ForgeError::Config("unsupported schema version 99 in forge.toml (supported: 1)".to_string())
    );
    assert_eq!(error.exit_code(), ExitCode::Usage);
    let parse = ConfigError::Parse { path: "p".to_string(), message: "m".to_string() };
    assert_eq!(parse.message(), "invalid configuration in p: m");
    let io = ConfigError::Io { path: "p".to_string(), source: "gone".to_string() };
    assert_eq!(io.message(), "cannot read p: gone");
    let invalid = ConfigError::Invalid { key: "tools.x".to_string(), message: "bad".to_string() };
    assert_eq!(invalid.message(), "invalid configuration key 'tools.x': bad");
}

#[test]
fn context_reports_name_and_version() {
    let context = ForgeContext::new();
    assert_eq!(context.name, "forge");
    assert_eq!(context.version, "0.1.0");
}

#[test]
fn store_keeps_the_latest_result_under_the_workspace() {
    let store = AnalysisStore::new("/work".to_string());
    let expected = std::path::Path::new("/work").join(".forge").join("analysis").join("latest.json");
    assert_eq!(store.path(), expected.to_string_lossy());
    assert_ne!(store.path(), "/work");
}

#[test]
fn store_errors_describe_what_failed() {
    assert_eq!(
        StoreError::NotFound { path: "a.json".to_string() }.message(),
        "no analysis result at 'a.json'"
    );
    assert_eq!(
        StoreError::Io { path: "a".to_string(), source: "denied".to_string() }.message(),
        "could not access 'a': denied"
    );
    assert_eq!(
        StoreError::Serialize { message: "m".to_string() }.message(),
        "could not serialize analysis: m"
    );
    assert_eq!(
        StoreError::Deserialize { path: "a".to_string(), message: "m".to_string() }.message(),
        "could not read analysis from 'a': m"
    );
    assert_eq!(
        AnalysisStore::read_error("a".to_string(), true, "x".to_string()),
        StoreError::NotFound { path: "a".to_string() }
    );
    assert_eq!(
        AnalysisStore::read_error("a".to_string(), false, "x".to_string()),
        StoreError::Io { path: "a".to_string(), source: "x".to_string() }
    );
}

use vstd::prelude::*;

use crate::text::{decimal, push_decimal, push_str};

verus! {

/// Errors loading, resolving, or validating configuration.
#[derive(Debug, Clone, PartialEq, Eq)]
pub enum ConfigError {
    /// The file could not be read.
    Io { path: String, source: String },
    /// The file is not valid TOML or does not conform to the schema.
    Parse { path: String, message: String },
    /// The declared schema version is not supported.
    UnsupportedSchema { found: u32, path: String },
    /// The merged configuration failed validation.
    Invalid { key: String, message: String },
}

/// The content of a configuration error.
pub enum ConfigErrorView {
    Io { path: Seq<char>, source: Seq<char> },
    Parse { path: Seq<char>, message: Seq<char> },
    UnsupportedSchema { found: u32, path: Seq<char> },
    Invalid { key: Seq<char>, message: Seq<char> },
}

impl View for ConfigError {
    type V = ConfigErrorView;

    open spec fn view(&self) -> ConfigErrorView {
        match self {
            ConfigError::Io { path, source } => ConfigErrorView::Io { path: path@, source: source@ },
            ConfigError::Parse { path, message } => ConfigErrorView::Parse { path: path@, message: message@ },
            ConfigError::UnsupportedSchema { found, path } => ConfigErrorView::UnsupportedSchema {
                found: *found,
                path: path@,
            },
            ConfigError::Invalid { key, message } => ConfigErrorView::Invalid { key: key@, message: message@ },
        }
    }
}

/// The text an error reports.
pub open spec fn config_error_text(e: ConfigErrorView) -> Seq<char> {
    match e {
        ConfigErrorView::Io { path, source } => "cannot read "@ + path + ": "@ + source,
        ConfigErrorView::Parse { path, message } => "invalid configuration in "@ + path + ": "@ + message,
        ConfigErrorView::UnsupportedSchema { found, path } => "unsupported schema version "@ + decimal(
            found as nat,
        ) + " in "@ + path + " (supported: "@ + decimal(1) + ")"@,
        ConfigErrorView::Invalid { key, message } => "invalid configuration key '"@ + key + "': "@ + message,
    }
}

impl ConfigError {
    /// The human-readable description of the error.
    pub fn message(&self) -> (r: String)
        ensures
            r@ == config_error_text(self@),
    {
        let mut text = String::new();
        match self {
            ConfigError::Io { path, source } => {
                push_str(&mut text, "cannot read ");
                push_str(&mut text, path.as_str());
                push_str(&mut text, ": ");
                push_str(&mut text, source.as_str());
            },
            ConfigError::Parse { path, message } => {
                push_str(&mut text, "invalid configuration in ");
                push_str(&mut text, path.as_str());
                push_str(&mut text, ": ");
                push_str(&mut text, message.as_str());
            },
            ConfigError::UnsupportedSchema { found, path } => {
                push_str(&mut text, "unsupported schema version ");
                push_decimal(&mut text, *found as u64);
                push_str(&mut text, " in ");
                push_str(&mut text, path.as_str());
                push_str(&mut text, " (supported: ");
                push_decimal(&mut text, 1);
                push_str(&mut text, ")");
            },
            ConfigError::Invalid { key, message } => {
                push_str(&mut text, "invalid configuration key '");
                push_str(&mut text, key.as_str());
                push_str(&mut text, "': ");
                push_str(&mut text, message.as_str());
            },
        }
        text
    }
}

} // verus!

use vstd::prelude::*;

use crate::config_error::{config_error_text, ConfigError};
use crate::exit_code::ExitCode;
use crate::text::push_str;

verus! {

/// Errors that map to a specific exit code category, so CI can distinguish
/// quality failure from execution failure and configuration errors.
#[derive(Debug, Clone, PartialEq, Eq)]
pub enum ForgeError {
    Usage(String),
    Config(String),
    ToolExecution(String),
    Internal(String),
}

/// The exit code each error category maps to.
pub open spec fn error_exit_code(e: ForgeError) -> ExitCode {
    match e {
        ForgeError::Usage(_) | ForgeError::Config(_) => ExitCode::Usage,
        ForgeError::ToolExecution(_) => ExitCode::ToolExecution,
        ForgeError::Internal(_) => ExitCode::Internal,
    }
}

/// The text an error reports.
pub open spec fn forge_error_text(e: ForgeError) -> Seq<char> {
    match e {
        ForgeError::Usage(m) => m@,
        ForgeError::Config(m) => "configuration error: "@ + m@,
        ForgeError::ToolExecution(m) => "tool execution error: "@ + m@,
        ForgeError::Internal(m) => "internal error: "@ + m@,
    }
}

impl ForgeError {
    pub fn exit_code(&self) -> (r: ExitCode)
        ensures
            r == error_exit_code(*self),
    {
        match self {
            ForgeError::Usage(_) | ForgeError::Config(_) => ExitCode::Usage,
            ForgeError::ToolExecution(_) => ExitCode::ToolExecution,
            ForgeError::Internal(_) => ExitCode::Internal,
        }
    }

    /// The human-readable description of the error.
    pub fn message(&self) -> (r: String)
        ensures
            r@ == forge_error_text(*self),
    {
        let mut text = String::new();
        match self {
            ForgeError::Usage(m) => {
                push_str(&mut text, m.as_str());
            },
            ForgeError::Config(m) => {
                push_str(&mut text, "configuration error: ");
                push_str(&mut text, m.as_str());
            },
            ForgeError::ToolExecution(m) => {
                push_str(&mut text, "tool execution error: ");
                push_str(&mut text, m.as_str());
            },
            ForgeError::Internal(m) => {
                push_str(&mut text, "internal error: ");
                push_str(&mut text, m.as_str());
            },
        }
        assert(text@ =~= forge_error_text(*self));
        text
    }
}

impl From<ConfigError> for ForgeError {
    fn from(error: ConfigError) -> (r: Self)
        ensures
            r matches ForgeError::Config(m) && m@ == config_error_text(error@),
    {
        from_config_error(error)
    }
}

impl vstd::std_specs::convert::FromSpecImpl<ConfigError> for ForgeError {
    open spec fn obeys_from_spec() -> bool {
        false
    }

    open spec fn from_spec(error: ConfigError) -> ForgeError {
        arbitrary()
    }
}

/// A configuration error becomes a configuration-category error carrying
/// the configuration error's text.
pub fn from_config_error(error: ConfigError) -> (r: ForgeError)
    ensures
        r matches ForgeError::Config(m) && m@ == config_error_text(error@),
{
    ForgeError::Config(error.message())
}

} // verus!

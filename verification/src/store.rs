use vstd::prelude::*;

use crate::text::{join_path, joined_path, push_str};

verus! {

/// Errors from the persisted analysis store.
#[derive(Debug, Clone, PartialEq, Eq)]
pub enum StoreError {
    Io { path: String, source: String },
    Serialize { message: String },
    Deserialize { path: String, message: String },
    NotFound { path: String },
}

/// The text a store error reports.
pub open spec fn store_error_text(e: StoreError) -> Seq<char> {
    match e {
        StoreError::Io { path, source } => "could not access '"@ + path@ + "': "@ + source@,
        StoreError::Serialize { message } => "could not serialize analysis: "@ + message@,
        StoreError::Deserialize { path, message } => "could not read analysis from '"@ + path@ + "': "@
            + message@,
        StoreError::NotFound { path } => "no analysis result at '"@ + path@ + "'"@,
    }
}

impl StoreError {
    /// The human-readable description of the error.
    pub fn message(&self) -> (r: String)
        ensures
            r@ == store_error_text(*self),
    {
        let mut text = String::new();
        match self {
            StoreError::Io { path, source } => {
                push_str(&mut text, "could not access '");
                push_str(&mut text, path.as_str());
                push_str(&mut text, "': ");
                push_str(&mut text, source.as_str());
            },
            StoreError::Serialize { message } => {
                push_str(&mut text, "could not serialize analysis: ");
                push_str(&mut text, message.as_str());
            },
            StoreError::Deserialize { path, message } => {
                push_str(&mut text, "could not read analysis from '");
                push_str(&mut text, path.as_str());
                push_str(&mut text, "': ");
                push_str(&mut text, message.as_str());
            },
            StoreError::NotFound { path } => {
                push_str(&mut text, "no analysis result at '");
                push_str(&mut text, path.as_str());
                push_str(&mut text, "'");
            },
        }
        text
    }
}

/// Persists the latest analysis result under `<workspace>/.forge/analysis/`.
pub struct AnalysisStore {
    workspace: String,
}

impl AnalysisStore {
    pub closed spec fn spec_workspace(&self) -> Seq<char> {
        self.workspace@
    }

    /// Where the latest result is kept: `<workspace>/.forge/analysis/latest.json`.
    pub open spec fn result_path(&self) -> Seq<char> {
        joined_path(joined_path(joined_path(self.spec_workspace(), ".forge"@), "analysis"@), "latest.json"@)
    }

    pub fn new(workspace: String) -> (r: Self)
        ensures
            r.spec_workspace() == workspace@,
    {
        AnalysisStore { workspace }
    }

    pub fn path(&self) -> (r: String)
        ensures
            r@ == self.result_path(),
    {
        let forge = join_path(self.workspace.as_str(), ".forge");
        let analysis = join_path(forge.as_str(), "analysis");
        join_path(analysis.as_str(), "latest.json")
    }

    /// The error for a failed read of the stored result at `path`.
    pub fn read_error(path: String, not_found: bool, source: String) -> (r: StoreError)
        ensures
            not_found ==> r == (StoreError::NotFound { path }),
            !not_found ==> r == (StoreError::Io { path, source }),
    {
        if not_found {
            StoreError::NotFound { path }
        } else {
            StoreError::Io { path, source }
        }
    }
}

} // verus!

//! The failures that end a run, one variant per kind.
use vstd::prelude::*;

verus! {

/// Why a configuration cannot be used.
#[derive(Debug)]
pub enum ConfigProblem {
    /// The file to watch does not exist.
    LogfileMissing(String),
    /// The configuration could not be read or parsed.
    Malformed(String),
    /// The template of literal rule `rule` has no `{label}` in it.
    MissingPlaceholder { rule: usize },
    /// The expression of pattern rule `rule` does not compile.
    InvalidExpression { rule: usize, error: regex::Error },
    /// The expression of pattern rule `rule` has no group named `field`.
    MissingGroup { rule: usize, field: String },
}

/// An error that ends the run.
#[derive(Debug)]
pub enum AtlasError {
    /// Watching the file for changes could not be set up or failed.
    FsNotifyError(String),
    /// Reading the watched file failed.
    IoError(String),
    /// An alert could not be shown.
    NotifyError(String),
    /// The configuration cannot be used.
    ConfigError(ConfigProblem),
}

} // verus!

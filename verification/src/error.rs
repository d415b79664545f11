//! Errors that the library reports, and their mathematical view.
use vstd::prelude::*;

verus! {

/// Why an operation of the library was refused.
#[derive(Debug, Clone, PartialEq, Eq)]
pub enum HooxError {
    /// No ancestor of the working directory holds a `.git` directory.
    NotAGitRepository,
    /// The hook is not configured.
    HookNotFound { hook: String },
    /// A version string has fewer than two dot-separated parts.
    InvalidVersionFormat,
    /// Below 1.0.0 the minor versions of config and CLI differ.
    IncompatibleMinorVersion { config: String, cli: String },
    /// The major versions of config and CLI differ.
    IncompatibleMajorVersion { config: String, cli: String },
    /// A `files.glob` pattern does not parse.
    InvalidGlob { pattern: String, message: String },
    /// The glob patterns could not be combined into one matcher.
    GlobSetBuild { message: String },
    /// A `files.regex` pattern does not compile.
    InvalidRegex { pattern: String, message: String },
    /// The `branch` pattern does not compile.
    InvalidBranchRegex { pattern: String, message: String },
    /// An `env.keep` pattern does not compile.
    InvalidKeepRegex { pattern: String, message: String },
    /// The `program` array is empty.
    EmptyProgram,
    /// The command sets both or neither of `inline` and `file`.
    InvalidCommandSpec,
    /// The command ran out of time on its last attempt.
    TimedOut { label: String, seconds: u64 },
    /// Validation found this many problems.
    ValidationFailed { count: usize },
}

/// The mathematical view of a [`HooxError`]: its strings as character sequences.
pub enum ErrorView {
    NotAGitRepository,
    HookNotFound { hook: Seq<char> },
    InvalidVersionFormat,
    IncompatibleMinorVersion { config: Seq<char>, cli: Seq<char> },
    IncompatibleMajorVersion { config: Seq<char>, cli: Seq<char> },
    InvalidGlob { pattern: Seq<char>, message: Seq<char> },
    GlobSetBuild { message: Seq<char> },
    InvalidRegex { pattern: Seq<char>, message: Seq<char> },
    InvalidBranchRegex { pattern: Seq<char>, message: Seq<char> },
    InvalidKeepRegex { pattern: Seq<char>, message: Seq<char> },
    EmptyProgram,
    InvalidCommandSpec,
    TimedOut { label: Seq<char>, seconds: u64 },
    ValidationFailed { count: nat },
}

impl View for HooxError {
    type V = ErrorView;

    open spec fn view(&self) -> ErrorView {
        match self {
            HooxError::NotAGitRepository => ErrorView::NotAGitRepository,
            HooxError::HookNotFound { hook } => ErrorView::HookNotFound { hook: hook@ },
            HooxError::InvalidVersionFormat => ErrorView::InvalidVersionFormat,
            HooxError::IncompatibleMinorVersion { config, cli } => ErrorView::IncompatibleMinorVersion {
                config: config@,
                cli: cli@,
            },
            HooxError::IncompatibleMajorVersion { config, cli } => ErrorView::IncompatibleMajorVersion {
                config: config@,
                cli: cli@,
            },
            HooxError::InvalidGlob { pattern, message } => ErrorView::InvalidGlob {
                pattern: pattern@,
                message: message@,
            },
            HooxError::GlobSetBuild { message } => ErrorView::GlobSetBuild { message: message@ },
            HooxError::InvalidRegex { pattern, message } => ErrorView::InvalidRegex {
                pattern: pattern@,
                message: message@,
            },
            HooxError::InvalidBranchRegex { pattern, message } => ErrorView::InvalidBranchRegex {
                pattern: pattern@,
                message: message@,
            },
            HooxError::InvalidKeepRegex { pattern, message } => ErrorView::InvalidKeepRegex {
                pattern: pattern@,
                message: message@,
            },
            HooxError::EmptyProgram => ErrorView::EmptyProgram,
            HooxError::InvalidCommandSpec => ErrorView::InvalidCommandSpec,
            HooxError::TimedOut { label, seconds } => ErrorView::TimedOut { label: label@, seconds: *seconds },
            HooxError::ValidationFailed { count } => ErrorView::ValidationFailed { count: *count as nat },
        }
    }
}

} // verus!

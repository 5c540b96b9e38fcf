//! The fatal conditions of a run.

use vstd::prelude::*;
use crate::text::joined;

verus! {

/// The three patterns that a run compiles.
#[derive(Clone, Copy, Debug, PartialEq, Eq, Structural)]
pub enum Rule {
    /// The pattern that a candidate name must match to be reported.
    Query,
    /// The pattern whose matches are removed from a candidate name.
    Clean,
    /// The pattern that rules a candidate name out.
    Ignore,
}

/// Why a run could not start, or could not finish.
#[derive(Debug, PartialEq, Eq)]
pub enum RunError {
    /// No configuration document within the search depth.
    ConfigNotFound,
    /// The configuration document is malformed, or a field has the wrong type.
    ConfigParse { detail: String },
    /// The query, the clean pattern or the ignore pattern does not compile.
    RegexCompile { rule: Rule, detail: String },
    /// A color is not six hex digits, with or without a leading `#`.
    ColorFormat { value: String },
    /// A configured directory exists but cannot be listed.
    DirectoryUnreadable { path: String },
    /// There is no search root: none was given and the working directory is
    /// unknown.
    WorkingDirectoryUnavailable,
}

/// The step that failed when a pattern did not compile.
pub open spec fn rule_context(rule: Rule) -> Seq<char> {
    match rule {
        Rule::Query => "failed to parse query expression: "@,
        Rule::Clean => "failed to parse clean pattern: "@,
        Rule::Ignore => "failed to parse ignore pattern: "@,
    }
}

impl RunError {
    /// The message of this error: the step that failed, then its cause.
    pub open spec fn message_text(self) -> Seq<char> {
        match self {
            RunError::ConfigNotFound => "failed to locate `bsrc.toml` in or above the search root"@,
            RunError::ConfigParse { detail } => "failed to parse configuration: "@ + detail@,
            RunError::RegexCompile { rule, detail } => rule_context(rule) + detail@,
            RunError::ColorFormat { value } => "expected a hex color such as \"#33AABB\", found: "@
                + value@,
            RunError::DirectoryUnreadable { path } => "failed to read directory: "@ + path@,
            RunError::WorkingDirectoryUnavailable => "failed to retrieve current directory"@,
        }
    }

    /// The message to show to the user.
    pub fn message(&self) -> (out: String)
        ensures
            out@ == self.message_text(),
    {
        match self {
            RunError::ConfigNotFound => {
                "failed to locate `bsrc.toml` in or above the search root".to_owned()
            },
            RunError::ConfigParse { detail } => {
                joined("failed to parse configuration: ", detail.as_str())
            },
            RunError::RegexCompile { rule, detail } => {
                let context = match rule {
                    Rule::Query => "failed to parse query expression: ",
                    Rule::Clean => "failed to parse clean pattern: ",
                    Rule::Ignore => "failed to parse ignore pattern: ",
                };
                joined(context, detail.as_str())
            },
            RunError::ColorFormat { value } => {
                joined("expected a hex color such as \"#33AABB\", found: ", value.as_str())
            },
            RunError::DirectoryUnreadable { path } => {
                joined("failed to read directory: ", path.as_str())
            },
            RunError::WorkingDirectoryUnavailable => {
                "failed to retrieve current directory".to_owned()
            },
        }
    }
}

} // verus!

//! Patterns that the regex engine accepts, and the query built from them.

use vstd::prelude::*;
use crate::engine::{
    regex_accepts, regex_error, regex_is_match, regex_match, regex_rejection, regex_replace,
    regex_replace_all,
};
use crate::error::{Rule, RunError};
use crate::text::joined;

verus! {

/// `error` says that the pattern `source` of `rule` does not compile, in the
/// words of the engine.
pub open spec fn is_rejection(error: RunError, rule: Rule, source: Seq<char>) -> bool {
    &&& error is RegexCompile
    &&& error->rule == rule
    &&& regex_error(source) == Some(error->RegexCompile_detail@)
}

/// A pattern that the regex engine accepts.
///
/// Its view is its source text.
#[derive(Debug)]
pub struct Pattern {
    source: String,
}

impl View for Pattern {
    type V = Seq<char>;

    closed spec fn view(&self) -> Seq<char> {
        self.source@
    }
}

impl Pattern {
    #[verifier::type_invariant]
    spec fn accepted(self) -> bool {
        regex_accepts(self.source@)
    }

    /// Compiles `source`. Fails with `RegexCompile` for `rule`, carrying the
    /// engine's diagnostic, exactly when the engine rejects `source`.
    pub fn compile(rule: Rule, source: &str) -> (r: Result<Pattern, RunError>)
        ensures
            regex_accepts(source@) ==> r is Ok && r->Ok_0@ == source@,
            !regex_accepts(source@) ==> r is Err && is_rejection(r->Err_0, rule, source@),
    {
        match regex_rejection(source) {
            None => Ok(Pattern { source: source.to_owned() }),
            Some(detail) => Err(RunError::RegexCompile { rule, detail }),
        }
    }

    /// The source text.
    pub fn source(&self) -> (s: &str)
        ensures
            s@ == self@,
    {
        self.source.as_str()
    }

    /// Whether the pattern matches anywhere in `text`.
    pub fn is_match(&self, text: &str) -> (b: bool)
        ensures
            b == regex_is_match(self@, text@),
    {
        proof {
            use_type_invariant(self);
        }
        regex_match(self.source.as_str(), text)
    }

    /// `text` with every non-overlapping match of the pattern removed, from
    /// left to right.
    pub fn remove_matches(&self, text: &str) -> (out: String)
        ensures
            out@ == regex_replace_all(self@, text@, Seq::empty()),
    {
        proof {
            use_type_invariant(self);
        }
        let nothing = String::new();
        regex_replace(self.source.as_str(), text, nothing.as_str())
    }
}

/// The inline flag that makes a pattern case-insensitive.
pub open spec fn case_insensitive(pattern: Seq<char>) -> Seq<char> {
    "(?i)"@ + pattern
}

/// Compiles `source` with the case-insensitive flag in front of it.
pub fn compile_case_insensitive(rule: Rule, source: &str) -> (r: Result<Pattern, RunError>)
    ensures
        regex_accepts(case_insensitive(source@)) ==> r is Ok && r->Ok_0@ == case_insensitive(
            source@,
        ),
        !regex_accepts(case_insensitive(source@)) ==> r is Err && is_rejection(
            r->Err_0,
            rule,
            case_insensitive(source@),
        ),
{
    let flagged = joined("(?i)", source);
    Pattern::compile(rule, flagged.as_str())
}

/// What a candidate name is tested against.
#[derive(Debug)]
pub enum Query {
    /// Every name matches.
    All,
    /// The names in which the pattern matches somewhere.
    Expr(Pattern),
}

/// The model of a `Query`.
pub enum QueryModel {
    All,
    Expr(Seq<char>),
}

impl View for Query {
    type V = QueryModel;

    open spec fn view(&self) -> QueryModel {
        match self {
            Query::All => QueryModel::All,
            Query::Expr(pattern) => QueryModel::Expr(pattern@),
        }
    }
}

impl QueryModel {
    /// Whether the query reports `name`.
    pub open spec fn accepts(self, name: Seq<char>) -> bool {
        match self {
            QueryModel::All => true,
            QueryModel::Expr(pattern) => regex_is_match(pattern, name),
        }
    }
}

impl Query {
    /// Whether the query reports `name`.
    pub fn matches(&self, name: &str) -> (b: bool)
        ensures
            b == self@.accepts(name@),
    {
        match self {
            Query::All => true,
            Query::Expr(pattern) => pattern.is_match(name),
        }
    }
}

/// The source of the pattern for the query text `raw`.
pub open spec fn query_source(case_sensitive: bool, raw: Seq<char>) -> Seq<char> {
    if case_sensitive {
        raw
    } else {
        case_insensitive(raw)
    }
}

/// Builds the query of a run.
///
/// With `match_all`, every name matches and `raw` is not looked at. Otherwise
/// the query is `raw`, case-insensitive unless `case_sensitive`; it fails with
/// `RegexCompile` for `Rule::Query` exactly when the engine rejects it.
pub fn compile_query(match_all: bool, case_sensitive: bool, raw: &str) -> (r: Result<
    Query,
    RunError,
>)
    ensures
        match_all ==> r is Ok && r->Ok_0@ == QueryModel::All,
        !match_all && regex_accepts(query_source(case_sensitive, raw@)) ==> r is Ok && r->Ok_0@
            == QueryModel::Expr(query_source(case_sensitive, raw@)),
        !match_all && !regex_accepts(query_source(case_sensitive, raw@)) ==> r is Err
            && is_rejection(r->Err_0, Rule::Query, query_source(case_sensitive, raw@)),
{
    if match_all {
        return Ok(Query::All);
    }
    let compiled = if case_sensitive {
        Pattern::compile(Rule::Query, raw)
    } else {
        compile_case_insensitive(Rule::Query, raw)
    };
    match compiled {
        Ok(pattern) => Ok(Query::Expr(pattern)),
        Err(error) => Err(error),
    }
}

} // verus!

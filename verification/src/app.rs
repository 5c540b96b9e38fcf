//! The configuration of one run, built once and then only read.

use vstd::prelude::*;
use crate::config::{ascending_ids, Config, ConfigModel};
use crate::error::RunError;
use crate::pattern::{Query, QueryModel};
use crate::presence::{existing, lemma_existing_ascending, missing_warnings, retain_existing};
use crate::select::{lemma_selected_ascending, select, selected, Selection, SelectionModel};

verus! {

/// Everything that a run reads: where to search, for what, in which
/// directories, and how to report.
#[derive(Debug)]
pub struct App {
    /// The search root, to which the paths of the directories are relative.
    pub root: String,
    /// What a candidate name must match to be reported.
    pub query: Query,
    /// The directories to scan and the global rules.
    pub config: Config,
    /// Report one count per directory, in place of the matches.
    pub counts_only: bool,
    /// Leave out the line that sums up the matches.
    pub no_count_output: bool,
    /// Leave candidate names as they are: do not apply the clean pattern.
    pub no_clean: bool,
    /// Rule no candidate out: do not apply the ignore pattern.
    pub no_ignore: bool,
}

/// The model of an `App`.
pub struct AppModel {
    pub root: Seq<char>,
    pub query: QueryModel,
    pub config: ConfigModel,
    pub counts_only: bool,
    pub no_count_output: bool,
    pub no_clean: bool,
    pub no_ignore: bool,
}

impl View for App {
    type V = AppModel;

    open spec fn view(&self) -> AppModel {
        AppModel {
            root: self.root@,
            query: self.query@,
            config: self.config@,
            counts_only: self.counts_only,
            no_count_output: self.no_count_output,
            no_clean: self.no_clean,
            no_ignore: self.no_ignore,
        }
    }
}

/// How a run treats the candidates and what it prints.
#[derive(Clone, Copy, Debug, Default)]
pub struct Options {
    /// Report one count per directory, in place of the matches.
    pub counts_only: bool,
    /// Leave out the line that sums up the matches.
    pub no_count_output: bool,
    /// Do not apply the clean pattern.
    pub no_clean: bool,
    /// Do not apply the ignore pattern.
    pub no_ignore: bool,
}

/// The search root of a run.
///
/// With `match_all` no pattern is needed, so a lone positional argument, which
/// arrives as `pattern`, is the path of the search root. Otherwise the root is
/// `path` where it is given, and the working directory where it is not.
pub open spec fn root_of(
    match_all: bool,
    pattern: Option<Seq<char>>,
    path: Option<Seq<char>>,
    working_dir: Option<Seq<char>>,
) -> Option<Seq<char>> {
    if match_all && pattern is Some {
        pattern
    } else if path is Some {
        path
    } else {
        working_dir
    }
}

/// The text of an optional argument.
pub open spec fn text_of(argument: Option<String>) -> Option<Seq<char>> {
    match argument {
        Some(text) => Some(text@),
        None => None,
    }
}

/// Settles the search root of a run from the positional arguments and the
/// working directory, `None` where the working directory could not be had.
///
/// Fails with `WorkingDirectoryUnavailable` exactly when the root would be the
/// working directory and there is none.
pub fn resolve_root(
    match_all: bool,
    pattern: Option<String>,
    path: Option<String>,
    working_dir: Option<String>,
) -> (r: Result<String, RunError>)
    ensures
        match root_of(match_all, text_of(pattern), text_of(path), text_of(working_dir)) {
            Some(root) => r is Ok && r->Ok_0@ == root,
            None => r is Err && r->Err_0 is WorkingDirectoryUnavailable,
        },
{
    let chosen = if match_all && pattern.is_some() {
        pattern
    } else if path.is_some() {
        path
    } else {
        working_dir
    };
    match chosen {
        Some(root) => Ok(root),
        None => Err(RunError::WorkingDirectoryUnavailable),
    }
}

/// The run that `App::build` builds.
pub open spec fn built(
    root: Seq<char>,
    query: QueryModel,
    config: ConfigModel,
    present: Seq<bool>,
    selection: SelectionModel,
    options: Options,
) -> AppModel {
    AppModel {
        root,
        query,
        config: ConfigModel {
            dirs: selected(existing(config.dirs, present), selection),
            output_fmt: config.output_fmt,
            clean: config.clean,
            ignore: config.ignore,
        },
        counts_only: options.counts_only,
        no_count_output: options.no_count_output,
        no_clean: options.no_clean,
        no_ignore: options.no_ignore,
    }
}

impl App {
    /// Builds the run over the directories of `config` that take part.
    ///
    /// `present[i]` says whether the path of the directory at `i` exists under
    /// the search root. A directory that does not exist is dropped, with one
    /// warning; the others are narrowed down by `selection`. The directories
    /// stay in their order, so in ascending order of ids if they came so.
    ///
    /// Returns the run and the warnings, in the order of the directories.
    pub fn build(
        root: String,
        query: Query,
        config: Config,
        present: &Vec<bool>,
        selection: &Selection,
        options: Options,
    ) -> (r: (App, Vec<String>))
        ensures
            r.0@ == built(root@, query@, config@, present@, selection@, options),
            r.1.deep_view() == missing_warnings(config@.dirs, present@),
            ascending_ids(config@.dirs) ==> ascending_ids(r.0@.config.dirs),
    {
        proof {
            if ascending_ids(config@.dirs) {
                lemma_existing_ascending(config@.dirs, present@);
                lemma_selected_ascending(existing(config@.dirs, present@), selection@);
            }
        }
        let Config { dirs, output_fmt, clean, ignore } = config;
        let (found, warnings) = retain_existing(dirs, present);
        let active = select(found, selection);
        let app = App {
            root,
            query,
            config: Config { dirs: active, output_fmt, clean, ignore },
            counts_only: options.counts_only,
            no_count_output: options.no_count_output,
            no_clean: options.no_clean,
            no_ignore: options.no_ignore,
        };
        (app, warnings)
    }
}

} // verus!

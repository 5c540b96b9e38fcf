//! Search a configured set of directories for file names that match a pattern.
//!
//! A run is built once from the command line and the configuration document,
//! scans each configured directory without descending into it, and reports
//! the names that match, directory by directory, in a fixed order.
//!
//! The crate holds the rules of a run, and every function of it is verified
//! against its contract:
//!
//! - [`locate`] finds the configuration document in or above the search root;
//! - [`config`] builds the directories and the global rules from the decoded
//!   document, the directories in ascending order of their ids;
//! - [`pattern`] compiles the query and the global rules;
//! - [`presence`] and [`select`] settle which directories take part;
//! - [`app`] assembles the run;
//! - [`scan`] turns the listing of one directory into the names to report;
//! - [`schedule`] decides in which order scans are started and their results
//!   taken back, and sorts the results;
//! - [`output`] renders the report;
//! - [`run`] does all of this for listings that are already at hand.
//!
//! Reading files, listing directories and running scans side by side are left
//! to the caller, which hands in plain values. Two crates are called from here,
//! behind contracts that are stated but not proved: the regex engine, in
//! [`engine`], and the coloring of a label, in [`output`].

pub mod app;
pub mod color;
pub mod config;
pub mod engine;
pub mod error;
pub mod locate;
pub mod output;
pub mod pattern;
pub mod presence;
pub mod run;
pub mod scan;
pub mod schedule;
pub mod select;
pub mod text;

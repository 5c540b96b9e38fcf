use bsrc::app::{resolve_root, App, Options};
use bsrc::config::{from_toml_path, Config, ParsedConfig, ParsedDir};
use bsrc::error::RunError;
use bsrc::pattern::{compile_query, Query};
use bsrc::select::Selection;

fn some(text: &str) -> Option<String> {
    Some(text.to_string())
}

fn config() -> Config {
    let section = |id: &str| ParsedDir {
        id: id.to_string(),
        path: format!("roms/{id}"),
        prefix: id.to_uppercase(),
        match_dirs: None,
        color: None,
    };
    from_toml_path(&ParsedConfig {
        dirs: vec![section("snes"), section("gba"), section("n64"), section("ds")],
        output_fmt: Some("%f".to_string()),
        clean: Some("x".to_string()),
        ignore: None,
    })
    .unwrap()
}

fn ids(app: &App) -> Vec<String> {
    app.config.dirs.iter().map(|dir| dir.id.clone()).collect()
}

#[test]
fn the_root_is_the_path_argument() {
    let games = Ok("/games".to_string());
    assert_eq!(resolve_root(false, some("mario"), some("/games"), some("/home")), games);
    assert_eq!(resolve_root(false, some("mario"), some("/games"), None), games);
    assert_eq!(resolve_root(true, None, some("/games"), some("/home")), games);
}

#[test]
fn the_root_defaults_to_the_working_directory() {
    let home = Ok("/home".to_string());
    assert_eq!(resolve_root(false, some("mario"), None, some("/home")), home);
    assert_eq!(resolve_root(true, None, None, some("/home")), home);
}

#[test]
fn with_match_all_a_lone_argument_is_the_root() {
    let archive = Ok("/archive".to_string());
    assert_eq!(resolve_root(true, some("/archive"), None, some("/home")), archive);
    assert_eq!(resolve_root(true, some("/archive"), some("/games"), None), archive);
}

#[test]
fn without_a_root_the_run_fails() {
    let unavailable = Err(RunError::WorkingDirectoryUnavailable);
    assert_eq!(resolve_root(false, some("mario"), None, None), unavailable);
    assert_eq!(resolve_root(true, None, None, None), unavailable);
    assert_eq!(resolve_root(false, None, None, None), unavailable);
}

#[test]
fn build_keeps_what_it_is_given() {
    let options =
        Options { counts_only: true, no_count_output: false, no_clean: true, no_ignore: false };
    let (app, warnings) = App::build(
        "/games".to_string(),
        compile_query(false, false, "mario").unwrap(),
        config(),
        &vec![true; 4],
        &Selection::Everything,
        options,
    );
    assert!(warnings.is_empty());
    assert_eq!(app.root, "/games");
    assert!(matches!(app.query, Query::Expr(_)));
    assert_eq!(ids(&app), ["ds", "gba", "n64", "snes"]);
    assert_eq!(app.config.output_fmt, "%f");
    assert_eq!(app.config.clean.as_ref().unwrap().source(), "(?i)x");
    assert!(app.config.ignore.is_none());
    assert!(app.counts_only);
    assert!(!app.no_count_output);
    assert!(app.no_clean);
    assert!(!app.no_ignore);
}

#[test]
fn build_drops_missing_directories_before_it_selects() {
    let (app, warnings) = App::build(
        "/games".to_string(),
        Query::All,
        config(),
        &vec![true, false, true, false],
        &Selection::Exclude(vec!["ds".to_string(), "snes".to_string()]),
        Options::default(),
    );
    assert_eq!(ids(&app), ["n64"]);
    assert_eq!(
        warnings,
        [
            "skipping directory `gba`: path `roms/gba` does not exist",
            "skipping directory `snes`: path `roms/snes` does not exist",
        ]
    );
    assert!(!app.counts_only && !app.no_count_output && !app.no_clean && !app.no_ignore);
}

#[test]
fn build_keeps_only_the_chosen_directories() {
    let (app, warnings) = App::build(
        String::new(),
        Query::All,
        config(),
        &vec![true, true, true, true],
        &Selection::Only(vec!["snes".to_string(), "ds".to_string(), "psx".to_string()]),
        Options::default(),
    );
    assert_eq!(ids(&app), ["ds", "snes"]);
    assert!(warnings.is_empty());
}

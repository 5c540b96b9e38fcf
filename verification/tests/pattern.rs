use bsrc::error::{Rule, RunError};
use bsrc::pattern::{compile_case_insensitive, compile_query, Pattern, Query};

#[test]
fn compile_keeps_the_source() {
    let pattern = Pattern::compile(Rule::Clean, r"\(.*\)").unwrap();
    assert_eq!(pattern.source(), r"\(.*\)");
}

#[test]
fn compile_rejects_what_the_engine_rejects() {
    for rule in [Rule::Query, Rule::Clean, Rule::Ignore] {
        match Pattern::compile(rule, "foo(bar") {
            Err(RunError::RegexCompile { rule: failed, detail }) => {
                assert_eq!(failed, rule);
                assert!(!detail.is_empty());
                assert!(detail.contains("unclosed group"), "{detail}");
            }
            other => panic!("unexpected result: {other:?}"),
        }
    }
    assert!(Pattern::compile(Rule::Query, r"\w{1000}").is_err());
}

#[test]
fn is_match_looks_anywhere_in_the_text() {
    let pattern = Pattern::compile(Rule::Query, "ario").unwrap();
    assert!(pattern.is_match("Mario64"));
    assert!(!pattern.is_match("Zelda"));
    let anchored = Pattern::compile(Rule::Query, "^ario").unwrap();
    assert!(!anchored.is_match("Mario64"));
}

#[test]
fn remove_matches_removes_every_match() {
    let pattern = Pattern::compile(Rule::Clean, r"\(.*?\)").unwrap();
    assert_eq!(pattern.remove_matches("Pokemon Snap (USA)"), "Pokemon Snap ");
    assert_eq!(pattern.remove_matches("(a) x (b) y (c)"), " x  y ");
    assert_eq!(pattern.remove_matches("nothing"), "nothing");
    let dollar = Pattern::compile(Rule::Clean, r"\$1").unwrap();
    assert_eq!(dollar.remove_matches("cost $1 now"), "cost  now");
}

#[test]
fn case_insensitive_patterns_carry_the_flag() {
    let pattern = compile_case_insensitive(Rule::Ignore, "bios").unwrap();
    assert_eq!(pattern.source(), "(?i)bios");
    assert!(pattern.is_match("[BIOS] Game Boy"));
    assert!(compile_case_insensitive(Rule::Ignore, "(").is_err());
}

#[test]
fn query_is_case_insensitive_by_default() {
    let query = compile_query(false, false, "mario").unwrap();
    assert!(query.matches("Mario64"));
    assert!(query.matches("super mario"));
    assert!(!query.matches("Zelda"));
    match query {
        Query::Expr(pattern) => assert_eq!(pattern.source(), "(?i)mario"),
        Query::All => panic!("not a pattern"),
    }
}

#[test]
fn query_can_be_case_sensitive() {
    let query = compile_query(false, true, "mario").unwrap();
    assert!(!query.matches("Mario64"));
    assert!(query.matches("super mario"));
    match query {
        Query::Expr(pattern) => assert_eq!(pattern.source(), "mario"),
        Query::All => panic!("not a pattern"),
    }
}

#[test]
fn match_all_query_matches_every_name() {
    let query = compile_query(true, false, "(").unwrap();
    assert!(matches!(query, Query::All));
    assert!(query.matches("Mario64"));
    assert!(query.matches(""));
    assert!(query.matches("\n"));
}

#[test]
fn query_that_does_not_compile_is_an_error() {
    match compile_query(false, false, "mario(") {
        Err(RunError::RegexCompile { rule, detail }) => {
            assert_eq!(rule, Rule::Query);
            assert!(!detail.is_empty());
        }
        other => panic!("unexpected result: {other:?}"),
    }
    assert!(compile_query(false, true, "[").is_err());
}

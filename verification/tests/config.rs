use bsrc::config::{
    default_fmt, default_output_fmt, from_toml_path, Dir, ParsedConfig, ParsedDir,
};
use bsrc::error::{Rule, RunError};

fn section(id: &str, path: &str, prefix: &str) -> ParsedDir {
    ParsedDir {
        id: id.to_string(),
        path: path.to_string(),
        prefix: prefix.to_string(),
        match_dirs: None,
        color: None,
    }
}

fn document(dirs: Vec<ParsedDir>) -> ParsedConfig {
    ParsedConfig { dirs, output_fmt: None, clean: None, ignore: None }
}

fn ids(dirs: &[Dir]) -> Vec<String> {
    dirs.iter().map(|dir| dir.id.clone()).collect()
}

#[test]
fn default_templates_show_prefix_and_name() {
    assert_eq!(default_fmt(), "%p: %f");
    assert_eq!(default_output_fmt(), "%p: %f");
}

#[test]
fn directories_are_enumerated_in_ascending_order_of_ids() {
    let parsed = document(vec![
        section("snes", "roms/snes", "SNES"),
        section("gba", "roms/gba", "GBA"),
        section("n64", "roms/n64", "N64"),
        section("ds", "roms/ds", "DS"),
    ]);
    let config = from_toml_path(&parsed).unwrap();
    assert_eq!(ids(&config.dirs), ["ds", "gba", "n64", "snes"]);
}

#[test]
fn enumeration_does_not_depend_on_declaration_order() {
    let one = document(vec![
        section("b", "pb", "B"),
        section("a", "pa", "A"),
        section("c", "pc", "C"),
    ]);
    let other = document(vec![
        section("c", "pc", "C"),
        section("b", "pb", "B"),
        section("a", "pa", "A"),
    ]);
    let first = from_toml_path(&one).unwrap();
    let second = from_toml_path(&other).unwrap();
    assert_eq!(first.dirs, second.dirs);
    assert_eq!(ids(&first.dirs), ["a", "b", "c"]);
}

#[test]
fn ids_are_ordered_by_code_point() {
    let parsed = document(vec![
        section("b", "", ""),
        section("B", "", ""),
        section("ab", "", ""),
        section("a", "", ""),
        section("", "", ""),
        section("é", "", ""),
        section("10", "", ""),
        section("9", "", ""),
    ]);
    let config = from_toml_path(&parsed).unwrap();
    assert_eq!(ids(&config.dirs), ["", "10", "9", "B", "a", "ab", "b", "é"]);
}

#[test]
fn a_section_is_turned_into_a_directory() {
    let mut gba = section("gba", "roms/gba", "Game Boy Advance");
    gba.match_dirs = Some(true);
    gba.color = Some("#33AABB".to_string());
    let config = from_toml_path(&document(vec![gba, section("nes", "roms/nes", "NES")])).unwrap();
    assert_eq!(
        config.dirs,
        vec![
            Dir {
                id: "gba".to_string(),
                path: "roms/gba".to_string(),
                raw_prefix: "Game Boy Advance".to_string(),
                match_dirs: true,
                color: [0x33, 0xAA, 0xBB],
            },
            Dir {
                id: "nes".to_string(),
                path: "roms/nes".to_string(),
                raw_prefix: "NES".to_string(),
                match_dirs: false,
                color: [255, 255, 255],
            },
        ]
    );
}

#[test]
fn global_fields_have_defaults() {
    let config = from_toml_path(&document(vec![])).unwrap();
    assert!(config.dirs.is_empty());
    assert_eq!(config.output_fmt, "%p: %f");
    assert!(config.clean.is_none());
    assert!(config.ignore.is_none());
}

#[test]
fn global_rules_are_compiled_case_insensitively() {
    let parsed = ParsedConfig {
        dirs: vec![],
        output_fmt: Some("%f [%p]".to_string()),
        clean: Some(r"\(.*\)".to_string()),
        ignore: Some("bios".to_string()),
    };
    let config = from_toml_path(&parsed).unwrap();
    assert_eq!(config.output_fmt, "%f [%p]");
    let clean = config.clean.unwrap();
    let ignore = config.ignore.unwrap();
    assert_eq!(clean.source(), r"(?i)\(.*\)");
    assert_eq!(ignore.source(), "(?i)bios");
    assert!(ignore.is_match("[BIOS] Nintendo"));
}

#[test]
fn a_malformed_color_is_a_color_format_error() {
    let mut bad = section("gba", "roms/gba", "GBA");
    bad.color = Some("#12345".to_string());
    assert_eq!(
        from_toml_path(&document(vec![section("a", "", ""), bad])).unwrap_err(),
        RunError::ColorFormat { value: "#12345".to_string() }
    );
}

#[test]
fn a_repeated_id_is_a_parse_error() {
    let parsed = document(vec![
        section("gba", "one", "One"),
        section("nes", "two", "Two"),
        section("gba", "three", "Three"),
    ]);
    assert_eq!(
        from_toml_path(&parsed).unwrap_err(),
        RunError::ConfigParse { detail: "duplicate directory id: gba".to_string() }
    );
}

#[test]
fn a_rule_that_does_not_compile_is_a_regex_error() {
    let mut parsed = document(vec![section("gba", "roms/gba", "GBA")]);
    parsed.clean = Some("(".to_string());
    parsed.ignore = Some("[".to_string());
    match from_toml_path(&parsed) {
        Err(RunError::RegexCompile { rule, detail }) => {
            assert_eq!(rule, Rule::Clean);
            assert!(!detail.is_empty());
        }
        other => panic!("unexpected result: {other:?}"),
    }
    parsed.clean = None;
    match from_toml_path(&parsed) {
        Err(RunError::RegexCompile { rule, .. }) => assert_eq!(rule, Rule::Ignore),
        other => panic!("unexpected result: {other:?}"),
    }
}

#[test]
fn the_first_defect_decides_the_error() {
    let mut bad_color = section("z", "", "");
    bad_color.color = Some("red".to_string());
    let mut parsed = document(vec![
        section("a", "", ""),
        section("a", "", ""),
        bad_color,
    ]);
    parsed.clean = Some("(".to_string());
    assert_eq!(
        from_toml_path(&parsed).unwrap_err(),
        RunError::ConfigParse { detail: "duplicate directory id: a".to_string() }
    );
    parsed.dirs.swap(1, 2);
    assert_eq!(
        from_toml_path(&parsed).unwrap_err(),
        RunError::ColorFormat { value: "red".to_string() }
    );
    let mut both = section("a", "", "");
    both.color = Some("blue".to_string());
    parsed.dirs = vec![section("a", "", ""), both];
    assert_eq!(
        from_toml_path(&parsed).unwrap_err(),
        RunError::ColorFormat { value: "blue".to_string() }
    );
}

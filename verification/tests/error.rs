use bsrc::error::{Rule, RunError};

#[test]
fn messages_name_the_failing_step() {
    assert_eq!(
        RunError::ConfigNotFound.message(),
        "failed to locate `bsrc.toml` in or above the search root"
    );
    assert_eq!(
        RunError::ConfigParse { detail: "expected a string".to_string() }.message(),
        "failed to parse configuration: expected a string"
    );
    assert_eq!(
        RunError::RegexCompile { rule: Rule::Query, detail: "unclosed group".to_string() }
            .message(),
        "failed to parse query expression: unclosed group"
    );
    assert_eq!(
        RunError::RegexCompile { rule: Rule::Clean, detail: "x".to_string() }.message(),
        "failed to parse clean pattern: x"
    );
    assert_eq!(
        RunError::RegexCompile { rule: Rule::Ignore, detail: "y".to_string() }.message(),
        "failed to parse ignore pattern: y"
    );
    assert_eq!(
        RunError::ColorFormat { value: "#12".to_string() }.message(),
        "expected a hex color such as \"#33AABB\", found: #12"
    );
    assert_eq!(
        RunError::DirectoryUnreadable { path: "roms/gba".to_string() }.message(),
        "failed to read directory: roms/gba"
    );
    assert_eq!(
        RunError::WorkingDirectoryUnavailable.message(),
        "failed to retrieve current directory"
    );
}

use bsrc::error::RunError;
use bsrc::locate::{find_toml_path, search_notice, CONFIG_FILE, MAX_ANCESTORS};

#[test]
fn the_document_has_its_name_and_search_depth() {
    assert_eq!(CONFIG_FILE, "bsrc.toml");
    assert_eq!(MAX_ANCESTORS, 4);
}

#[test]
fn the_document_is_found_in_the_nearest_directory() {
    assert_eq!(find_toml_path(&vec![true]), Ok(0));
    assert_eq!(find_toml_path(&vec![true, true, true]), Ok(0));
    assert_eq!(find_toml_path(&vec![false, true, true]), Ok(1));
    assert_eq!(find_toml_path(&vec![false, false, false, false, true]), Ok(4));
    assert_eq!(find_toml_path(&vec![false, false, true, false, true, true]), Ok(2));
}

#[test]
fn the_document_is_not_searched_beyond_four_ancestors() {
    assert_eq!(find_toml_path(&vec![]), Err(RunError::ConfigNotFound));
    assert_eq!(find_toml_path(&vec![false]), Err(RunError::ConfigNotFound));
    assert_eq!(find_toml_path(&vec![false; 5]), Err(RunError::ConfigNotFound));
    assert_eq!(
        find_toml_path(&vec![false, false, false, false, false, true]),
        Err(RunError::ConfigNotFound)
    );
    assert_eq!(
        find_toml_path(&vec![false, false, false, false, false, false, true, true]),
        Err(RunError::ConfigNotFound)
    );
}

#[test]
fn the_search_in_ancestors_is_announced() {
    assert_eq!(search_notice(&vec![true, false]), None);
    assert_eq!(
        search_notice(&vec![false, true]),
        Some("searching for `bsrc.toml` in parent directories".to_string())
    );
    assert_eq!(
        search_notice(&vec![]),
        Some("searching for `bsrc.toml` in parent directories".to_string())
    );
}

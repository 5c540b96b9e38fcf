use bsrc::config::Dir;
use bsrc::select::{contains_id, select, split_ids, Selection};

fn dir(id: &str, path: &str) -> Dir {
    Dir {
        id: id.to_string(),
        path: path.to_string(),
        raw_prefix: id.to_uppercase(),
        match_dirs: false,
        color: [255, 255, 255],
    }
}

fn dirs() -> Vec<Dir> {
    vec![
        dir("ds", "roms/ds"),
        dir("gba", "roms/gba"),
        dir("n64", "roms/n64"),
        dir("snes", "roms/snes"),
    ]
}

fn ids(dirs: &[Dir]) -> Vec<String> {
    dirs.iter().map(|dir| dir.id.clone()).collect()
}

fn list(ids: &[&str]) -> Vec<String> {
    ids.iter().map(|id| id.to_string()).collect()
}

#[test]
fn split_ids_splits_at_commas() {
    assert_eq!(split_ids("gba"), ["gba"]);
    assert_eq!(split_ids("gba,snes,ds"), ["gba", "snes", "ds"]);
    assert_eq!(split_ids(""), [""]);
    assert_eq!(split_ids(","), ["", ""]);
    assert_eq!(split_ids("gba,"), ["gba", ""]);
    assert_eq!(split_ids(",gba,,ds"), ["", "gba", "", "ds"]);
    assert_eq!(split_ids("gba, snes"), ["gba", " snes"]);
    for text in ["", "a", "a,b", ",,", "x,y,", "é,日本,z"] {
        let expected: Vec<&str> = text.split(',').collect();
        assert_eq!(split_ids(text), expected);
    }
}

#[test]
fn contains_id_takes_whole_ids_only() {
    let ids = list(&["gba", "snes"]);
    assert!(contains_id(&ids, "gba"));
    assert!(contains_id(&ids, "snes"));
    assert!(!contains_id(&ids, "gb"));
    assert!(!contains_id(&ids, "s"));
    assert!(!contains_id(&ids, "gba,snes"));
    assert!(!contains_id(&Vec::new(), "gba"));
}

#[test]
fn only_and_exclude_exclude_each_other() {
    assert!(Selection::from_args(Some("gba"), Some("snes")).is_none());
    assert!(matches!(Selection::from_args(None, None), Some(Selection::Everything)));
    match Selection::from_args(Some("gba,snes"), None) {
        Some(Selection::Only(ids)) => assert_eq!(ids, ["gba", "snes"]),
        other => panic!("unexpected selection: {other:?}"),
    }
    match Selection::from_args(None, Some("ds")) {
        Some(Selection::Exclude(ids)) => assert_eq!(ids, ["ds"]),
        other => panic!("unexpected selection: {other:?}"),
    }
}

#[test]
fn selection_keeps_by_id() {
    let only = Selection::Only(list(&["gba", "snes"]));
    assert!(only.keeps("gba"));
    assert!(!only.keeps("ds"));
    let exclude = Selection::Exclude(list(&["gba", "snes"]));
    assert!(!exclude.keeps("gba"));
    assert!(exclude.keeps("ds"));
    assert!(Selection::Everything.keeps("anything"));
}

#[test]
fn select_narrows_the_directories_down() {
    assert_eq!(ids(&select(dirs(), &Selection::Everything)), ["ds", "gba", "n64", "snes"]);
    assert_eq!(ids(&select(dirs(), &Selection::Only(list(&["snes", "gba"])))), ["gba", "snes"]);
    assert_eq!(ids(&select(dirs(), &Selection::Exclude(list(&["snes", "gba"])))), ["ds", "n64"]);
    assert_eq!(ids(&select(dirs(), &Selection::Only(list(&["psx"])))), Vec::<String>::new());
    let all = ["ds", "gba", "n64", "snes"];
    assert_eq!(ids(&select(dirs(), &Selection::Exclude(list(&["psx"])))), all);
    assert_eq!(ids(&select(dirs(), &Selection::Only(Vec::new()))), Vec::<String>::new());
}

#[test]
fn only_is_exclude_of_the_complement() {
    let universe = ["ds", "gba", "n64", "snes"];
    for mask in 0u32..16 {
        let mut chosen = Vec::new();
        let mut others = Vec::new();
        for (i, id) in universe.iter().enumerate() {
            if mask & (1 << i) != 0 {
                chosen.push(*id);
            } else {
                others.push(*id);
            }
        }
        let kept = select(dirs(), &Selection::Only(list(&chosen)));
        let left = select(dirs(), &Selection::Exclude(list(&others)));
        assert_eq!(kept, left);
        assert_eq!(ids(&kept), chosen);
    }
}

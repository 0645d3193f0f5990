use fml::installed::{
    archive_file_name, archive_prefix, find_archive, find_manifest, InstalledMod, InstalledState,
};
use fml::text::text_starts_with;
use fml::version::{ParseError, Version};

#[test]
fn delete_mod_precise_matching() {
    let prefix_bob = archive_prefix("bob");
    let prefix_boblogistics = archive_prefix("boblogistics");

    assert!(!text_starts_with("boblogistics_1.0.0.zip", &prefix_bob));
    assert!(text_starts_with("boblogistics_1.0.0.zip", &prefix_boblogistics));
    assert!(text_starts_with("bob_1.0.0.zip", &prefix_bob));
}

#[test]
fn archive_name_is_name_version_zip() {
    assert_eq!(archive_prefix("bob"), "bob_");
    assert_eq!(archive_file_name("bob", &Version::new(1, 0, 0)), "bob_1.0.0.zip");
    assert_eq!(archive_file_name("space age", &Version::new(2, 10, 3)), "space age_2.10.3.zip");
}

#[test]
fn only_the_exact_archive_is_found() {
    let files: Vec<String> = vec![
        "boblogistics_1.0.0.zip",
        "bob_1.0.1.zip",
        "bob_1.0.0.zip.bak",
        "bob_1.0.0.zip",
        "bob_1.0.0.zip",
    ]
    .into_iter()
    .map(String::from)
    .collect();
    assert_eq!(find_archive(&files, "bob", &Version::new(1, 0, 0)), Some(3));
    assert_eq!(find_archive(&files, "bob", &Version::new(1, 0, 1)), Some(1));
    assert_eq!(find_archive(&files, "bob", &Version::new(2, 0, 0)), None);
    assert_eq!(find_archive(&files, "boblogistics", &Version::new(1, 0, 0)), Some(0));
    assert_eq!(find_archive(&Vec::new(), "bob", &Version::new(1, 0, 0)), None);
}

#[test]
fn manifest_is_at_the_top_or_one_level_down() {
    let entries: Vec<String> = vec![
        "mod_1.0.0/locale/en/info.json",
        "mod_1.0.0/control.lua",
        "mod_1.0.0/info.json",
        "info.json",
    ]
    .into_iter()
    .map(String::from)
    .collect();
    assert_eq!(find_manifest(&entries), Some(2));
    let entries: Vec<String> = vec!["a/b/info.json", "readme.md"].into_iter().map(String::from).collect();
    assert_eq!(find_manifest(&entries), None);
    let entries: Vec<String> = vec!["my-info.json"].into_iter().map(String::from).collect();
    assert_eq!(find_manifest(&entries), Some(0));
}

#[test]
fn installed_state_is_a_map_from_name_to_version() {
    let mut state = InstalledState::new();
    assert_eq!(state.get("a"), None);
    assert!(!state.contains("a"));
    state.insert("a", Version::new(1, 0, 0));
    state.insert("b", Version::new(2, 0, 0));
    state.insert("a", Version::new(1, 1, 0));
    assert_eq!(state.get("a"), Some(Version::new(1, 1, 0)));
    assert_eq!(state.get("b"), Some(Version::new(2, 0, 0)));
    assert!(state.contains("b"));
    assert_eq!(state.get("c"), None);
    let copy = state.clone();
    assert_eq!(copy.get("a"), Some(Version::new(1, 1, 0)));
}

#[test]
fn installed_mod_from_manifest() {
    let m = InstalledMod::from_manifest("bob", "1.2.3", "", "1.1").unwrap();
    assert_eq!(m.name, "bob");
    assert_eq!(m.title, "bob");
    assert_eq!(m.version, Version::new(1, 2, 3));
    assert_eq!(m.factorio_version, "1.1");
    let m = InstalledMod::from_manifest("bob", "1.2", "Bob's Mod", "").unwrap();
    assert_eq!(m.title, "Bob's Mod");
    assert_eq!(m.version, Version::new(1, 2, 0));
    assert_eq!(
        InstalledMod::from_manifest("bob", "1.2.3.4", "", "").unwrap_err(),
        ParseError::TooManyComponents
    );
    let state = InstalledState::from_mods(&vec![
        InstalledMod::from_manifest("bob", "1.2.3", "", "1.1").unwrap(),
        InstalledMod::from_manifest("alice", "0.1.0", "", "1.1").unwrap(),
    ]);
    assert_eq!(state.get("bob"), Some(Version::new(1, 2, 3)));
    assert_eq!(state.get("alice"), Some(Version::new(0, 1, 0)));
}

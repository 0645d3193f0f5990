use fml::fml_config::{read_line_with_default, FmlConfig};
use fml::installed::InstalledMod;
use fml::manage_mod_list::ManageModList;
use fml::mod_list::ModList;
use fml::registry::{sort_by_downloads, ModIdentifier};

fn installed(name: &str, title: &str) -> InstalledMod {
    InstalledMod::from_manifest(name, "1.0.0", title, "1.1").unwrap()
}

fn identifier(name: &str, downloads_count: i64) -> ModIdentifier {
    ModIdentifier { name: name.to_string(), title: name.to_uppercase(), downloads_count }
}

#[test]
fn mods_are_sorted_by_falling_downloads() {
    let sorted = sort_by_downloads(vec![
        identifier("a", 5),
        identifier("b", 50),
        identifier("c", -1),
        identifier("d", 50),
        identifier("e", 7),
    ]);
    let order: Vec<(&str, i64)> = sorted.iter().map(|m| (m.name.as_str(), m.downloads_count)).collect();
    assert_eq!(order, vec![("b", 50), ("d", 50), ("e", 7), ("a", 5), ("c", -1)]);
    assert!(sort_by_downloads(vec![]).is_empty());
}

#[test]
fn manage_list_before_the_mods_are_known() {
    let mut list = ManageModList::new();
    list.next();
    list.previous();
    assert_eq!(list.state.selected(), None);
    assert_eq!(list.selected_mod(), None);
    assert_eq!(list.toggle_selected(), None);
    assert!(list.items().is_empty());
    list.remove_mod("a");
    assert!(list.items.is_none());
    let written = list.generate_mod_list();
    assert_eq!(written.mods.len(), 1);
    assert_eq!(written.mods[0].name, "base");
}

#[test]
fn manage_list_selection_wraps_around() {
    let mut mod_list = ModList::new();
    mod_list.set_enabled("b", true);
    mod_list.set_enabled("c", false);
    let mut list = ManageModList::new();
    list.set_items(vec![installed("a", "A"), installed("b", "B"), installed("c", "C")], mod_list);
    let flags: Vec<bool> = list.items.as_ref().unwrap().iter().map(|i| i.enabled).collect();
    assert_eq!(flags, vec![false, true, false]);
    list.next();
    assert_eq!(list.selected_mod(), Some(0));
    list.previous();
    assert_eq!(list.selected_mod(), Some(2));
    list.next();
    assert_eq!(list.selected_mod(), Some(0));
    list.next();
    list.next();
    assert_eq!(list.selected_mod(), Some(2));
    assert_eq!(list.toggle_selected(), Some(true));
    assert_eq!(list.toggle_selected(), Some(false));
    assert_eq!(list.toggle_selected(), Some(true));
    let lines: Vec<(String, bool)> = list.items().into_iter().map(|l| (l.title, l.enabled)).collect();
    assert_eq!(
        lines,
        vec![("A".to_string(), false), ("B".to_string(), true), ("C".to_string(), true)]
    );
}

#[test]
fn manage_list_adds_removes_and_writes() {
    let mut list = ManageModList::new();
    list.add_mod(installed("a", "A"), true);
    list.add_mod(installed("b", "B"), false);
    list.add_mod(installed("a", "A again"), false);
    assert_eq!(list.items.as_ref().unwrap().len(), 3);
    list.remove_mod("a");
    let titles: Vec<String> = list.items().into_iter().map(|l| l.title).collect();
    assert_eq!(titles, vec!["B", "A again"]);
    list.remove_mod("zzz");
    assert_eq!(list.items.as_ref().unwrap().len(), 2);
    list.add_mod(installed("base", "Base"), false);
    let written = list.generate_mod_list();
    let entries: Vec<(&str, bool)> = written.mods.iter().map(|e| (e.name.as_str(), e.enabled)).collect();
    assert_eq!(entries, vec![("base", false), ("b", false), ("a", false)]);
    let mut empty = ManageModList::new();
    empty.set_items(vec![], ModList::new());
    empty.next();
    assert_eq!(empty.state.selected(), Some(0));
    assert_eq!(empty.selected_mod(), None);
    empty.previous();
    assert_eq!(empty.state.selected(), Some(0));
}

#[test]
fn manager_configuration_remembers_installed_mods() {
    let mut config = FmlConfig::new("/mods".to_string(), "/settings.json".to_string());
    config.add_mod("a", "1.0.0");
    config.add_mod("b", "2.0.0");
    config.add_mod("a", "1.1.0");
    assert_eq!(config.mods.len(), 3);
    config.remove_mod("a");
    assert_eq!(config.mods.len(), 1);
    assert_eq!(config.mods[0].name, "b");
    assert_eq!(config.mods[0].version, "2.0.0");
    config.remove_mod("nothing");
    assert_eq!(config.mods.len(), 1);
    assert_eq!(config.mods_dir_path, "/mods");
    assert_eq!(read_line_with_default(String::new(), "/opt/factorio/mods/"), "/opt/factorio/mods/");
    assert_eq!(read_line_with_default("/srv".to_string(), "/opt/factorio/mods/"), "/srv");
}

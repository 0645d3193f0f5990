use fml::app::{find_place, App, ManageMod};
use fml::catalog::{Mod, ModListEntry, Release};
use fml::constraint::{CompareOp, VersionConstraint};
use fml::dependency::Dependency;
use fml::downloader::{follow_up_requests, is_downloadable, release_for, ModDownloadRequest, ModDownloader};
use fml::event::{Config, Event, Events, KeyCode};
use fml::install::{dependency_count, download_failure_message, InstallAction, InstallRun};
use fml::install_mod_list::{passes_filter, InstallModItem, InstallModList};
use fml::installed::InstalledMod;
use fml::list_state::{next_line, previous_line, ListState};
use fml::markdown::{heading, Parser};
use fml::mod_list::ModList;
use fml::mods_config::ModsConfig;
use fml::navigation::{ActiveBlock, Route, Tab, FML};
use fml::records::{ModRecord, ReleaseRecord};
use fml::registry::{ModIdentifier, Registry};
use fml::resolver::ResolveResult;
use fml::settings::{detect_platform_version, ServerSettings, VersionFormatError, Visibility};
use fml::text::{text_contains, text_ends_with, text_starts_with};
use fml::version::Version;

fn release(version: &str, platform: &str, deps: Vec<&str>) -> Release {
    Release {
        download_url: format!("/download/{}", version),
        file_name: format!("mod_{}.zip", version),
        version: Version::parse(version).unwrap(),
        factorio_version: platform.to_string(),
        sha1: String::new(),
        dependencies: deps.iter().map(|d| Dependency::parse(d).unwrap()).collect(),
    }
}

fn a_mod(name: &str, releases: Vec<Release>) -> Mod {
    Mod { name: name.to_string(), title: name.to_uppercase(), summary: String::new(), downloads_count: 7, releases }
}

fn identifier(name: &str, title: &str) -> ModIdentifier {
    ModIdentifier { name: name.to_string(), title: title.to_string(), downloads_count: 0 }
}

fn settings() -> ServerSettings {
    ServerSettings {
        token: "t".to_string(),
        visibility: Visibility { public: true },
        game_password: String::new(),
        description: String::new(),
        name: "server".to_string(),
        username: "u".to_string(),
    }
}

fn installed(name: &str) -> InstalledMod {
    InstalledMod::from_manifest(name, "1.0.0", "", "1.1").unwrap()
}

#[test]
fn text_helpers() {
    assert!(text_starts_with("bob_1.0.0.zip", ""));
    assert!(text_starts_with("", ""));
    assert!(!text_starts_with("bo", "bob"));
    assert!(text_ends_with("bob_1.0.0.zip", ".zip"));
    assert!(!text_ends_with("zip", ".zip"));
    assert!(text_contains("krastorio", "stor"));
    assert!(text_contains("krastorio", ""));
    assert!(text_contains("", ""));
    assert!(text_contains("krastorio", "krastorio"));
    assert!(text_contains("krastorio", "rio"));
    assert!(!text_contains("krastorio", "storm"));
    assert!(!text_contains("", "a"));
}

#[test]
fn releases_are_chosen_by_version_not_by_position() {
    let m = a_mod(
        "m",
        vec![
            release("1.0.0", "1.1", vec![]),
            release("2.0.0", "1.1", vec![]),
            release("1.5.0", "1.1", vec![]),
            release("3.0.0", "2.0", vec![]),
        ],
    );
    assert_eq!(m.latest_release().unwrap().version, Version::new(3, 0, 0));
    let platform = "1.1".to_string();
    assert_eq!(
        m.select_release(&platform, &VersionConstraint::Any).unwrap().version,
        Version::new(2, 0, 0)
    );
    let below = VersionConstraint::Bound { op: CompareOp::Less, version: Version::new(2, 0, 0) };
    assert_eq!(m.select_release(&platform, &below).unwrap().version, Version::new(1, 5, 0));
    assert_eq!(m.find_matching_release(&below).unwrap().version, Version::new(1, 5, 0));
    assert_eq!(m.release(&Version::new(1, 0, 0)).unwrap().file_name, "mod_1.0.0.zip");
    assert!(m.release(&Version::new(9, 9, 9)).is_none());
    assert!(m.select_release(&"0.17".to_string(), &VersionConstraint::Any).is_none());
    assert!(a_mod("e", vec![]).latest_release().is_none());
}

#[test]
fn of_equal_versions_the_release_listed_last_is_chosen() {
    let mut first = release("1.0.0", "1.1", vec![]);
    first.file_name = "first.zip".to_string();
    let mut second = release("1.0.0", "1.1", vec![]);
    second.file_name = "second.zip".to_string();
    let m = a_mod("m", vec![first, second]);
    assert_eq!(m.latest_release().unwrap().file_name, "second.zip");
}

#[test]
fn dependencies_by_kind() {
    let r = release("1.0.0", "1.1", vec!["base", "? opt", "a >= 1.0.0", "! bad", "(?) hid", "~ b"]);
    let names = |deps: Vec<Dependency>| deps.into_iter().map(|d| d.name).collect::<Vec<String>>();
    assert_eq!(names(r.required_dependencies()), vec!["base", "a", "b"]);
    assert_eq!(names(r.optional_dependencies()), vec!["opt", "hid"]);
    assert_eq!(names(r.incompatible_dependencies()), vec!["bad"]);
}

#[test]
fn catalog_records_are_taken_in_with_tolerance() {
    let record = ModRecord {
        name: "m".to_string(),
        title: "M".to_string(),
        summary: "s".to_string(),
        downloads_count: 3,
        releases: vec![
            ReleaseRecord {
                download_url: "/d/1".to_string(),
                file_name: "m_1.0.0.zip".to_string(),
                version: "1.0.0".to_string(),
                factorio_version: "1.1".to_string(),
                sha1: "abc".to_string(),
                dependencies: vec!["base >= 1.1".to_string(), "? opt".to_string(), "dep".to_string()],
            },
            ReleaseRecord {
                download_url: "/d/2".to_string(),
                file_name: "m_1.0.0.1.zip".to_string(),
                version: "1.0.0.1".to_string(),
                factorio_version: "1.1".to_string(),
                sha1: String::new(),
                dependencies: vec![],
            },
            ReleaseRecord {
                download_url: "/d/3".to_string(),
                file_name: "m_1.1.zip".to_string(),
                version: "1.1".to_string(),
                factorio_version: "1.1".to_string(),
                sha1: String::new(),
                dependencies: vec![],
            },
        ],
    };
    let m = Mod::from_record(&record);
    assert_eq!(m.name, "m");
    assert_eq!(m.downloads_count, 3);
    assert_eq!(m.releases.len(), 2);
    assert_eq!(m.releases[0].version, Version::new(1, 0, 0));
    assert_eq!(m.releases[0].sha1, "abc");
    let names: Vec<&str> = m.releases[0].dependencies.iter().map(|d| d.name.as_str()).collect();
    assert_eq!(names, vec!["opt", "dep"]);
    assert_eq!(m.releases[1].version, Version::new(1, 1, 0));
    assert!(Release::from_record(&record.releases[1]).is_err());
}

#[test]
fn registry_keeps_the_latest_details_of_a_mod() {
    let mut registry = Registry::new();
    assert!(registry.get_mod("m").is_none());
    registry.add_mod(a_mod("m", vec![release("1.0.0", "1.1", vec![])]));
    registry.add_mod(a_mod("n", vec![]));
    registry.add_mod(a_mod("m", vec![release("2.0.0", "1.1", vec![])]));
    assert_eq!(registry.get_mod("m").unwrap().releases[0].version, Version::new(2, 0, 0));
    assert_eq!(registry.get_mod("n").unwrap().title, "N");
    assert!(registry.get_mod("o").is_none());
    assert!(registry.all_mod_identifiers.is_none());
    registry.set_mod_identifiers(vec![identifier("m", "M")]);
    assert_eq!(registry.all_mod_identifiers.as_ref().unwrap().len(), 1);
}

#[test]
fn mods_config_is_a_map_of_enabled_flags() {
    let mut config = ModsConfig::new("/mods/mod-list.json");
    assert_eq!(config.file_path(), "/mods/mod-list.json");
    assert!(!config.enabled_mod("a"));
    config.add_mod("a");
    config.add_mod("b");
    assert!(config.enabled_mod("a"));
    config.set_mod_enabled("a", false);
    assert!(!config.enabled_mod("a"));
    assert!(config.enabled_mod("b"));
    config.set_mod_enabled("c", false);
    assert!(!config.enabled_mod("c"));
    config.add_mod("a");
    assert!(config.enabled_mod("a"));
    assert_eq!(config.entries().len(), 3);
    config.remove_mod("b");
    assert!(!config.enabled_mod("b"));
    config.remove_mod("nowhere");
    let entries: Vec<(String, bool)> = config.entries().into_iter().map(|e| (e.name, e.enabled)).collect();
    assert_eq!(entries, vec![("a".to_string(), true), ("c".to_string(), false)]);
}

#[test]
fn mod_list_starts_with_the_game_enabled() {
    let mut list = ModList::new();
    assert_eq!(list.mods.len(), 1);
    assert_eq!(list.mods[0].name, "base");
    assert!(list.is_enabled("base"));
    assert!(!list.is_enabled("a"));
    list.set_enabled("a", true);
    list.set_enabled("base", false);
    list.set_enabled("b", false);
    assert!(list.is_enabled("a"));
    assert!(!list.is_enabled("base"));
    assert!(!list.is_enabled("b"));
    assert_eq!(list.mods.len(), 3);
    assert_eq!(list.mods[1].version, None);
    list.set_enabled("a", false);
    assert_eq!(list.mods.len(), 3);
    assert!(!list.is_enabled("a"));
}

#[test]
fn navigation_keeps_a_history() {
    let mut fml = FML::new();
    assert_eq!(fml.current_tab(), Tab::Manage);
    assert_eq!(fml.active_block(), ActiveBlock::ManageModList);
    fml.navigate_tab(Tab::Install);
    assert_eq!(fml.current_tab(), Tab::Install);
    assert_eq!(fml.active_block(), ActiveBlock::InstallModList);
    fml.navigate_block(ActiveBlock::InstallSearch);
    assert_eq!(fml.current_tab(), Tab::Install);
    fml.navigate_block(ActiveBlock::QuitPopup);
    assert_eq!(fml.current_tab(), Tab::Install);
    assert_eq!(fml.active_block(), ActiveBlock::QuitPopup);
    fml.undo_navigation();
    assert_eq!(fml.active_block(), ActiveBlock::InstallSearch);
    fml.navigate_block(ActiveBlock::ManageModList);
    assert_eq!(fml.current_tab(), Tab::Manage);
    fml.undo_navigation();
    fml.undo_navigation();
    fml.undo_navigation();
    fml.undo_navigation();
    fml.undo_navigation();
    assert_eq!(
        fml.navigation_history,
        vec![Route { active_block: ActiveBlock::ManageModList, tab: Tab::Manage }]
    );
    fml.scroll_up();
    assert_eq!(fml.scroll_offset, 0);
    fml.scroll_down();
    fml.scroll_down();
    fml.scroll_up();
    assert_eq!(fml.scroll_offset, 1);
    assert!(!fml.should_quit);
    fml.quit_gracefully();
    assert!(fml.should_quit);
}

#[test]
fn events_come_out_in_the_order_they_went_in() {
    assert_eq!(Config::default().tick_rate, 250);
    let mut events = Events::new();
    assert_eq!(events.next(), None);
    events.send(Event::Input(KeyCode::Char('a')));
    events.send(Event::Tick);
    events.send(Event::Input(KeyCode::Ctrl('c')));
    assert_eq!(events.next(), Some(Event::Input(KeyCode::Char('a'))));
    assert_eq!(events.next(), Some(Event::Tick));
    events.send(Event::Input(KeyCode::Enter));
    assert_eq!(events.next(), Some(Event::Input(KeyCode::Ctrl('c'))));
    assert_eq!(events.next(), Some(Event::Input(KeyCode::Enter)));
    assert_eq!(events.next(), None);
}

#[test]
fn list_state_selection() {
    let mut state = ListState { offset: 4, selected: Some(2) };
    assert_eq!(state.selected(), Some(2));
    state.select(Some(7));
    assert_eq!(state, ListState { offset: 4, selected: Some(7) });
    state.select(None);
    assert_eq!(state, ListState { offset: 0, selected: None });
    assert_eq!(next_line(None, 3), 0);
    assert_eq!(next_line(Some(0), 3), 1);
    assert_eq!(next_line(Some(2), 3), 0);
    assert_eq!(next_line(Some(9), 3), 0);
    assert_eq!(previous_line(None, 3), 0);
    assert_eq!(previous_line(Some(0), 3), 2);
    assert_eq!(previous_line(Some(2), 3), 1);
}

#[test]
fn install_list_filters_without_regard_to_case() {
    let mut list = InstallModList::new();
    assert!(!list.is_ready());
    list.next();
    assert_eq!(list.state.selected(), None);
    assert_eq!(list.selected_mod(), None);
    assert!(list.items().is_empty());
    list.set_items(vec![
        InstallModItem::new(identifier("Krastorio2", "Krastorio 2")),
        InstallModItem::new(identifier("bobs-logistics", "Bob's Logistics")),
        InstallModItem::new(identifier("space-ex", "Space Exploration")),
        InstallModItem::new(identifier("flib", "Factorio Library")),
    ]);
    assert!(list.is_ready());
    assert_eq!(list.filtered_items(), vec![0, 1, 2, 3]);
    list.filter = "LOG".to_string();
    assert_eq!(list.filtered_items(), vec![1]);
    list.filter = "o".to_string();
    assert_eq!(list.filtered_items(), vec![0, 1, 2, 3]);
    list.filter = "EX".to_string();
    assert_eq!(list.filtered_items(), vec![2]);
    list.filter = "ÉCOLE".to_string();
    assert!(list.filtered_items().is_empty());
    list.next();
    assert_eq!(list.state.selected(), None);
    list.filter = "i".to_string();
    assert_eq!(list.filtered_items(), vec![0, 1, 2, 3]);
    list.filter = "lib".to_string();
    assert_eq!(list.filtered_items(), vec![3]);
    list.filter = "b".to_string();
    assert_eq!(list.filtered_items(), vec![1, 3]);
    list.next();
    assert_eq!(list.state.selected(), Some(0));
    assert_eq!(list.selected_mod(), Some(1));
    list.next();
    assert_eq!(list.selected_mod(), Some(3));
    list.next();
    assert_eq!(list.selected_mod(), Some(1));
    list.previous();
    assert_eq!(list.selected_mod(), Some(3));
    list.enable_mod("flib");
    list.enable_mod("unknown");
    let lines: Vec<(String, bool)> = list.items().into_iter().map(|l| (l.title, l.enabled)).collect();
    assert_eq!(
        lines,
        vec![("Bob's Logistics".to_string(), false), ("Factorio Library".to_string(), true)]
    );
    list.disable_mod("flib");
    assert!(!list.items[3].download_info.downloaded);
    list.filter = "zzz".to_string();
    assert_eq!(list.selected_mod(), None);
    list.reset_selected();
    assert_eq!(list.state.selected(), None);
    assert!(passes_filter("name", "title", "tit"));
    assert!(passes_filter("name", "title", ""));
    assert!(!passes_filter("name", "title", "x"));
}

#[test]
fn new_item_has_nothing_downloaded() {
    let item = InstallModItem::new(identifier("a", "A"));
    assert_eq!(item.mod_identifier.name, "a");
    assert!(!item.loading);
    assert!(!item.download_info.downloaded);
    assert!(!item.download_info.downloading);
    assert_eq!(item.download_info.download_perc, 0);
    assert!(item.download_info.versions.is_empty());
}

#[test]
fn app_lists_saved_mods_before_pending_ones() {
    let mut app = App::new("1.1".to_string(), settings(), "/mods".to_string());
    assert!(app.loading);
    assert_eq!(app.tab, Tab::Manage);
    assert!(app.manage_display_order().is_empty());
    app.move_down();
    assert_eq!(app.manage_selected, None);
    for (name, pending) in [("a", true), ("b", false), ("c", true), ("d", false)] {
        app.manage_mods.push(ManageMod { installed_mod: installed(name), enabled: true, pending });
    }
    assert_eq!(app.manage_display_order(), vec![1, 3, 0, 2]);
    assert!(app.is_installed("c"));
    assert!(!app.is_installed("e"));
    app.move_up();
    assert_eq!(app.manage_selected, None);
    app.move_down();
    assert_eq!(app.manage_selected, Some(1));
    app.move_down();
    assert_eq!(app.manage_selected, Some(3));
    app.move_down();
    assert_eq!(app.manage_selected, Some(0));
    app.move_down();
    assert_eq!(app.manage_selected, Some(2));
    app.move_down();
    assert_eq!(app.manage_selected, Some(2));
    app.move_up();
    assert_eq!(app.manage_selected, Some(0));
    app.move_up();
    app.move_up();
    app.move_up();
    assert_eq!(app.manage_selected, Some(1));
    assert_eq!(find_place(&vec![4, 2, 4], 4), Some(0));
    assert_eq!(find_place(&vec![4, 2, 4], 3), None);
}

#[test]
fn app_moves_through_the_filtered_install_list() {
    let mut app = App::new("1.1".to_string(), settings(), "/mods".to_string());
    for (name, title) in [("alpha", "First"), ("beta", "Second"), ("gamma", "Third alpha")] {
        app.install_mods.push(ModListEntry {
            name: name.to_string(),
            title: title.to_string(),
            downloads_count: 1,
            summary: String::new(),
        });
    }
    app.select_tab(Tab::Install);
    assert_eq!(app.active_block, ActiveBlock::InstallModList);
    assert_eq!(app.filtered_install_mods(), vec![0, 1, 2]);
    app.install_filter = "ALPHA".to_string();
    assert_eq!(app.filtered_install_mods(), vec![0, 2]);
    app.move_down();
    assert_eq!(app.install_selected, Some(1));
    app.move_down();
    assert_eq!(app.install_selected, Some(1));
    app.move_up();
    assert_eq!(app.install_selected, Some(0));
    app.move_up();
    assert_eq!(app.install_selected, Some(0));
    app.install_filter = "nothing".to_string();
    app.install_selected = None;
    app.move_down();
    assert_eq!(app.install_selected, None);
    app.select_tab(Tab::Manage);
    assert_eq!(app.active_block, ActiveBlock::ManageModList);
}

#[test]
fn status_message_expires_after_five_seconds() {
    let mut app = App::new("1.1".to_string(), settings(), "/mods".to_string());
    app.clear_expired_status(100);
    assert!(app.status_message.is_none());
    app.set_status("hello".to_string(), 100);
    app.clear_expired_status(104);
    assert_eq!(app.status_message.as_ref().unwrap().text, "hello");
    app.clear_expired_status(99);
    assert!(app.status_message.is_some());
    app.clear_expired_status(105);
    assert!(app.status_message.is_none());
}

#[test]
fn install_run_downloads_in_plan_order() {
    let plan = ResolveResult {
        to_download: vec![
            ("dep".to_string(), release("1.0.0", "1.1", vec![])),
            ("top".to_string(), release("2.0.0", "1.1", vec!["dep"])),
        ],
        has_cycle: false,
    };
    let mut run = InstallRun::new("top", plan);
    assert_eq!(run.next_action(), InstallAction::Download(0));
    assert_eq!(run.on_download(Ok(())), Ok(()));
    assert_eq!(run.next_action(), InstallAction::Download(1));
    assert_eq!(
        run.on_download(Err("connection reset".to_string())),
        Err("Failed to download 'top' (1/2 downloaded before failure): connection reset".to_string())
    );
    assert_eq!(run.next_action(), InstallAction::Download(1));
    assert_eq!(run.on_download(Ok(())), Ok(()));
    assert_eq!(run.next_action(), InstallAction::Rescan);
    let result = run.finish(vec![installed("dep"), installed("top")]);
    assert_eq!(result.mod_name, "top");
    assert_eq!(result.dependency_count, 1);
    assert_eq!(result.installed_mods.len(), 2);
    assert_eq!(result.message(), "Installed top + 1 dependencies");
    assert_eq!(dependency_count(0), 0);
    assert_eq!(dependency_count(1), 0);
    assert_eq!(dependency_count(12), 11);
    assert_eq!(
        download_failure_message("m", 0, 10, "x"),
        "Failed to download 'm' (0/10 downloaded before failure): x"
    );
    let alone = InstallRun::new("m", ResolveResult { to_download: vec![], has_cycle: false });
    assert_eq!(alone.next_action(), InstallAction::Rescan);
    assert_eq!(alone.finish(vec![]).message(), "Installed m");
}

#[test]
fn downloader_asks_for_what_a_release_requires() {
    let request = ModDownloadRequest {
        mod_name: "top".to_string(),
        ver_req: VersionConstraint::Any,
        username: "u".to_string(),
        token: "t".to_string(),
        mod_dir: "/mods".to_string(),
    };
    assert!(is_downloadable(&request));
    let base = ModDownloadRequest { mod_name: "base".to_string(), ..follow_up_requests(&release("1.0.0", "1.1", vec!["x"]), &request).remove(0) };
    assert!(!is_downloadable(&base));
    let m = a_mod("top", vec![release("1.0.0", "1.1", vec!["base", "? opt", "a >= 2.0.0", "! bad"])]);
    let chosen = release_for(&m, &request).unwrap();
    let next = follow_up_requests(&chosen, &request);
    assert_eq!(next.len(), 2);
    assert_eq!(next[0].mod_name, "base");
    assert_eq!(next[1].mod_name, "a");
    assert_eq!(
        next[1].ver_req,
        VersionConstraint::Bound { op: CompareOp::GreaterEq, version: Version::new(2, 0, 0) }
    );
    assert_eq!(next[1].username, "u");
    assert_eq!(next[1].token, "t");
    assert_eq!(next[1].mod_dir, "/mods");
    let mut shown = ModDownloader::new();
    assert_eq!(shown.generate_gauge(), None);
    shown.on_begin("Top Mod");
    shown.on_progress(42);
    assert_eq!(shown.generate_gauge(), Some((42, "Top Mod".to_string())));
    shown.on_begin("Other");
    assert_eq!(shown.generate_gauge(), Some((0, "Other".to_string())));
    shown.on_quiet();
    assert_eq!(shown.generate_gauge(), None);
}

#[test]
fn settings_and_game_version() {
    assert!(settings().has_credentials());
    let mut s = settings();
    s.token = String::new();
    assert!(!s.has_credentials());
    let mut s = settings();
    s.username = String::new();
    assert!(!s.has_credentials());
    assert_eq!(detect_platform_version("1.1.110"), Ok("1.1".to_string()));
    assert_eq!(detect_platform_version("2.0"), Ok("2.0".to_string()));
    assert_eq!(detect_platform_version("2.0.7.1"), Ok("2.0".to_string()));
    assert_eq!(detect_platform_version("2."), Ok("2.".to_string()));
    assert_eq!(detect_platform_version("2"), Err(VersionFormatError::TooFewComponents));
    assert_eq!(detect_platform_version(""), Err(VersionFormatError::TooFewComponents));
}

#[test]
fn markdown_headings() {
    let parser = Parser::new("# Title");
    assert!(parser.first);
    assert_eq!(parser.input, "# Title");
    assert_eq!(heading(0), "");
    assert_eq!(heading(1), "#");
    assert_eq!(heading(3), "###");
    assert_eq!(heading(10), "##########");
}

use fml::app::{App, ManageMod};
use fml::catalog::ModListEntry;
use fml::event::KeyCode;
use fml::handler::{
    handle_key, on_error, on_installed_mods_loaded, on_mod_deleted, on_mod_installed,
    on_mod_list_loaded, on_mod_list_saved, Command,
};
use fml::install::InstallResult;
use fml::installed::InstalledMod;
use fml::mod_list::ModList;
use fml::navigation::{ActiveBlock, Tab};
use fml::settings::{ServerSettings, Visibility};
use fml::version::Version;

fn new_app() -> App {
    App::new(
        "1.1".to_string(),
        ServerSettings {
            token: "t".to_string(),
            visibility: Visibility { public: false },
            game_password: String::new(),
            description: String::new(),
            name: String::new(),
            username: "u".to_string(),
        },
        "/mods".to_string(),
    )
}

fn installed(name: &str) -> InstalledMod {
    InstalledMod::from_manifest(name, "1.2.3", "", "1.1").unwrap()
}

fn entry(name: &str, title: &str) -> ModListEntry {
    ModListEntry { name: name.to_string(), title: title.to_string(), downloads_count: 0, summary: String::new() }
}

fn status(app: &App) -> Option<&str> {
    app.status_message.as_ref().map(|m| m.text.as_str())
}

fn loaded_app() -> App {
    let mut app = new_app();
    on_installed_mods_loaded(
        &mut app,
        Ok((vec![installed("alpha"), installed("beta")], {
            let mut list = ModList::new();
            list.set_enabled("alpha", true);
            list
        })),
        0,
    );
    on_mod_list_loaded(&mut app, Ok(vec![entry("alpha", "Alpha"), entry("gamma", "Gamma"), entry("delta", "Delta")]), 0);
    app
}

#[test]
fn loading_the_lists_fills_the_interface() {
    let app = loaded_app();
    assert!(!app.loading);
    assert_eq!(app.install_selected, Some(0));
    assert_eq!(app.manage_selected, Some(0));
    assert_eq!(app.manage_mods.len(), 2);
    assert!(app.manage_mods[0].enabled);
    assert!(!app.manage_mods[1].enabled);
    assert!(!app.manage_mods[0].pending);
    assert_eq!(status(&app), None);
}

#[test]
fn failures_to_load_are_shown() {
    let mut app = new_app();
    on_mod_list_loaded(&mut app, Err("timeout".to_string()), 3);
    assert!(!app.loading);
    assert_eq!(status(&app), Some("Failed to load mod list: timeout"));
    assert_eq!(app.status_message.as_ref().unwrap().shown_at, 3);
    on_installed_mods_loaded(&mut app, Err("denied".to_string()), 4);
    assert_eq!(status(&app), Some("Failed to read installed mods: denied"));
    on_mod_list_loaded(&mut app, Ok(vec![]), 5);
    assert_eq!(status(&app), Some("No mods found for this Factorio version"));
    assert_eq!(app.install_selected, None);
    on_error(&mut app, "boom".to_string(), 6);
    assert_eq!(status(&app), Some("boom"));
}

#[test]
fn control_c_asks_before_quitting() {
    let mut app = loaded_app();
    assert!(matches!(handle_key(KeyCode::Ctrl('c'), &mut app, 0), Command::Nothing));
    assert!(app.show_quit_popup);
    assert_eq!(app.active_block, ActiveBlock::QuitPopup);
    assert!(matches!(handle_key(KeyCode::Tab, &mut app, 0), Command::Nothing));
    assert_eq!(app.tab, Tab::Manage);
    assert!(matches!(handle_key(KeyCode::Esc, &mut app, 0), Command::Nothing));
    assert!(!app.show_quit_popup);
    assert_eq!(app.active_block, ActiveBlock::ManageModList);
    handle_key(KeyCode::Ctrl('c'), &mut app, 0);
    assert!(matches!(handle_key(KeyCode::Char('n'), &mut app, 0), Command::Nothing));
    assert!(app.should_quit);
}

#[test]
fn saving_quits_only_if_the_list_was_written() {
    let mut app = loaded_app();
    handle_key(KeyCode::Tab, &mut app, 0);
    handle_key(KeyCode::Ctrl('c'), &mut app, 0);
    assert!(matches!(handle_key(KeyCode::Char('y'), &mut app, 0), Command::SaveModList));
    assert!(!app.should_quit);
    on_mod_list_saved(&mut app, Err("disk full".to_string()), 9);
    assert!(!app.should_quit);
    assert!(!app.show_quit_popup);
    assert_eq!(app.active_block, ActiveBlock::InstallModList);
    assert_eq!(status(&app), Some("Failed to save mod-list.json: disk full"));
    on_mod_list_saved(&mut app, Ok(()), 10);
    assert!(app.should_quit);
}

#[test]
fn tab_key_changes_the_tab() {
    let mut app = loaded_app();
    handle_key(KeyCode::Tab, &mut app, 0);
    assert_eq!(app.tab, Tab::Install);
    assert_eq!(app.active_block, ActiveBlock::InstallModList);
    handle_key(KeyCode::Tab, &mut app, 0);
    assert_eq!(app.tab, Tab::Manage);
    assert_eq!(app.active_block, ActiveBlock::ManageModList);
}

#[test]
fn manage_keys_toggle_and_delete() {
    let mut app = loaded_app();
    handle_key(KeyCode::Down, &mut app, 0);
    assert_eq!(app.manage_selected, Some(1));
    handle_key(KeyCode::Enter, &mut app, 0);
    assert!(app.manage_mods[1].enabled);
    handle_key(KeyCode::Enter, &mut app, 0);
    assert!(!app.manage_mods[1].enabled);
    handle_key(KeyCode::Up, &mut app, 0);
    assert_eq!(app.manage_selected, Some(0));
    match handle_key(KeyCode::Char('d'), &mut app, 0) {
        Command::DeleteMod { name, version, mods_dir } => {
            assert_eq!(name, "alpha");
            assert_eq!(version, Version::new(1, 2, 3));
            assert_eq!(mods_dir, "/mods");
        }
        _ => panic!("a deletion was expected"),
    }
    assert!(matches!(handle_key(KeyCode::Char('x'), &mut app, 0), Command::Nothing));
    app.manage_selected = Some(7);
    assert!(matches!(handle_key(KeyCode::Char('d'), &mut app, 0), Command::Nothing));
    handle_key(KeyCode::Enter, &mut app, 0);
    assert!(app.manage_mods[0].enabled);
}

#[test]
fn deleting_a_mod_adjusts_the_selection() {
    let mut app = loaded_app();
    app.manage_selected = Some(1);
    on_mod_deleted(&mut app, Ok("beta".to_string()), 2);
    assert_eq!(app.manage_mods.len(), 1);
    assert_eq!(app.manage_selected, Some(0));
    assert_eq!(status(&app), Some("Deleted beta"));
    on_mod_deleted(&mut app, Err("busy".to_string()), 2);
    assert_eq!(status(&app), Some("Delete failed: busy"));
    assert_eq!(app.manage_mods.len(), 1);
    on_mod_deleted(&mut app, Ok("alpha".to_string()), 2);
    assert!(app.manage_mods.is_empty());
    assert_eq!(app.manage_selected, None);
}

#[test]
fn typing_in_the_install_list_starts_a_search() {
    let mut app = loaded_app();
    handle_key(KeyCode::Tab, &mut app, 0);
    handle_key(KeyCode::Char('/'), &mut app, 0);
    assert_eq!(app.active_block, ActiveBlock::InstallSearch);
    assert_eq!(app.install_filter, "");
    handle_key(KeyCode::Char('M'), &mut app, 0);
    handle_key(KeyCode::Char('m'), &mut app, 0);
    assert_eq!(app.install_filter, "Mm");
    assert_eq!(app.filtered_install_mods(), vec![1]);
    assert_eq!(app.install_selected, Some(0));
    handle_key(KeyCode::Char('z'), &mut app, 0);
    assert_eq!(app.install_selected, None);
    handle_key(KeyCode::Backspace, &mut app, 0);
    assert_eq!(app.install_filter, "Mm");
    assert_eq!(app.install_selected, Some(0));
    handle_key(KeyCode::Enter, &mut app, 0);
    assert_eq!(app.active_block, ActiveBlock::InstallModList);
    handle_key(KeyCode::Char('a'), &mut app, 0);
    assert_eq!(app.active_block, ActiveBlock::InstallSearch);
    assert_eq!(app.install_filter, "Mma");
    handle_key(KeyCode::Esc, &mut app, 0);
    assert_eq!(app.active_block, ActiveBlock::InstallModList);
    handle_key(KeyCode::Char('/'), &mut app, 0);
    for _ in 0..5 {
        handle_key(KeyCode::Backspace, &mut app, 0);
    }
    assert_eq!(app.install_filter, "");
    assert_eq!(app.install_selected, Some(0));
}

#[test]
fn enter_installs_the_selected_mod_once() {
    let mut app = loaded_app();
    handle_key(KeyCode::Tab, &mut app, 0);
    assert!(matches!(handle_key(KeyCode::Enter, &mut app, 1), Command::Nothing));
    assert_eq!(status(&app), Some("alpha is already installed"));
    assert!(!app.installing);
    handle_key(KeyCode::Down, &mut app, 1);
    match handle_key(KeyCode::Enter, &mut app, 2) {
        Command::InstallMod { mod_name } => assert_eq!(mod_name, "gamma"),
        _ => panic!("an installation was expected"),
    }
    assert!(app.installing);
    assert_eq!(status(&app), Some("Installing gamma..."));
    assert!(matches!(handle_key(KeyCode::Enter, &mut app, 3), Command::Nothing));
    assert_eq!(status(&app), Some("Installation already in progress..."));
}

#[test]
fn finished_installation_refreshes_the_installed_mods() {
    let mut app = loaded_app();
    app.installing = true;
    app.manage_mods[1].enabled = false;
    on_mod_installed(
        &mut app,
        Ok(InstallResult {
            mod_name: "gamma".to_string(),
            dependency_count: 2,
            installed_mods: vec![installed("alpha"), installed("beta"), installed("gamma")],
        }),
        7,
    );
    assert!(!app.installing);
    assert_eq!(status(&app), Some("Installed gamma + 2 dependencies"));
    let flags: Vec<(String, bool, bool)> = app
        .manage_mods
        .iter()
        .map(|m: &ManageMod| (m.installed_mod.name.clone(), m.enabled, m.pending))
        .collect();
    assert_eq!(
        flags,
        vec![
            ("alpha".to_string(), true, false),
            ("beta".to_string(), false, false),
            ("gamma".to_string(), true, true),
        ]
    );
    assert_eq!(app.manage_display_order(), vec![0, 1, 2]);
    app.installing = true;
    on_mod_installed(&mut app, Err("no route".to_string()), 8);
    assert!(!app.installing);
    assert_eq!(status(&app), Some("Install failed: no route"));
    assert_eq!(app.manage_mods.len(), 3);
}

//! What the interface does when something happens: a key is pressed, a
//! list arrives, an installation ends.
//!
//! Nothing here touches the disk or the network. Where the user asks for
//! that, a [`Command`] says what is to be done, and the outcome comes
//! back as another call.

use vstd::prelude::*;
use vstd::string::StringExecFns;
use crate::app::{
    display_order, lists_mod, selected_above, selected_below, shown_entries, App, ManageMod,
};
use crate::catalog::ModListEntry;
use crate::event::KeyCode;
use crate::install::{success_text, InstallResult};
use crate::installed::InstalledMod;
use crate::mod_list::{says_enabled, ModList};
use crate::navigation::{first_block, ActiveBlock, Tab};
use crate::text::{pop_char, push_char};
use crate::version::Version;

verus! {

/// What the application is to do for the user.
#[derive(Debug)]
pub enum Command {
    /// Nothing.
    Nothing,
    /// Delete the archive of an installed mod.
    DeleteMod { name: String, version: Version, mods_dir: String },
    /// Resolve, download and install a mod.
    InstallMod { mod_name: String },
    /// Write the list of enabled mods, then quit.
    SaveModList,
}

/// The text `prefix` followed by `rest`.
fn join(prefix: &str, rest: &str) -> (r: String)
    ensures
        r@ == prefix@ + rest@,
{
    let mut out = String::from_str(prefix);
    out.append(rest);
    out
}

/// Whether `mods` hold a mod named `name` that is enabled, or none of
/// that name at all: a mod that is new counts as enabled.
pub open spec fn enabled_before(mods: Seq<ManageMod>, name: Seq<char>) -> bool
    decreases mods.len(),
{
    if mods.len() == 0 {
        true
    } else if mods.last().installed_mod.name@ == name {
        mods.last().enabled
    } else {
        enabled_before(mods.drop_last(), name)
    }
}

/// Whether `mods` hold a mod named `name` that is not pending.
pub open spec fn saved_before(mods: Seq<ManageMod>, name: Seq<char>) -> bool
    decreases mods.len(),
{
    if mods.len() == 0 {
        false
    } else if mods.last().installed_mod.name@ == name {
        !mods.last().pending
    } else {
        saved_before(mods.drop_last(), name)
    }
}

/// Looks up in `mods` whether the mod `name` was enabled and whether it
/// was saved.
fn known_state(mods: &Vec<ManageMod>, name: &String) -> (r: (bool, bool))
    ensures
        r.0 == enabled_before(mods@, name@),
        r.1 == saved_before(mods@, name@),
{
    let mut i: usize = mods.len();
    assert(mods@.take(i as int) =~= mods@);
    while i > 0
        invariant
            i <= mods.len(),
            enabled_before(mods@, name@) == enabled_before(mods@.take(i as int), name@),
            saved_before(mods@, name@) == saved_before(mods@.take(i as int), name@),
        decreases i,
    {
        proof {
            assert(mods@.take(i as int).drop_last() =~= mods@.take(i - 1));
            assert(mods@.take(i as int).last() == mods@[i - 1]);
        }
        if mods[i - 1].installed_mod.name == *name {
            return (mods[i - 1].enabled, !mods[i - 1].pending);
        }
        i = i - 1;
    }
    (true, false)
}

/// Takes in the catalog's list of mods, or the reason why it could not
/// be had.
pub fn on_mod_list_loaded(app: &mut App, result: Result<Vec<ModListEntry>, String>, now: u64)
    ensures
        !final(app).loading,
        match result {
            Ok(mods) => final(app).install_mods == mods && (if mods@.len() == 0 {
                final(app).install_selected == old(app).install_selected && (
                final(app).status_message matches Some(m) && m.shown_at == now && m.text@
                    == "No mods found for this Factorio version"@)
            } else {
                final(app).install_selected == Some(0usize) && final(app).status_message == old(
                    app,
                ).status_message
            }),
            Err(e) => final(app).install_mods == old(app).install_mods && final(app).install_selected
                == old(app).install_selected && (final(app).status_message matches Some(m)
                && m.shown_at == now && m.text@ == "Failed to load mod list: "@ + e@),
        },
        final(app).manage_mods == old(app).manage_mods,
        final(app).manage_selected == old(app).manage_selected,
        final(app).tab == old(app).tab,
        final(app).active_block == old(app).active_block,
        final(app).install_filter == old(app).install_filter,
        final(app).should_quit == old(app).should_quit,
        final(app).show_quit_popup == old(app).show_quit_popup,
        final(app).installing == old(app).installing,
{
    match result {
        Ok(mods) => {
            app.install_mods = mods;
            app.loading = false;
            if app.install_mods.len() == 0 {
                app.set_status(String::from_str("No mods found for this Factorio version"), now);
            } else {
                app.install_selected = Some(0);
            }
        },
        Err(e) => {
            app.loading = false;
            app.set_status(join("Failed to load mod list: ", e.as_str()), now);
        },
    }
}

/// The list of installed mods after a rescan found `found` installed:
/// each mod that was found, enabled as it was before or enabled if it is
/// new, and pending unless it was listed as saved before.
pub open spec fn merged_mod(before: Seq<ManageMod>, found: InstalledMod, merged: ManageMod) -> bool {
    &&& merged.installed_mod == found
    &&& merged.enabled == enabled_before(before, found.name@)
    &&& merged.pending == !saved_before(before, found.name@)
}

/// Takes in how an installation ended.
pub fn on_mod_installed(app: &mut App, result: Result<InstallResult, String>, now: u64)
    ensures
        !final(app).installing,
        match result {
            Ok(done) => final(app).manage_mods@.len() == done.installed_mods@.len() && (forall|
                i: int,
            |
                0 <= i < done.installed_mods@.len() ==> merged_mod(
                    old(app).manage_mods@,
                    done.installed_mods@[i],
                    #[trigger] final(app).manage_mods@[i],
                )) && (final(app).status_message matches Some(m) && m.shown_at == now && m.text@
                == success_text(done.mod_name@, done.dependency_count as nat)),
            Err(e) => final(app).manage_mods == old(app).manage_mods && (
            final(app).status_message matches Some(m) && m.shown_at == now && m.text@
                == "Install failed: "@ + e@),
        },
        final(app).manage_selected == old(app).manage_selected,
        final(app).install_mods == old(app).install_mods,
        final(app).install_selected == old(app).install_selected,
        final(app).install_filter == old(app).install_filter,
        final(app).tab == old(app).tab,
        final(app).active_block == old(app).active_block,
        final(app).should_quit == old(app).should_quit,
        final(app).loading == old(app).loading,
{
    app.installing = false;
    match result {
        Ok(done) => {
            let text = done.message();
            let mut merged: Vec<ManageMod> = Vec::new();
            let mut found = done.installed_mods;
            let ghost all = found@;
            let total = found.len();
            let mut i: usize = 0;
            while found.len() > 0
                invariant
                    all.len() == total,
                    i + found@.len() == all.len(),
                    found@ == all.skip(i as int),
                    merged@.len() == i,
                    app.manage_mods == old(app).manage_mods,
                    forall|j: int|
                        0 <= j < i ==> merged_mod(old(app).manage_mods@, all[j], #[trigger] merged@[j]),
                decreases found@.len(),
            {
                let installed_mod = found.remove(0);
                assert(installed_mod == all[i as int]);
                assert(found@ =~= all.skip(i + 1));
                let (enabled, saved) = known_state(&app.manage_mods, &installed_mod.name);
                merged.push(ManageMod { installed_mod, enabled, pending: !saved });
                i = i + 1;
            }
            app.manage_mods = merged;
            app.set_status(text, now);
        },
        Err(e) => {
            app.set_status(join("Install failed: ", e.as_str()), now);
        },
    }
}

/// The mods of `mods` that are not named `name`, in their order.
pub open spec fn without_mod(mods: Seq<ManageMod>, name: Seq<char>) -> Seq<ManageMod>
    decreases mods.len(),
{
    if mods.len() == 0 {
        Seq::empty()
    } else {
        let before = without_mod(mods.drop_last(), name);
        if mods.last().installed_mod.name@ == name {
            before
        } else {
            before.push(mods.last())
        }
    }
}

/// The selection after the list of installed mods has shrunk to `len`
/// mods: kept if it still points at a mod, moved to the last mod if it
/// points beyond, and given up if no mod is left.
pub open spec fn selection_within(selected: Option<usize>, len: nat) -> Option<usize> {
    if len == 0 {
        None
    } else {
        match selected {
            Some(sel) => if sel >= len {
                Some((len - 1) as usize)
            } else {
                selected
            },
            None => None,
        }
    }
}

/// Takes in how the deletion of a mod ended: with the name of the mod
/// that is gone, or with the reason why it is not.
pub fn on_mod_deleted(app: &mut App, result: Result<String, String>, now: u64)
    ensures
        match result {
            Ok(name) => final(app).manage_mods@ == without_mod(old(app).manage_mods@, name@)
                && final(app).manage_selected == selection_within(
                old(app).manage_selected,
                without_mod(old(app).manage_mods@, name@).len(),
            ) && (final(app).status_message matches Some(m) && m.shown_at == now && m.text@
                == "Deleted "@ + name@),
            Err(e) => final(app).manage_mods == old(app).manage_mods && final(app).manage_selected
                == old(app).manage_selected && (final(app).status_message matches Some(m)
                && m.shown_at == now && m.text@ == "Delete failed: "@ + e@),
        },
        final(app).install_mods == old(app).install_mods,
        final(app).install_selected == old(app).install_selected,
        final(app).install_filter == old(app).install_filter,
        final(app).tab == old(app).tab,
        final(app).active_block == old(app).active_block,
        final(app).should_quit == old(app).should_quit,
        final(app).installing == old(app).installing,
        final(app).loading == old(app).loading,
{
    match result {
        Ok(name) => {
            let mut kept: Vec<ManageMod> = Vec::new();
            let ghost all = app.manage_mods@;
            let total = app.manage_mods.len();
            let mut i: usize = 0;
            assert(all.take(0) =~= Seq::<ManageMod>::empty());
            while app.manage_mods.len() > 0
                invariant
                    all.len() == total,
                    i + app.manage_mods@.len() == all.len(),
                    app.manage_mods@ == all.skip(i as int),
                    kept@ == without_mod(all.take(i as int), name@),
                    app.manage_selected == old(app).manage_selected,
                    app.install_mods == old(app).install_mods,
                    app.install_selected == old(app).install_selected,
                    app.install_filter == old(app).install_filter,
                    app.tab == old(app).tab,
                    app.active_block == old(app).active_block,
                    app.should_quit == old(app).should_quit,
                    app.installing == old(app).installing,
                    app.loading == old(app).loading,
                decreases app.manage_mods@.len(),
            {
                let m = app.manage_mods.remove(0);
                proof {
                    assert(m == all[i as int]);
                    assert(app.manage_mods@ =~= all.skip(i + 1));
                    assert(all.take(i + 1).drop_last() =~= all.take(i as int));
                    assert(all.take(i + 1).last() == all[i as int]);
                }
                if m.installed_mod.name != name {
                    kept.push(m);
                }
                i = i + 1;
            }
            assert(all.take(i as int) =~= all);
            let len = kept.len();
            app.manage_mods = kept;
            if len > 0 {
                if let Some(sel) = app.manage_selected {
                    if sel >= len {
                        app.manage_selected = Some(len - 1);
                    }
                }
            } else {
                app.manage_selected = None;
            }
            app.set_status(join("Deleted ", name.as_str()), now);
        },
        Err(e) => {
            app.set_status(join("Delete failed: ", e.as_str()), now);
        },
    }
}

/// Takes in the installed mods and the list of enabled mods as they were
/// read at the start, or the reason why they could not be read.
pub fn on_installed_mods_loaded(
    app: &mut App,
    result: Result<(Vec<InstalledMod>, ModList), String>,
    now: u64,
)
    ensures
        match result {
            Ok((mods, mod_list)) => final(app).manage_mods@.len() == mods@.len() && (forall|i: int|
                0 <= i < mods@.len() ==> (#[trigger] final(app).manage_mods@[i]).installed_mod
                    == mods@[i] && final(app).manage_mods@[i].enabled == says_enabled(
                    mod_list@,
                    mods@[i].name@,
                ) && !final(app).manage_mods@[i].pending) && final(app).manage_selected == (
            if mods@.len() > 0 {
                Some(0usize)
            } else {
                old(app).manage_selected
            }) && final(app).status_message == old(app).status_message,
            Err(e) => final(app).manage_mods == old(app).manage_mods && final(app).manage_selected
                == old(app).manage_selected && (final(app).status_message matches Some(m)
                && m.shown_at == now && m.text@ == "Failed to read installed mods: "@ + e@),
        },
        final(app).install_mods == old(app).install_mods,
        final(app).install_selected == old(app).install_selected,
        final(app).install_filter == old(app).install_filter,
        final(app).tab == old(app).tab,
        final(app).active_block == old(app).active_block,
        final(app).should_quit == old(app).should_quit,
        final(app).installing == old(app).installing,
        final(app).loading == old(app).loading,
{
    match result {
        Ok((mods, mod_list)) => {
            let mut listed: Vec<ManageMod> = Vec::new();
            let mut found = mods;
            let ghost all = found@;
            let total = found.len();
            let mut i: usize = 0;
            while found.len() > 0
                invariant
                    all.len() == total,
                    i + found@.len() == all.len(),
                    found@ == all.skip(i as int),
                    listed@.len() == i,
                    forall|j: int|
                        0 <= j < i ==> (#[trigger] listed@[j]).installed_mod == all[j]
                            && listed@[j].enabled == says_enabled(mod_list@, all[j].name@)
                            && !listed@[j].pending,
                decreases found@.len(),
            {
                let installed_mod = found.remove(0);
                assert(installed_mod == all[i as int]);
                assert(found@ =~= all.skip(i + 1));
                let enabled = mod_list.is_enabled(installed_mod.name.as_str());
                listed.push(ManageMod { installed_mod, enabled, pending: false });
                i = i + 1;
            }
            let any = listed.len() > 0;
            app.manage_mods = listed;
            if any {
                app.manage_selected = Some(0);
            }
        },
        Err(e) => {
            app.set_status(join("Failed to read installed mods: ", e.as_str()), now);
        },
    }
}

/// Puts up the error `msg`.
pub fn on_error(app: &mut App, msg: String, now: u64)
    ensures
        final(app).status_message matches Some(m) && m.text == msg && m.shown_at == now,
        final(app).manage_mods == old(app).manage_mods,
        final(app).manage_selected == old(app).manage_selected,
        final(app).install_mods == old(app).install_mods,
        final(app).install_selected == old(app).install_selected,
        final(app).install_filter == old(app).install_filter,
        final(app).tab == old(app).tab,
        final(app).active_block == old(app).active_block,
        final(app).should_quit == old(app).should_quit,
{
    app.set_status(msg, now);
}

/// A command as contracts speak of it.
pub enum CommandView {
    Nothing,
    DeleteMod { name: Seq<char>, version: Version, mods_dir: Seq<char> },
    InstallMod { mod_name: Seq<char> },
    SaveModList,
}

impl View for Command {
    type V = CommandView;

    open spec fn view(&self) -> CommandView {
        match self {
            Command::Nothing => CommandView::Nothing,
            Command::DeleteMod { name, version, mods_dir } => CommandView::DeleteMod {
                name: name@,
                version: *version,
                mods_dir: mods_dir@,
            },
            Command::InstallMod { mod_name } => CommandView::InstallMod { mod_name: mod_name@ },
            Command::SaveModList => CommandView::SaveModList,
        }
    }
}

/// What a key does to the interface.
pub struct KeyEffect {
    pub tab: Tab,
    pub active_block: ActiveBlock,
    pub show_quit_popup: bool,
    pub should_quit: bool,
    pub installing: bool,
    pub install_filter: Seq<char>,
    pub install_selected: Option<usize>,
    pub manage_selected: Option<usize>,
    /// The installed mod that is switched on or off, if one is.
    pub toggled: Option<usize>,
    /// The message that is put up, if one is.
    pub status: Option<Seq<char>>,
    /// What the application is to do.
    pub command: CommandView,
}

/// The effect of a key that does nothing.
pub open spec fn no_effect(app: App) -> KeyEffect {
    KeyEffect {
        tab: app.tab,
        active_block: app.active_block,
        show_quit_popup: app.show_quit_popup,
        should_quit: app.should_quit,
        installing: app.installing,
        install_filter: app.install_filter@,
        install_selected: app.install_selected,
        manage_selected: app.manage_selected,
        toggled: None,
        status: None,
        command: CommandView::Nothing,
    }
}

/// The line that is selected once the filter is `filter`: the first line
/// if any mod is shown.
pub open spec fn first_shown(entries: Seq<ModListEntry>, filter: Seq<char>) -> Option<usize> {
    if shown_entries(entries, filter).len() == 0 {
        None
    } else {
        Some(0usize)
    }
}

/// What a key does while the user is asked whether to save: `y` saves
/// and quits, `n` quits, and the escape key goes back.
pub open spec fn quit_popup_effect(app: App, key: KeyCode) -> KeyEffect {
    match key {
        KeyCode::Char(c) => if c == 'y' {
            KeyEffect { command: CommandView::SaveModList, ..no_effect(app) }
        } else if c == 'n' {
            KeyEffect { should_quit: true, ..no_effect(app) }
        } else {
            no_effect(app)
        },
        KeyCode::Esc => KeyEffect {
            show_quit_popup: false,
            active_block: first_block(app.tab),
            ..no_effect(app)
        },
        _ => no_effect(app),
    }
}

/// What a key does in the list of installed mods: the arrows move the
/// selection, the enter key switches the selected mod on or off, and `d`
/// asks for its deletion.
pub open spec fn manage_effect(app: App, key: KeyCode) -> KeyEffect {
    let valid = app.manage_selected matches Some(sel) && sel < app.manage_mods@.len();
    match key {
        KeyCode::Up => KeyEffect {
            manage_selected: selected_above(display_order(app.manage_mods@), app.manage_selected),
            ..no_effect(app)
        },
        KeyCode::Down => KeyEffect {
            manage_selected: selected_below(display_order(app.manage_mods@), app.manage_selected),
            ..no_effect(app)
        },
        KeyCode::Enter => if valid {
            KeyEffect { toggled: app.manage_selected, ..no_effect(app) }
        } else {
            no_effect(app)
        },
        KeyCode::Char(c) => if c == 'd' && valid {
            let m = app.manage_mods@[app.manage_selected.unwrap() as int];
            KeyEffect {
                command: CommandView::DeleteMod {
                    name: m.installed_mod.name@,
                    version: m.installed_mod.version,
                    mods_dir: app.mods_dir@,
                },
                ..no_effect(app)
            }
        } else {
            no_effect(app)
        },
        _ => no_effect(app),
    }
}

/// What a key does in the search field: letters are added to the filter,
/// the backspace key takes the last one off, and the enter, down and
/// escape keys go back to the list.
pub open spec fn search_effect(app: App, key: KeyCode) -> KeyEffect {
    match key {
        KeyCode::Esc => KeyEffect { active_block: ActiveBlock::InstallModList, ..no_effect(app) },
        KeyCode::Enter | KeyCode::Down => KeyEffect {
            active_block: ActiveBlock::InstallModList,
            install_selected: if app.install_selected is None {
                first_shown(app.install_mods@, app.install_filter@)
            } else {
                app.install_selected
            },
            ..no_effect(app)
        },
        KeyCode::Char(c) => KeyEffect {
            install_filter: app.install_filter@.push(c),
            install_selected: first_shown(app.install_mods@, app.install_filter@.push(c)),
            ..no_effect(app)
        },
        KeyCode::Backspace => {
            let filter = if app.install_filter@.len() > 0 {
                app.install_filter@.drop_last()
            } else {
                app.install_filter@
            };
            KeyEffect {
                install_filter: filter,
                install_selected: first_shown(app.install_mods@, filter),
                ..no_effect(app)
            }
        },
        _ => no_effect(app),
    }
}

/// The line that is selected after a step up in the list of mods to
/// install.
pub open spec fn install_line_above(selected: Option<usize>) -> Option<usize> {
    crate::app::line_above(selected)
}

/// What the enter key does in the list of mods to install: it asks for
/// the installation of the selected mod, unless an installation is under
/// way or the mod is installed already.
pub open spec fn install_enter_effect(app: App) -> KeyEffect {
    let shown = shown_entries(app.install_mods@, app.install_filter@);
    if app.installing {
        KeyEffect { status: Some("Installation already in progress..."@), ..no_effect(app) }
    } else {
        match app.install_selected {
            Some(sel) => if sel < shown.len() {
                let name = app.install_mods@[shown[sel as int] as int].name@;
                if lists_mod(app.manage_mods@, name) {
                    KeyEffect { status: Some(name + " is already installed"@), ..no_effect(app) }
                } else {
                    KeyEffect {
                        installing: true,
                        status: Some("Installing "@ + name + "..."@),
                        command: CommandView::InstallMod { mod_name: name },
                        ..no_effect(app)
                    }
                }
            } else {
                no_effect(app)
            },
            None => no_effect(app),
        }
    }
}

/// What a key does in the list of mods to install: the arrows move the
/// selection, the enter key installs, and any letter begins a search.
pub open spec fn install_list_effect(app: App, key: KeyCode) -> KeyEffect {
    match key {
        KeyCode::Up => KeyEffect {
            install_selected: crate::app::line_above(app.install_selected),
            ..no_effect(app)
        },
        KeyCode::Down => KeyEffect {
            install_selected: crate::app::line_below(
                app.install_selected,
                shown_entries(app.install_mods@, app.install_filter@).len(),
            ),
            ..no_effect(app)
        },
        KeyCode::Enter => install_enter_effect(app),
        KeyCode::Char(c) => if c == '/' {
            KeyEffect { active_block: ActiveBlock::InstallSearch, ..no_effect(app) }
        } else {
            KeyEffect {
                active_block: ActiveBlock::InstallSearch,
                install_filter: app.install_filter@.push(c),
                install_selected: first_shown(app.install_mods@, app.install_filter@.push(c)),
                ..no_effect(app)
            }
        },
        _ => no_effect(app),
    }
}

/// The other tab.
pub open spec fn other_tab(tab: Tab) -> Tab {
    match tab {
        Tab::Manage => Tab::Install,
        Tab::Install => Tab::Manage,
    }
}

/// What a key does. While the user is asked whether to save, every key
/// answers that question. Otherwise control-c asks it, the tab key
/// changes the tab, and any other key goes to the block that has the
/// focus.
pub open spec fn key_effect(app: App, key: KeyCode) -> KeyEffect {
    if app.show_quit_popup {
        quit_popup_effect(app, key)
    } else if key == KeyCode::Ctrl('c') {
        KeyEffect { show_quit_popup: true, active_block: ActiveBlock::QuitPopup, ..no_effect(app) }
    } else if key == KeyCode::Tab {
        KeyEffect {
            tab: other_tab(app.tab),
            active_block: first_block(other_tab(app.tab)),
            ..no_effect(app)
        }
    } else {
        match app.active_block {
            ActiveBlock::ManageModList => manage_effect(app, key),
            ActiveBlock::InstallModList => install_list_effect(app, key),
            ActiveBlock::InstallSearch => search_effect(app, key),
            ActiveBlock::QuitPopup => quit_popup_effect(app, key),
            ActiveBlock::InstallModDetails => no_effect(app),
        }
    }
}

/// Whether `after` and `command` are what the effect `e` makes of
/// `before` at the second `now`.
pub open spec fn applied(before: App, after: App, command: Command, now: u64, e: KeyEffect) -> bool {
    &&& after.tab == e.tab
    &&& after.active_block == e.active_block
    &&& after.show_quit_popup == e.show_quit_popup
    &&& after.should_quit == e.should_quit
    &&& after.installing == e.installing
    &&& after.install_filter@ == e.install_filter
    &&& after.install_selected == e.install_selected
    &&& after.manage_selected == e.manage_selected
    &&& after.install_mods == before.install_mods
    &&& after.loading == before.loading
    &&& after.mods_dir == before.mods_dir
    &&& after.factorio_version == before.factorio_version
    &&& after.server_settings == before.server_settings
    &&& after.manage_mods@ == (match e.toggled {
        Some(i) => before.manage_mods@.update(
            i as int,
            ManageMod {
                enabled: !before.manage_mods@[i as int].enabled,
                ..before.manage_mods@[i as int]
            },
        ),
        None => before.manage_mods@,
    })
    &&& match e.status {
        Some(text) => after.status_message matches Some(m) && m.text@ == text && m.shown_at == now,
        None => after.status_message == before.status_message,
    }
    &&& command@ == e.command
}

fn handle_quit_popup(key: KeyCode, app: &mut App, now: u64) -> (r: Command)
    ensures
        applied(*old(app), *final(app), r, now, quit_popup_effect(*old(app), key)),
{
    match key {
        KeyCode::Char(c) => {
            if c == 'y' {
                Command::SaveModList
            } else if c == 'n' {
                app.should_quit = true;
                Command::Nothing
            } else {
                Command::Nothing
            }
        },
        KeyCode::Esc => {
            app.show_quit_popup = false;
            app.active_block = match app.tab {
                Tab::Manage => ActiveBlock::ManageModList,
                Tab::Install => ActiveBlock::InstallModList,
            };
            Command::Nothing
        },
        _ => Command::Nothing,
    }
}

fn handle_manage_keys(key: KeyCode, app: &mut App, now: u64) -> (r: Command)
    requires
        old(app).active_block == ActiveBlock::ManageModList,
    ensures
        applied(*old(app), *final(app), r, now, manage_effect(*old(app), key)),
{
    match key {
        KeyCode::Up => {
            app.move_up();
            Command::Nothing
        },
        KeyCode::Down => {
            app.move_down();
            Command::Nothing
        },
        KeyCode::Enter => {
            if let Some(sel) = app.manage_selected {
                if sel < app.manage_mods.len() {
                    let m = app.manage_mods.remove(sel);
                    app.manage_mods.insert(
                        sel,
                        ManageMod {
                            installed_mod: m.installed_mod,
                            enabled: !m.enabled,
                            pending: m.pending,
                        },
                    );
                    assert(app.manage_mods@ =~= old(app).manage_mods@.update(
                        sel as int,
                        ManageMod {
                            enabled: !old(app).manage_mods@[sel as int].enabled,
                            ..old(app).manage_mods@[sel as int]
                        },
                    ));
                }
            }
            Command::Nothing
        },
        KeyCode::Char(c) => {
            if c == 'd' {
                if let Some(sel) = app.manage_selected {
                    if sel < app.manage_mods.len() {
                        return Command::DeleteMod {
                            name: app.manage_mods[sel].installed_mod.name.clone(),
                            version: app.manage_mods[sel].installed_mod.version,
                            mods_dir: app.mods_dir.clone(),
                        };
                    }
                }
            }
            Command::Nothing
        },
        _ => Command::Nothing,
    }
}

/// Selects the first line of the list of mods to install if any mod is
/// shown, and no line otherwise.
fn reselect(app: &mut App)
    ensures
        final(app).install_selected == first_shown(old(app).install_mods@, old(app).install_filter@),
        final(app).tab == old(app).tab,
        final(app).active_block == old(app).active_block,
        final(app).show_quit_popup == old(app).show_quit_popup,
        final(app).should_quit == old(app).should_quit,
        final(app).installing == old(app).installing,
        final(app).install_filter == old(app).install_filter,
        final(app).manage_selected == old(app).manage_selected,
        final(app).install_mods == old(app).install_mods,
        final(app).loading == old(app).loading,
        final(app).mods_dir == old(app).mods_dir,
        final(app).factorio_version == old(app).factorio_version,
        final(app).server_settings == old(app).server_settings,
        final(app).manage_mods == old(app).manage_mods,
        final(app).status_message == old(app).status_message,
{
    let shown = app.filtered_install_mods().len();
    app.install_selected = if shown == 0 {
        None
    } else {
        Some(0)
    };
}

fn handle_search_keys(key: KeyCode, app: &mut App, now: u64) -> (r: Command)
    ensures
        applied(*old(app), *final(app), r, now, search_effect(*old(app), key)),
{
    match key {
        KeyCode::Esc => {
            app.active_block = ActiveBlock::InstallModList;
        },
        KeyCode::Enter | KeyCode::Down => {
            app.active_block = ActiveBlock::InstallModList;
            if app.install_selected.is_none() {
                reselect(app);
            }
        },
        KeyCode::Char(c) => {
            push_char(&mut app.install_filter, c);
            reselect(app);
        },
        KeyCode::Backspace => {
            let _ = pop_char(&mut app.install_filter);
            reselect(app);
        },
        _ => {},
    }
    Command::Nothing
}

fn handle_install_enter(app: &mut App, now: u64) -> (r: Command)
    ensures
        applied(*old(app), *final(app), r, now, install_enter_effect(*old(app))),
{
    if app.installing {
        app.set_status(String::from_str("Installation already in progress..."), now);
        return Command::Nothing;
    }
    let shown = app.filtered_install_mods();
    let count = app.install_mods.len();
    proof {
        crate::app::lemma_shown_entries(app.install_mods@, app.install_filter@);
    }
    if let Some(sel) = app.install_selected {
        if sel < shown.len() {
            let mod_name = app.install_mods[shown[sel]].name.clone();
            if app.is_installed(mod_name.as_str()) {
                app.set_status(join(mod_name.as_str(), " is already installed"), now);
                return Command::Nothing;
            }
            app.installing = true;
            let mut text = join("Installing ", mod_name.as_str());
            text.append("...");
            app.set_status(text, now);
            return Command::InstallMod { mod_name };
        }
    }
    Command::Nothing
}

fn handle_install_list_keys(key: KeyCode, app: &mut App, now: u64) -> (r: Command)
    requires
        old(app).active_block == ActiveBlock::InstallModList,
    ensures
        applied(*old(app), *final(app), r, now, install_list_effect(*old(app), key)),
{
    match key {
        KeyCode::Up => {
            app.move_up();
            Command::Nothing
        },
        KeyCode::Down => {
            app.move_down();
            Command::Nothing
        },
        KeyCode::Enter => handle_install_enter(app, now),
        KeyCode::Char(c) => {
            app.active_block = ActiveBlock::InstallSearch;
            if c != '/' {
                push_char(&mut app.install_filter, c);
                reselect(app);
            }
            Command::Nothing
        },
        _ => Command::Nothing,
    }
}

/// Takes in a key.
pub fn handle_key(key: KeyCode, app: &mut App, now: u64) -> (r: Command)
    ensures
        applied(*old(app), *final(app), r, now, key_effect(*old(app), key)),
{
    if app.show_quit_popup {
        return handle_quit_popup(key, app, now);
    }
    match key {
        KeyCode::Ctrl(c) => {
            if c == 'c' {
                app.show_quit_popup = true;
                app.active_block = ActiveBlock::QuitPopup;
                return Command::Nothing;
            }
        },
        KeyCode::Tab => {
            match app.tab {
                Tab::Manage => app.select_tab(Tab::Install),
                Tab::Install => app.select_tab(Tab::Manage),
            }
            return Command::Nothing;
        },
        _ => {},
    }
    match app.active_block {
        ActiveBlock::ManageModList => handle_manage_keys(key, app, now),
        ActiveBlock::InstallModList => handle_install_list_keys(key, app, now),
        ActiveBlock::InstallSearch => handle_search_keys(key, app, now),
        ActiveBlock::QuitPopup => handle_quit_popup(key, app, now),
        ActiveBlock::InstallModDetails => Command::Nothing,
    }
}

/// Takes in how the writing of the list of enabled mods ended, after the
/// user chose to save and quit. After a failure the interface stays
/// open and says why.
pub fn on_mod_list_saved(app: &mut App, result: Result<(), String>, now: u64)
    ensures
        match result {
            Ok(()) => final(app).should_quit && final(app).show_quit_popup == old(
                app,
            ).show_quit_popup && final(app).active_block == old(app).active_block
                && final(app).status_message == old(app).status_message,
            Err(e) => final(app).should_quit == old(app).should_quit && !final(app).show_quit_popup
                && final(app).active_block == first_block(old(app).tab) && (
            final(app).status_message matches Some(m) && m.shown_at == now && m.text@
                == "Failed to save mod-list.json: "@ + e@),
        },
        final(app).tab == old(app).tab,
        final(app).manage_mods == old(app).manage_mods,
        final(app).manage_selected == old(app).manage_selected,
        final(app).install_mods == old(app).install_mods,
        final(app).install_selected == old(app).install_selected,
        final(app).install_filter == old(app).install_filter,
{
    match result {
        Ok(()) => {
            app.should_quit = true;
        },
        Err(e) => {
            app.set_status(join("Failed to save mod-list.json: ", e.as_str()), now);
            app.show_quit_popup = false;
            app.active_block = match app.tab {
                Tab::Manage => ActiveBlock::ManageModList,
                Tab::Install => ActiveBlock::InstallModList,
            };
        },
    }
}

} // verus!

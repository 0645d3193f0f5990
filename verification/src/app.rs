//! What the interface shows and what is selected in it, apart from how
//! it is drawn.

use vstd::prelude::*;
use vstd::string::{StrSliceExecFns, StringExecFns};
use crate::catalog::ModListEntry;
use crate::installed::InstalledMod;
use crate::navigation::{first_block, ActiveBlock, Tab};
use crate::settings::ServerSettings;
use crate::text::{contains_text, lowercase, text_contains, to_lowercase};

verus! {

/// An installed mod as the interface lists it.
#[derive(Debug)]
pub struct ManageMod {
    pub installed_mod: InstalledMod,
    /// Whether the game is to load the mod.
    pub enabled: bool,
    /// Whether the mod was installed since the list was last saved.
    pub pending: bool,
}

/// A message for the user and the second at which it was put up.
#[derive(Debug)]
pub struct StatusMessage {
    pub text: String,
    pub shown_at: u64,
}

/// For how many seconds a message stays up.
pub const STATUS_SECONDS: u64 = 5;

/// The state of the interface.
#[derive(Debug)]
pub struct App {
    pub tab: Tab,
    pub active_block: ActiveBlock,
    pub install_mods: Vec<ModListEntry>,
    pub install_filter: String,
    pub install_selected: Option<usize>,
    pub manage_mods: Vec<ManageMod>,
    pub manage_selected: Option<usize>,
    pub status_message: Option<StatusMessage>,
    pub factorio_version: String,
    pub server_settings: ServerSettings,
    pub mods_dir: String,
    pub should_quit: bool,
    pub show_quit_popup: bool,
    pub loading: bool,
    pub installing: bool,
}

/// The positions of `mods` whose mod is pending, or those whose mod is
/// not, in rising order.
pub open spec fn positions_pending(mods: Seq<ManageMod>, pending: bool) -> Seq<usize>
    decreases mods.len(),
{
    if mods.len() == 0 {
        Seq::empty()
    } else {
        let before = positions_pending(mods.drop_last(), pending);
        if mods.last().pending == pending {
            before.push((mods.len() - 1) as usize)
        } else {
            before
        }
    }
}

/// The order in which the installed mods are listed: those that are
/// saved first, then those that are pending.
pub open spec fn display_order(mods: Seq<ManageMod>) -> Seq<usize> {
    positions_pending(mods, false) + positions_pending(mods, true)
}

/// The positions that `positions_pending` gives are positions of the
/// list, and every position of the list is given for one of the two
/// answers.
pub proof fn lemma_positions_pending(mods: Seq<ManageMod>, pending: bool)
    requires
        mods.len() <= usize::MAX,
    ensures
        positions_pending(mods, pending).len() <= mods.len(),
        forall|k: int|
            0 <= k < positions_pending(mods, pending).len() ==> (#[trigger] positions_pending(
                mods,
                pending,
            )[k]) < mods.len() && mods[positions_pending(mods, pending)[k] as int].pending
                == pending,
        forall|i: int|
            0 <= i < mods.len() && (#[trigger] mods[i]).pending == pending ==> positions_pending(
                mods,
                pending,
            ).contains(i as usize),
    decreases mods.len(),
{
    if mods.len() > 0 {
        let init = mods.drop_last();
        lemma_positions_pending(init, pending);
        let all = positions_pending(mods, pending);
        let before = positions_pending(init, pending);
        assert(forall|i: int| 0 <= i < init.len() ==> init[i] == mods[i]);
        assert(forall|k: int| 0 <= k < before.len() ==> all[k] == before[k]);
        assert forall|k: int| 0 <= k < all.len() implies (#[trigger] all[k]) < mods.len()
            && mods[all[k] as int].pending == pending by {
            if k < before.len() {
                assert(before[k] < init.len());
            }
        }
        assert forall|i: int|
            0 <= i < mods.len() && (#[trigger] mods[i]).pending == pending implies all.contains(
            i as usize,
        ) by {
            if i < init.len() {
                assert(init[i].pending == pending);
                let k = choose|k: int| 0 <= k < before.len() && before[k] == i as usize;
                assert(all[k] == i as usize);
            } else {
                assert(all[all.len() - 1] == i as usize);
            }
        }
    }
}

/// Whether the position `i` is among `order`.
pub open spec fn is_listed(order: Seq<usize>, i: int) -> bool {
    exists|k: int| 0 <= k < order.len() && order[k] == i
}

/// Every installed mod is listed: the display order holds every position
/// of the list, and nothing but positions of the list.
pub proof fn lemma_display_order_complete(mods: Seq<ManageMod>)
    requires
        mods.len() <= usize::MAX,
    ensures
        forall|k: int|
            0 <= k < display_order(mods).len() ==> (#[trigger] display_order(mods)[k]) < mods.len(),
        forall|i: int| 0 <= i < mods.len() ==> #[trigger] is_listed(display_order(mods), i),
{
    lemma_positions_pending(mods, false);
    lemma_positions_pending(mods, true);
    let saved = positions_pending(mods, false);
    let fresh = positions_pending(mods, true);
    let order = display_order(mods);
    assert forall|k: int| 0 <= k < order.len() implies (#[trigger] order[k]) < mods.len() by {
        if k < saved.len() {
            assert(order[k] == saved[k]);
        } else {
            assert(order[k] == fresh[k - saved.len()]);
        }
    }
    assert forall|i: int| 0 <= i < mods.len() implies #[trigger] is_listed(order, i) by {
        if mods[i].pending {
            assert(fresh.contains(i as usize));
            let k = choose|k: int| 0 <= k < fresh.len() && fresh[k] == i as usize;
            assert(order[saved.len() + k] == i);
        } else {
            assert(saved.contains(i as usize));
            let k = choose|k: int| 0 <= k < saved.len() && saved[k] == i as usize;
            assert(order[k] == i);
        }
    }
}

/// The place of `x` in `order`: the first one, if there are several.
pub open spec fn place_of(order: Seq<usize>, x: usize) -> Option<int>
    decreases order.len(),
{
    if order.len() == 0 {
        None
    } else {
        match place_of(order.drop_last(), x) {
            Some(i) => Some(i),
            None => if order.last() == x {
                Some(order.len() - 1)
            } else {
                None
            },
        }
    }
}

/// Where `x` ends a prefix of `order` that does not hold it otherwise,
/// that is its place in `order`.
pub proof fn lemma_place_in_prefix(order: Seq<usize>, len: int, x: usize)
    requires
        0 < len <= order.len(),
        place_of(order.take(len - 1), x) is None,
        order[len - 1] == x,
    ensures
        place_of(order, x) == Some(len - 1),
    decreases order.len() - len,
{
    if len == order.len() {
        assert(order.take(len) =~= order);
        assert(order.drop_last() =~= order.take(len - 1));
    } else {
        assert(order.drop_last().take(len - 1) =~= order.take(len - 1));
        lemma_place_in_prefix(order.drop_last(), len, x);
    }
}

/// Finds the place of `x` in `order`.
pub fn find_place(order: &Vec<usize>, x: usize) -> (r: Option<usize>)
    ensures
        match place_of(order@, x) {
            Some(i) => r == Some(i as usize) && 0 <= i < order.len(),
            None => r is None,
        },
{
    let mut k: usize = 0;
    assert(order@.take(0) =~= Seq::<usize>::empty());
    while k < order.len()
        invariant
            k <= order.len(),
            place_of(order@.take(k as int), x) is None,
        decreases order.len() - k,
    {
        proof {
            assert(order@.take(k + 1).drop_last() =~= order@.take(k as int));
            assert(order@.take(k + 1).last() == order@[k as int]);
        }
        if order[k] == x {
            proof {
                lemma_place_in_prefix(order@, k + 1, x);
            }
            return Some(k);
        }
        k = k + 1;
    }
    assert(order@.take(k as int) =~= order@);
    None
}

/// What is selected after a step up in a list that is shown in the order
/// `order`: what stands before the selection, if anything does.
pub open spec fn selected_above(order: Seq<usize>, selected: Option<usize>) -> Option<usize> {
    match selected {
        Some(sel) => match place_of(order, sel) {
            Some(pos) => if pos > 0 {
                Some(order[pos - 1])
            } else {
                selected
            },
            None => selected,
        },
        None => None,
    }
}

/// What is selected after a step down in a list that is shown in the
/// order `order`: what stands behind the selection, if anything does,
/// and the first line where nothing was selected.
pub open spec fn selected_below(order: Seq<usize>, selected: Option<usize>) -> Option<usize> {
    if order.len() == 0 {
        selected
    } else {
        match selected {
            Some(sel) => match place_of(order, sel) {
                Some(pos) => if pos < order.len() - 1 {
                    Some(order[pos + 1])
                } else {
                    selected
                },
                None => selected,
            },
            None => Some(order[0]),
        }
    }
}

/// The line that is selected after a step up in the list of mods to
/// install.
pub open spec fn line_above(selected: Option<usize>) -> Option<usize> {
    match selected {
        Some(sel) => if sel > 0 {
            Some((sel - 1) as usize)
        } else {
            selected
        },
        None => None,
    }
}

/// The line that is selected after a step down in the list of mods to
/// install, of which `shown` are shown.
pub open spec fn line_below(selected: Option<usize>, shown: nat) -> Option<usize> {
    let sel = match selected {
        Some(sel) => sel,
        None => 0,
    };
    if shown > 0 && sel < shown - 1 {
        Some((sel + 1) as usize)
    } else {
        selected
    }
}

/// Whether the entry `entry` is shown under the filter `filter`: every
/// entry under the empty filter, and otherwise those whose name or title
/// holds the filter, whatever the case of the letters.
pub open spec fn entry_shown(entry: ModListEntry, filter: Seq<char>) -> bool {
    filter.len() == 0 || contains_text(lowercase(entry.name@), lowercase(filter)) || contains_text(
        lowercase(entry.title@),
        lowercase(filter),
    )
}

/// The positions of the entries that are shown under `filter`.
pub open spec fn shown_entries(entries: Seq<ModListEntry>, filter: Seq<char>) -> Seq<usize>
    decreases entries.len(),
{
    if entries.len() == 0 {
        Seq::empty()
    } else {
        let before = shown_entries(entries.drop_last(), filter);
        if entry_shown(entries.last(), filter) {
            before.push((entries.len() - 1) as usize)
        } else {
            before
        }
    }
}

/// The positions that are shown are positions of the list.
pub proof fn lemma_shown_entries(entries: Seq<ModListEntry>, filter: Seq<char>)
    requires
        entries.len() <= usize::MAX,
    ensures
        shown_entries(entries, filter).len() <= entries.len(),
        forall|k: int|
            0 <= k < shown_entries(entries, filter).len() ==> (#[trigger] shown_entries(
                entries,
                filter,
            )[k]) < entries.len(),
    decreases entries.len(),
{
    if entries.len() > 0 {
        lemma_shown_entries(entries.drop_last(), filter);
        let all = shown_entries(entries, filter);
        let before = shown_entries(entries.drop_last(), filter);
        assert forall|k: int| 0 <= k < all.len() implies (#[trigger] all[k]) < entries.len() by {
            if k < before.len() {
                assert(all[k] == before[k]);
            }
        }
    }
}

/// Whether a mod named `name` is among `mods`.
pub open spec fn lists_mod(mods: Seq<ManageMod>, name: Seq<char>) -> bool {
    exists|i: int| 0 <= i < mods.len() && (#[trigger] mods[i]).installed_mod.name@ == name
}

impl App {
    /// The state in which the interface starts: the list of installed
    /// mods is open, and the list of mods to install is being loaded.
    pub fn new(factorio_version: String, server_settings: ServerSettings, mods_dir: String) -> (r:
        App)
        ensures
            r.tab == Tab::Manage,
            r.active_block == ActiveBlock::ManageModList,
            r.install_mods@.len() == 0,
            r.install_filter@.len() == 0,
            r.install_selected is None,
            r.manage_mods@.len() == 0,
            r.manage_selected is None,
            r.status_message is None,
            r.factorio_version == factorio_version,
            r.server_settings == server_settings,
            r.mods_dir == mods_dir,
            !r.should_quit,
            !r.show_quit_popup,
            r.loading,
            !r.installing,
    {
        App {
            tab: Tab::Manage,
            active_block: ActiveBlock::ManageModList,
            install_mods: Vec::new(),
            install_filter: String::new(),
            install_selected: None,
            manage_mods: Vec::new(),
            manage_selected: None,
            status_message: None,
            factorio_version,
            server_settings,
            mods_dir,
            should_quit: false,
            show_quit_popup: false,
            loading: true,
            installing: false,
        }
    }

    /// The positions of the mods to install that the filter lets
    /// through.
    pub fn filtered_install_mods(&self) -> (r: Vec<usize>)
        ensures
            r@ == shown_entries(self.install_mods@, self.install_filter@),
    {
        let all = self.install_filter.as_str().unicode_len() == 0;
        let filter = to_lowercase(self.install_filter.as_str());
        let mut out: Vec<usize> = Vec::new();
        let mut i: usize = 0;
        assert(self.install_mods@.take(0) =~= Seq::<ModListEntry>::empty());
        while i < self.install_mods.len()
            invariant
                i <= self.install_mods.len(),
                all == (self.install_filter@.len() == 0),
                filter@ == lowercase(self.install_filter@),
                out@ == shown_entries(self.install_mods@.take(i as int), self.install_filter@),
            decreases self.install_mods.len() - i,
        {
            proof {
                assert(self.install_mods@.take(i + 1).drop_last() =~= self.install_mods@.take(
                    i as int,
                ));
                assert(self.install_mods@.take(i + 1).last() == self.install_mods@[i as int]);
            }
            let shown = if all {
                true
            } else {
                let name = to_lowercase(self.install_mods[i].name.as_str());
                let title = to_lowercase(self.install_mods[i].title.as_str());
                text_contains(name.as_str(), filter.as_str()) || text_contains(
                    title.as_str(),
                    filter.as_str(),
                )
            };
            if shown {
                out.push(i);
            }
            i = i + 1;
        }
        assert(self.install_mods@.take(i as int) =~= self.install_mods@);
        out
    }

    /// Puts up the message `msg` at the second `now`.
    pub fn set_status(&mut self, msg: String, now: u64)
        ensures
            final(self).status_message matches Some(m) && m.text == msg && m.shown_at == now,
            final(self).tab == old(self).tab,
            final(self).active_block == old(self).active_block,
            final(self).install_mods == old(self).install_mods,
            final(self).install_filter == old(self).install_filter,
            final(self).install_selected == old(self).install_selected,
            final(self).manage_mods == old(self).manage_mods,
            final(self).manage_selected == old(self).manage_selected,
            final(self).factorio_version == old(self).factorio_version,
            final(self).server_settings == old(self).server_settings,
            final(self).mods_dir == old(self).mods_dir,
            final(self).should_quit == old(self).should_quit,
            final(self).show_quit_popup == old(self).show_quit_popup,
            final(self).loading == old(self).loading,
            final(self).installing == old(self).installing,
    {
        self.status_message = Some(StatusMessage { text: msg, shown_at: now });
    }

    /// Takes the message down if, at the second `now`, it has been up for
    /// five seconds or more.
    pub fn clear_expired_status(&mut self, now: u64)
        ensures
            final(self).status_message == (match old(self).status_message {
                Some(m) => if now >= m.shown_at && now - m.shown_at >= STATUS_SECONDS {
                    None
                } else {
                    old(self).status_message
                },
                None => None,
            }),
            final(self).tab == old(self).tab,
            final(self).active_block == old(self).active_block,
            final(self).install_mods == old(self).install_mods,
            final(self).install_filter == old(self).install_filter,
            final(self).install_selected == old(self).install_selected,
            final(self).manage_mods == old(self).manage_mods,
            final(self).manage_selected == old(self).manage_selected,
            final(self).factorio_version == old(self).factorio_version,
            final(self).server_settings == old(self).server_settings,
            final(self).mods_dir == old(self).mods_dir,
            final(self).should_quit == old(self).should_quit,
            final(self).show_quit_popup == old(self).show_quit_popup,
            final(self).loading == old(self).loading,
            final(self).installing == old(self).installing,
    {
        let expired = match &self.status_message {
            Some(m) => now >= m.shown_at && now - m.shown_at >= STATUS_SECONDS,
            None => false,
        };
        if expired {
            self.status_message = None;
        }
    }

    /// Whether a mod named `mod_name` is among the installed mods.
    pub fn is_installed(&self, mod_name: &str) -> (r: bool)
        ensures
            r == lists_mod(self.manage_mods@, mod_name@),
    {
        let wanted = String::from_str(mod_name);
        let mut i: usize = 0;
        while i < self.manage_mods.len()
            invariant
                i <= self.manage_mods.len(),
                wanted@ == mod_name@,
                forall|j: int|
                    0 <= j < i ==> (#[trigger] self.manage_mods@[j]).installed_mod.name@
                        != mod_name@,
            decreases self.manage_mods.len() - i,
        {
            if self.manage_mods[i].installed_mod.name == wanted {
                return true;
            }
            i = i + 1;
        }
        false
    }

    /// Collects the positions of the installed mods that are pending, or
    /// of those that are not.
    fn collect_pending(&self, pending: bool, out: &mut Vec<usize>)
        ensures
            final(out)@ == old(out)@ + positions_pending(self.manage_mods@, pending),
    {
        let mut i: usize = 0;
        assert(self.manage_mods@.take(0) =~= Seq::<ManageMod>::empty());
        assert(out@ =~= old(out)@ + positions_pending(self.manage_mods@.take(0), pending));
        while i < self.manage_mods.len()
            invariant
                i <= self.manage_mods.len(),
                out@ == old(out)@ + positions_pending(self.manage_mods@.take(i as int), pending),
            decreases self.manage_mods.len() - i,
        {
            let ghost before = out@;
            proof {
                assert(self.manage_mods@.take(i + 1).drop_last() =~= self.manage_mods@.take(
                    i as int,
                ));
                assert(self.manage_mods@.take(i + 1).last() == self.manage_mods@[i as int]);
            }
            if self.manage_mods[i].pending == pending {
                out.push(i);
                assert(out@ =~= old(out)@ + positions_pending(
                    self.manage_mods@.take(i + 1),
                    pending,
                ));
            }
            i = i + 1;
        }
        assert(self.manage_mods@.take(i as int) =~= self.manage_mods@);
    }

    /// The positions of the installed mods in the order in which they are
    /// listed: the saved mods first, then the pending ones.
    pub fn manage_display_order(&self) -> (r: Vec<usize>)
        ensures
            r@ == display_order(self.manage_mods@),
    {
        let mut order: Vec<usize> = Vec::new();
        self.collect_pending(false, &mut order);
        self.collect_pending(true, &mut order);
        assert(order@ =~= display_order(self.manage_mods@));
        order
    }

    /// Moves the selection one line up in the list that has the focus.
    pub fn move_up(&mut self)
        ensures
            final(self).manage_selected == (if old(self).active_block
                == ActiveBlock::ManageModList {
                selected_above(display_order(old(self).manage_mods@), old(self).manage_selected)
            } else {
                old(self).manage_selected
            }),
            final(self).install_selected == (if old(self).active_block
                == ActiveBlock::InstallModList {
                line_above(old(self).install_selected)
            } else {
                old(self).install_selected
            }),
            final(self).tab == old(self).tab,
            final(self).active_block == old(self).active_block,
            final(self).install_mods == old(self).install_mods,
            final(self).install_filter == old(self).install_filter,
            final(self).manage_mods == old(self).manage_mods,
            final(self).status_message == old(self).status_message,
            final(self).factorio_version == old(self).factorio_version,
            final(self).server_settings == old(self).server_settings,
            final(self).mods_dir == old(self).mods_dir,
            final(self).should_quit == old(self).should_quit,
            final(self).show_quit_popup == old(self).show_quit_popup,
            final(self).loading == old(self).loading,
            final(self).installing == old(self).installing,
    {
        match self.active_block {
            ActiveBlock::ManageModList => {
                let order = self.manage_display_order();
                if let Some(sel) = self.manage_selected {
                    if let Some(pos) = find_place(&order, sel) {
                        if pos > 0 {
                            self.manage_selected = Some(order[pos - 1]);
                        }
                    }
                }
            },
            ActiveBlock::InstallModList => {
                if let Some(sel) = self.install_selected {
                    if sel > 0 {
                        self.install_selected = Some(sel - 1);
                    }
                }
            },
            _ => {},
        }
    }

    /// Moves the selection one line down in the list that has the focus.
    pub fn move_down(&mut self)
        ensures
            final(self).manage_selected == (if old(self).active_block
                == ActiveBlock::ManageModList {
                selected_below(display_order(old(self).manage_mods@), old(self).manage_selected)
            } else {
                old(self).manage_selected
            }),
            final(self).install_selected == (if old(self).active_block
                == ActiveBlock::InstallModList {
                line_below(
                    old(self).install_selected,
                    shown_entries(old(self).install_mods@, old(self).install_filter@).len(),
                )
            } else {
                old(self).install_selected
            }),
            final(self).tab == old(self).tab,
            final(self).active_block == old(self).active_block,
            final(self).install_mods == old(self).install_mods,
            final(self).install_filter == old(self).install_filter,
            final(self).manage_mods == old(self).manage_mods,
            final(self).status_message == old(self).status_message,
            final(self).factorio_version == old(self).factorio_version,
            final(self).server_settings == old(self).server_settings,
            final(self).mods_dir == old(self).mods_dir,
            final(self).should_quit == old(self).should_quit,
            final(self).show_quit_popup == old(self).show_quit_popup,
            final(self).loading == old(self).loading,
            final(self).installing == old(self).installing,
    {
        match self.active_block {
            ActiveBlock::ManageModList => {
                let order = self.manage_display_order();
                if order.len() == 0 {
                    return ;
                }
                match self.manage_selected {
                    Some(sel) => {
                        if let Some(pos) = find_place(&order, sel) {
                            if pos < order.len() - 1 {
                                self.manage_selected = Some(order[pos + 1]);
                            }
                        }
                    },
                    None => {
                        self.manage_selected = Some(order[0]);
                    },
                }
            },
            ActiveBlock::InstallModList => {
                let len = self.filtered_install_mods().len();
                if len > 0 {
                    let sel = match self.install_selected {
                        Some(sel) => sel,
                        None => 0,
                    };
                    if sel < len - 1 {
                        self.install_selected = Some(sel + 1);
                    }
                }
            },
            _ => {},
        }
    }

    /// Opens the tab `tab`, with the focus on its list.
    pub fn select_tab(&mut self, tab: Tab)
        ensures
            final(self).tab == tab,
            final(self).active_block == first_block(tab),
            final(self).install_mods == old(self).install_mods,
            final(self).install_filter == old(self).install_filter,
            final(self).install_selected == old(self).install_selected,
            final(self).manage_mods == old(self).manage_mods,
            final(self).manage_selected == old(self).manage_selected,
            final(self).status_message == old(self).status_message,
            final(self).factorio_version == old(self).factorio_version,
            final(self).server_settings == old(self).server_settings,
            final(self).mods_dir == old(self).mods_dir,
            final(self).should_quit == old(self).should_quit,
            final(self).show_quit_popup == old(self).show_quit_popup,
            final(self).loading == old(self).loading,
            final(self).installing == old(self).installing,
    {
        self.tab = tab;
        match tab {
            Tab::Manage => {
                self.active_block = ActiveBlock::ManageModList;
            },
            Tab::Install => {
                self.active_block = ActiveBlock::InstallModList;
            },
        }
    }
}

} // verus!

//! The list of installed mods, each switched on or off, with one line
//! selected.

use vstd::prelude::*;
use vstd::string::StringExecFns;
use crate::install_mod_list::EnabledListItem;
use crate::installed::InstalledMod;
use crate::list_state::{line_after, line_before, next_line, previous_line, ListState};
use crate::mod_list::{says_enabled, with_enabled, ModEntryView, ModList};

verus! {

/// One installed mod of the list.
#[derive(Debug)]
pub struct ManageModItem {
    pub mod_: InstalledMod,
    pub enabled: bool,
}

/// The installed mods, once they are known, and the line that is
/// selected.
#[derive(Debug)]
pub struct ManageModList {
    pub state: ListState,
    pub items: Option<Vec<ManageModItem>>,
}

/// The position of the first item for the mod `name`.
pub open spec fn item_position(items: Seq<ManageModItem>, name: Seq<char>) -> Option<int>
    decreases items.len(),
{
    if items.len() == 0 {
        None
    } else {
        match item_position(items.drop_last(), name) {
            Some(i) => Some(i),
            None => if items.last().mod_.name@ == name {
                Some(items.len() - 1)
            } else {
                None
            },
        }
    }
}

/// Where an item for the mod `name` ends a prefix of `items` that holds
/// no other item for it, it is the first item for the mod in `items`.
pub proof fn lemma_item_in_prefix(items: Seq<ManageModItem>, len: int, name: Seq<char>)
    requires
        0 < len <= items.len(),
        item_position(items.take(len - 1), name) is None,
        items[len - 1].mod_.name@ == name,
    ensures
        item_position(items, name) == Some(len - 1),
    decreases items.len() - len,
{
    if len == items.len() {
        assert(items.take(len) =~= items);
        assert(items.drop_last() =~= items.take(len - 1));
    } else {
        assert(items.drop_last().take(len - 1) =~= items.take(len - 1));
        lemma_item_in_prefix(items.drop_last(), len, name);
    }
}

/// The list of mods that says of each of `items` whether it is enabled,
/// beside the game itself.
pub open spec fn list_for(items: Seq<ManageModItem>) -> Seq<ModEntryView>
    decreases items.len(),
{
    if items.len() == 0 {
        seq![ModEntryView { name: seq!['b', 'a', 's', 'e'], enabled: true, version: None }]
    } else {
        with_enabled(list_for(items.drop_last()), items.last().mod_.name@, items.last().enabled)
    }
}

impl ManageModList {
    /// The list before the installed mods are known.
    pub fn new() -> (r: ManageModList)
        ensures
            r.items is None,
            r.state == (ListState { offset: 0, selected: None }),
    {
        ManageModList { state: ListState { offset: 0, selected: None }, items: None }
    }

    /// Takes in the installed mods. Each is enabled if `mod_list` says
    /// so.
    pub fn set_items(&mut self, items: Vec<InstalledMod>, mod_list: ModList)
        ensures
            final(self).state == old(self).state,
            final(self).items matches Some(listed) && listed@.len() == items@.len() && forall|
                i: int,
            |
                0 <= i < items@.len() ==> (#[trigger] listed@[i]).mod_ == items@[i]
                    && listed@[i].enabled == says_enabled(mod_list@, items@[i].name@),
    {
        let mut listed: Vec<ManageModItem> = Vec::new();
        let mut rest = items;
        let ghost all = rest@;
        let total = rest.len();
        let mut i: usize = 0;
        while rest.len() > 0
            invariant
                all.len() == total,
                i + rest@.len() == all.len(),
                rest@ == all.skip(i as int),
                listed@.len() == i,
                forall|j: int|
                    0 <= j < i ==> (#[trigger] listed@[j]).mod_ == all[j] && listed@[j].enabled
                        == says_enabled(mod_list@, all[j].name@),
            decreases rest@.len(),
        {
            let mod_ = rest.remove(0);
            assert(mod_ == all[i as int]);
            assert(rest@ =~= all.skip(i + 1));
            let enabled = mod_list.is_enabled(mod_.name.as_str());
            listed.push(ManageModItem { mod_, enabled });
            i = i + 1;
        }
        self.items = Some(listed);
    }

    /// Selects the line after the selected one, the first line after the
    /// last. Nothing changes before the installed mods are known.
    pub fn next(&mut self)
        ensures
            final(self).items == old(self).items,
            final(self).state == (match old(self).items {
                Some(items) => ListState {
                    offset: old(self).state.offset,
                    selected: Some(line_after(old(self).state.selected, items@.len())),
                },
                None => old(self).state,
            }),
    {
        let len = match &self.items {
            Some(items) => items.len(),
            None => {
                return ;
            },
        };
        let i = next_line(self.state.selected(), len);
        self.state.select(Some(i));
    }

    /// Selects the line before the selected one, the last line before
    /// the first. Nothing changes before the installed mods are known.
    pub fn previous(&mut self)
        ensures
            final(self).items == old(self).items,
            final(self).state == (match old(self).items {
                Some(items) => ListState {
                    offset: old(self).state.offset,
                    selected: Some(line_before(old(self).state.selected, items@.len())),
                },
                None => old(self).state,
            }),
    {
        let len = match &self.items {
            Some(items) => items.len(),
            None => {
                return ;
            },
        };
        let i = previous_line(self.state.selected(), len);
        self.state.select(Some(i));
    }

    /// The position of the mod on the selected line. `None` where no
    /// line is selected or the selected line shows no mod.
    pub fn selected_mod(&self) -> (r: Option<usize>)
        ensures
            r == (match (self.items, self.state.selected) {
                (Some(items), Some(line)) => if line < items@.len() {
                    Some(line)
                } else {
                    None
                },
                _ => None,
            }),
    {
        match (&self.items, self.state.selected()) {
            (Some(items), Some(line)) => if line < items.len() {
                Some(line)
            } else {
                None
            },
            _ => None,
        }
    }

    /// Switches the mod on the selected line on or off, and says whether
    /// it is on now. `None`, and no change, where the selected line shows
    /// no mod.
    pub fn toggle_selected(&mut self) -> (r: Option<bool>)
        ensures
            final(self).state == old(self).state,
            match (old(self).items, old(self).state.selected) {
                (Some(items), Some(line)) => if line < items@.len() {
                    r == Some(!items@[line as int].enabled) && (
                    final(self).items matches Some(after) && after@ == items@.update(
                        line as int,
                        ManageModItem { enabled: !items@[line as int].enabled, ..items@[line as int] },
                    ))
                } else {
                    r is None && final(self).items == old(self).items
                },
                _ => r is None && final(self).items == old(self).items,
            },
    {
        let selected = self.selected_mod();
        match selected {
            Some(line) => {
                let taken = self.items.take();
                match taken {
                    Some(items) => {
                        let mut items = items;
                        let item = items.remove(line);
                        let enabled = !item.enabled;
                        items.insert(line, ManageModItem { mod_: item.mod_, enabled });
                        assert(items@ =~= old(self).items.unwrap()@.update(
                            line as int,
                            ManageModItem {
                                enabled: !old(self).items.unwrap()@[line as int].enabled,
                                ..old(self).items.unwrap()@[line as int]
                            },
                        ));
                        self.items = Some(items);
                        Some(enabled)
                    },
                    None => None,
                }
            },
            None => None,
        }
    }

    /// Puts the mod `mod_` at the end of the list.
    pub fn add_mod(&mut self, mod_: InstalledMod, enabled: bool)
        ensures
            final(self).state == old(self).state,
            final(self).items matches Some(after) && after@ == (match old(self).items {
                Some(items) => items@,
                None => Seq::empty(),
            }).push(ManageModItem { mod_, enabled }),
    {
        let taken = self.items.take();
        let mut items = match taken {
            Some(items) => items,
            None => Vec::new(),
        };
        items.push(ManageModItem { mod_, enabled });
        self.items = Some(items);
    }

    /// Finds the first item for the mod `name`.
    fn position(items: &Vec<ManageModItem>, name: &String) -> (r: Option<usize>)
        ensures
            match item_position(items@, name@) {
                Some(i) => r == Some(i as usize) && 0 <= i < items.len(),
                None => r is None,
            },
    {
        let mut k: usize = 0;
        assert(items@.take(0) =~= Seq::<ManageModItem>::empty());
        while k < items.len()
            invariant
                k <= items.len(),
                item_position(items@.take(k as int), name@) is None,
            decreases items.len() - k,
        {
            proof {
                assert(items@.take(k + 1).drop_last() =~= items@.take(k as int));
                assert(items@.take(k + 1).last() == items@[k as int]);
            }
            if items[k].mod_.name == *name {
                proof {
                    lemma_item_in_prefix(items@, k + 1, name@);
                }
                return Some(k);
            }
            k = k + 1;
        }
        assert(items@.take(k as int) =~= items@);
        None
    }

    /// Takes the first item for the mod `mod_name` off the list.
    pub fn remove_mod(&mut self, mod_name: &str)
        ensures
            final(self).state == old(self).state,
            match old(self).items {
                Some(items) => final(self).items matches Some(after) && after@ == (
                match item_position(items@, mod_name@) {
                    Some(i) => items@.remove(i),
                    None => items@,
                }),
                None => final(self).items is None,
            },
    {
        let wanted = String::from_str(mod_name);
        let taken = self.items.take();
        match taken {
            Some(items) => {
                let mut items = items;
                if let Some(i) = Self::position(&items, &wanted) {
                    items.remove(i);
                }
                self.items = Some(items);
            },
            None => {},
        }
    }

    /// The lines to show: for each installed mod its title, marked if the
    /// mod is enabled.
    pub fn items(&self) -> (r: Vec<EnabledListItem>)
        ensures
            match self.items {
                Some(items) => r@.len() == items@.len() && forall|k: int|
                    0 <= k < r@.len() ==> (#[trigger] r@[k]).title@ == items@[k].mod_.title@
                        && r@[k].enabled == items@[k].enabled,
                None => r@.len() == 0,
            },
    {
        let mut out: Vec<EnabledListItem> = Vec::new();
        if let Some(items) = &self.items {
            let mut k: usize = 0;
            while k < items.len()
                invariant
                    k <= items.len(),
                    out@.len() == k,
                    forall|j: int|
                        0 <= j < k ==> (#[trigger] out@[j]).title@ == items@[j].mod_.title@
                            && out@[j].enabled == items@[j].enabled,
                decreases items.len() - k,
            {
                out.push(
                    EnabledListItem { title: items[k].mod_.title.clone(), enabled: items[k].enabled },
                );
                k = k + 1;
            }
        }
        out
    }

    /// The list of mods to write for the game: the game itself, enabled,
    /// and each installed mod as it is switched.
    pub fn generate_mod_list(&self) -> (r: ModList)
        ensures
            r@ == list_for(
                match self.items {
                    Some(items) => items@,
                    None => Seq::empty(),
                },
            ),
    {
        let mut list = ModList::new();
        if let Some(items) = &self.items {
            let mut k: usize = 0;
            assert(items@.take(0) =~= Seq::<ManageModItem>::empty());
            while k < items.len()
                invariant
                    k <= items.len(),
                    list@ == list_for(items@.take(k as int)),
                decreases items.len() - k,
            {
                proof {
                    assert(items@.take(k + 1).drop_last() =~= items@.take(k as int));
                    assert(items@.take(k + 1).last() == items@[k as int]);
                }
                list.set_enabled(items[k].mod_.name.as_str(), items[k].enabled);
                k = k + 1;
            }
            assert(items@.take(k as int) =~= items@);
        }
        list
    }
}

} // verus!

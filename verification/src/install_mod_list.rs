//! The list of mods that can be installed, narrowed by what the user
//! types into the search field.

use vstd::prelude::*;
use vstd::string::StringExecFns;
use crate::list_state::{line_after, line_before, next_line, previous_line, ListState};
use crate::registry::ModIdentifier;
use crate::text::{contains_text, lowercase, text_contains, to_lowercase};

verus! {

/// How far the download of a mod has come.
#[derive(Debug)]
pub struct DownloadInfo {
    pub downloaded: bool,
    pub downloading: bool,
    pub download_perc: u16,
    pub versions: Vec<String>,
}

impl Default for DownloadInfo {
    fn default() -> (r: DownloadInfo)
        ensures
            !r.downloaded,
            !r.downloading,
            r.download_perc == 0,
            r.versions@.len() == 0,
    {
        DownloadInfo { downloaded: false, downloading: false, download_perc: 0, versions: Vec::new() }
    }
}

/// One mod of the list.
#[derive(Debug)]
pub struct InstallModItem {
    pub mod_identifier: ModIdentifier,
    pub download_info: DownloadInfo,
    pub loading: bool,
}

/// One line of a list on the screen: a title, marked if `enabled`.
#[derive(Debug)]
pub struct EnabledListItem {
    pub title: String,
    pub enabled: bool,
}

/// The mods that can be installed, the text that narrows them, and the
/// line that is selected among those that are shown.
#[derive(Debug)]
pub struct InstallModList {
    pub state: ListState,
    pub filter: String,
    pub items: Vec<InstallModItem>,
}

impl InstallModItem {
    /// The item for a mod of which nothing is downloaded yet.
    pub fn new(mod_identifier: ModIdentifier) -> (r: InstallModItem)
        ensures
            r.mod_identifier == mod_identifier,
            !r.loading,
            !r.download_info.downloaded,
            !r.download_info.downloading,
            r.download_info.download_perc == 0,
            r.download_info.versions@.len() == 0,
    {
        InstallModItem { mod_identifier, loading: false, download_info: DownloadInfo::default() }
    }
}

/// Whether a mod is shown under a filter, given its name, its title and
/// the filter, all in lower case: the filter occurs in the name or in
/// the title.
pub open spec fn shows(name: Seq<char>, title: Seq<char>, filter: Seq<char>) -> bool {
    contains_text(name, filter) || contains_text(title, filter)
}

/// Whether the item `item` is shown under the filter `filter`, whatever
/// the case of the letters.
pub open spec fn item_shown(item: InstallModItem, filter: Seq<char>) -> bool {
    shows(
        lowercase(item.mod_identifier.name@),
        lowercase(item.mod_identifier.title@),
        lowercase(filter),
    )
}

/// The positions of the items that are shown under `filter`, in order.
pub open spec fn shown_positions(items: Seq<InstallModItem>, filter: Seq<char>) -> Seq<usize>
    decreases items.len(),
{
    if items.len() == 0 {
        Seq::empty()
    } else {
        let before = shown_positions(items.drop_last(), filter);
        if item_shown(items.last(), filter) {
            before.push((items.len() - 1) as usize)
        } else {
            before
        }
    }
}

/// The positions that are shown are positions of the list, in rising
/// order, and they are those of the items that the filter lets through.
pub proof fn lemma_shown_positions(items: Seq<InstallModItem>, filter: Seq<char>)
    requires
        items.len() <= usize::MAX,
    ensures
        shown_positions(items, filter).len() <= items.len(),
        forall|k: int|
            0 <= k < shown_positions(items, filter).len() ==> (#[trigger] shown_positions(
                items,
                filter,
            )[k]) < items.len() && item_shown(
                items[shown_positions(items, filter)[k] as int],
                filter,
            ),
        forall|k: int, l: int|
            0 <= k < l < shown_positions(items, filter).len() ==> shown_positions(items, filter)[k]
                < shown_positions(items, filter)[l],
        forall|i: int|
            0 <= i < items.len() && item_shown(#[trigger] items[i], filter) ==> shown_positions(
                items,
                filter,
            ).contains(i as usize),
    decreases items.len(),
{
    if items.len() > 0 {
        let init = items.drop_last();
        lemma_shown_positions(init, filter);
        let all = shown_positions(items, filter);
        let before = shown_positions(init, filter);
        assert(forall|i: int| 0 <= i < init.len() ==> init[i] == items[i]);
        assert(forall|k: int| 0 <= k < before.len() ==> all[k] == before[k]);
        assert forall|k: int| 0 <= k < all.len() implies (#[trigger] all[k]) < items.len()
            && item_shown(items[all[k] as int], filter) by {
            if k < before.len() {
                assert(before[k] < init.len());
                assert(item_shown(init[before[k] as int], filter));
            }
        }
        assert forall|k: int, l: int| 0 <= k < l < all.len() implies all[k] < all[l] by {
            if l < before.len() {
                assert(before[k] < before[l]);
            } else {
                assert(before[k] < init.len());
            }
        }
        assert forall|i: int|
            0 <= i < items.len() && item_shown(#[trigger] items[i], filter) implies all.contains(
            i as usize,
        ) by {
            if i < init.len() {
                assert(item_shown(init[i], filter));
                let k = choose|k: int| 0 <= k < before.len() && before[k] == i as usize;
                assert(all[k] == i as usize);
            } else {
                assert(all[all.len() - 1] == i as usize);
            }
        }
    }
}

/// Whether a mod is shown under a filter, given its name, its title and
/// the filter, all in lower case.
pub fn passes_filter(name: &str, title: &str, filter: &str) -> (r: bool)
    ensures
        r == shows(name@, title@, filter@),
{
    text_contains(name, filter) || text_contains(title, filter)
}

/// The position of the first item for the mod `name`.
pub open spec fn first_named(items: Seq<InstallModItem>, name: Seq<char>) -> Option<int>
    decreases items.len(),
{
    if items.len() == 0 {
        None
    } else {
        match first_named(items.drop_last(), name) {
            Some(i) => Some(i),
            None => if items.last().mod_identifier.name@ == name {
                Some(items.len() - 1)
            } else {
                None
            },
        }
    }
}

/// `items` with the item for the mod `name` marked as downloaded or not.
/// Where no item is for that mod, `items` as it is.
pub open spec fn with_downloaded(
    items: Seq<InstallModItem>,
    name: Seq<char>,
    downloaded: bool,
) -> Seq<InstallModItem> {
    match first_named(items, name) {
        Some(i) => items.update(
            i,
            InstallModItem {
                download_info: DownloadInfo { downloaded, ..items[i].download_info },
                ..items[i]
            },
        ),
        None => items,
    }
}

impl InstallModList {
    /// The list with no mods in it.
    pub fn new() -> (r: InstallModList)
        ensures
            r.items@.len() == 0,
            r.filter@.len() == 0,
            r.state == (ListState { offset: 0, selected: None }),
    {
        InstallModList {
            state: ListState { offset: 0, selected: None },
            filter: String::new(),
            items: Vec::new(),
        }
    }

    /// Puts `items` in the place of the mods of the list.
    pub fn set_items(&mut self, items: Vec<InstallModItem>)
        ensures
            final(self).items == items,
            final(self).state == old(self).state,
            final(self).filter == old(self).filter,
    {
        self.items = items;
    }

    /// Whether the mods of the list are there.
    pub fn is_ready(&self) -> (r: bool)
        ensures
            r == (self.items@.len() > 0),
    {
        self.items.len() > 0
    }

    /// Selects no line.
    pub fn reset_selected(&mut self)
        ensures
            final(self).state == (ListState { offset: 0, selected: None }),
            final(self).items == old(self).items,
            final(self).filter == old(self).filter,
    {
        self.state.select(None);
    }

    /// The positions of the mods that the filter lets through.
    pub fn filtered_items(&self) -> (r: Vec<usize>)
        ensures
            r@ == shown_positions(self.items@, self.filter@),
    {
        let filter = to_lowercase(self.filter.as_str());
        let mut out: Vec<usize> = Vec::new();
        let mut i: usize = 0;
        assert(self.items@.take(0) =~= Seq::<InstallModItem>::empty());
        while i < self.items.len()
            invariant
                i <= self.items.len(),
                filter@ == lowercase(self.filter@),
                out@ == shown_positions(self.items@.take(i as int), self.filter@),
            decreases self.items.len() - i,
        {
            proof {
                assert(self.items@.take(i + 1).drop_last() =~= self.items@.take(i as int));
                assert(self.items@.take(i + 1).last() == self.items@[i as int]);
            }
            let name = to_lowercase(self.items[i].mod_identifier.name.as_str());
            let title = to_lowercase(self.items[i].mod_identifier.title.as_str());
            if passes_filter(name.as_str(), title.as_str(), filter.as_str()) {
                out.push(i);
            }
            i = i + 1;
        }
        assert(self.items@.take(i as int) =~= self.items@);
        out
    }

    /// Selects the line after the selected one among the mods that are
    /// shown, the first line after the last. Nothing changes where no mod
    /// is shown.
    pub fn next(&mut self)
        ensures
            final(self).items == old(self).items,
            final(self).filter == old(self).filter,
            final(self).state == (if shown_positions(old(self).items@, old(self).filter@).len()
                == 0 {
                old(self).state
            } else {
                ListState {
                    offset: old(self).state.offset,
                    selected: Some(
                        line_after(
                            old(self).state.selected,
                            shown_positions(old(self).items@, old(self).filter@).len(),
                        ),
                    ),
                }
            }),
    {
        let shown = self.filtered_items().len();
        if shown == 0 {
            return ;
        }
        let i = next_line(self.state.selected(), shown);
        self.state.select(Some(i));
    }

    /// Selects the line before the selected one among the mods that are
    /// shown, the last line before the first. Nothing changes where no
    /// mod is shown.
    pub fn previous(&mut self)
        ensures
            final(self).items == old(self).items,
            final(self).filter == old(self).filter,
            final(self).state == (if shown_positions(old(self).items@, old(self).filter@).len()
                == 0 {
                old(self).state
            } else {
                ListState {
                    offset: old(self).state.offset,
                    selected: Some(
                        line_before(
                            old(self).state.selected,
                            shown_positions(old(self).items@, old(self).filter@).len(),
                        ),
                    ),
                }
            }),
    {
        let shown = self.filtered_items().len();
        if shown == 0 {
            return ;
        }
        let i = previous_line(self.state.selected(), shown);
        self.state.select(Some(i));
    }

    /// The position in the list of the mod on the selected line. `None`
    /// where no line is selected or the selected line shows no mod.
    pub fn selected_mod(&self) -> (r: Option<usize>)
        ensures
            r == (match self.state.selected {
                Some(line) => if line < shown_positions(self.items@, self.filter@).len() {
                    Some(shown_positions(self.items@, self.filter@)[line as int])
                } else {
                    None
                },
                None => None,
            }),
            r matches Some(i) ==> i < self.items@.len(),
    {
        let count = self.items.len();
        proof {
            assert(self.items@.len() == count);
            lemma_shown_positions(self.items@, self.filter@);
        }
        let shown = self.filtered_items();
        match self.state.selected() {
            Some(line) => if line < shown.len() {
                Some(shown[line])
            } else {
                None
            },
            None => None,
        }
    }

    /// Finds the first item for the mod `mod_name`.
    fn position(&self, mod_name: &str) -> (r: Option<usize>)
        ensures
            match first_named(self.items@, mod_name@) {
                Some(i) => r == Some(i as usize) && 0 <= i < self.items.len(),
                None => r is None,
            },
    {
        let wanted = String::from_str(mod_name);
        let mut k: usize = 0;
        assert(self.items@.take(0) =~= Seq::<InstallModItem>::empty());
        while k < self.items.len()
            invariant
                k <= self.items.len(),
                wanted@ == mod_name@,
                first_named(self.items@.take(k as int), mod_name@) is None,
            decreases self.items.len() - k,
        {
            proof {
                assert(self.items@.take(k + 1).drop_last() =~= self.items@.take(k as int));
                assert(self.items@.take(k + 1).last() == self.items@[k as int]);
            }
            if self.items[k].mod_identifier.name == wanted {
                proof {
                    lemma_first_named_prefix(self.items@, k + 1, mod_name@);
                }
                return Some(k);
            }
            k = k + 1;
        }
        assert(self.items@.take(k as int) =~= self.items@);
        None
    }

    /// Marks the mod `mod_name` as downloaded or not.
    fn mark(&mut self, mod_name: &str, downloaded: bool)
        ensures
            final(self).items@ == with_downloaded(old(self).items@, mod_name@, downloaded),
            final(self).state == old(self).state,
            final(self).filter == old(self).filter,
    {
        match self.position(mod_name) {
            Some(i) => {
                let item = self.items.remove(i);
                let marked = InstallModItem {
                    mod_identifier: item.mod_identifier,
                    download_info: DownloadInfo {
                        downloaded,
                        downloading: item.download_info.downloading,
                        download_perc: item.download_info.download_perc,
                        versions: item.download_info.versions,
                    },
                    loading: item.loading,
                };
                self.items.insert(i, marked);
                assert(self.items@ =~= with_downloaded(old(self).items@, mod_name@, downloaded));
            },
            None => {},
        }
    }

    /// Notes that the mod `mod_name` is no longer downloaded.
    pub fn disable_mod(&mut self, mod_name: &str)
        ensures
            final(self).items@ == with_downloaded(old(self).items@, mod_name@, false),
            final(self).state == old(self).state,
            final(self).filter == old(self).filter,
    {
        self.mark(mod_name, false);
    }

    /// Notes that the mod `mod_name` is downloaded.
    pub fn enable_mod(&mut self, mod_name: &str)
        ensures
            final(self).items@ == with_downloaded(old(self).items@, mod_name@, true),
            final(self).state == old(self).state,
            final(self).filter == old(self).filter,
    {
        self.mark(mod_name, true);
    }

    /// The lines to show: for each mod that the filter lets through, its
    /// title, marked if the mod is downloaded.
    pub fn items(&self) -> (r: Vec<EnabledListItem>)
        ensures
            r@.len() == shown_positions(self.items@, self.filter@).len(),
            forall|k: int|
                0 <= k < r@.len() ==> {
                    let item = self.items@[shown_positions(self.items@, self.filter@)[k] as int];
                    (#[trigger] r@[k]).title@ == item.mod_identifier.title@ && r@[k].enabled
                        == item.download_info.downloaded
                },
    {
        let count = self.items.len();
        proof {
            assert(self.items@.len() == count);
            lemma_shown_positions(self.items@, self.filter@);
        }
        let shown = self.filtered_items();
        let mut out: Vec<EnabledListItem> = Vec::new();
        let mut k: usize = 0;
        while k < shown.len()
            invariant
                k <= shown.len(),
                shown@ == shown_positions(self.items@, self.filter@),
                forall|j: int| 0 <= j < shown@.len() ==> (#[trigger] shown@[j]) < self.items@.len(),
                out@.len() == k,
                forall|j: int|
                    0 <= j < k ==> {
                        let item = self.items@[shown@[j] as int];
                        (#[trigger] out@[j]).title@ == item.mod_identifier.title@ && out@[j].enabled
                            == item.download_info.downloaded
                    },
            decreases shown.len() - k,
        {
            let item = &self.items[shown[k]];
            out.push(
                EnabledListItem {
                    title: item.mod_identifier.title.clone(),
                    enabled: item.download_info.downloaded,
                },
            );
            k = k + 1;
        }
        out
    }
}

/// Where an item for the mod `name` ends a prefix of `items` that holds
/// no other item for it, it is the first item for the mod in `items`.
pub proof fn lemma_first_named_prefix(items: Seq<InstallModItem>, len: int, name: Seq<char>)
    requires
        0 < len <= items.len(),
        first_named(items.take(len - 1), name) is None,
        items[len - 1].mod_identifier.name@ == name,
    ensures
        first_named(items, name) == Some(len - 1),
    decreases items.len() - len,
{
    if len == items.len() {
        assert(items.take(len) =~= items);
        assert(items.drop_last() =~= items.take(len - 1));
    } else {
        assert(items.drop_last().take(len - 1) =~= items.take(len - 1));
        lemma_first_named_prefix(items.drop_last(), len, name);
    }
}

} // verus!

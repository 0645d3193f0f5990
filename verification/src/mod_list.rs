//! The game's list of mods, with the version that each is pinned to.

use vstd::prelude::*;
use vstd::string::StringExecFns;

verus! {

/// One mod of the list.
#[derive(Debug)]
pub struct ModEntry {
    pub name: String,
    pub enabled: bool,
    pub version: Option<String>,
}

/// An entry as contracts speak of it.
pub struct ModEntryView {
    pub name: Seq<char>,
    pub enabled: bool,
    pub version: Option<Seq<char>>,
}

impl View for ModEntry {
    type V = ModEntryView;

    open spec fn view(&self) -> ModEntryView {
        ModEntryView {
            name: self.name@,
            enabled: self.enabled,
            version: match self.version {
                Some(v) => Some(v@),
                None => None,
            },
        }
    }
}

impl Clone for ModEntry {
    fn clone(&self) -> (r: ModEntry)
        ensures
            r@ == self@,
    {
        ModEntry {
            name: self.name.clone(),
            enabled: self.enabled,
            version: match &self.version {
                Some(v) => Some(v.clone()),
                None => None,
            },
        }
    }
}

/// The list of mods as the game keeps it.
#[derive(Debug)]
pub struct ModList {
    pub mods: Vec<ModEntry>,
}

/// The views of a sequence of entries.
pub open spec fn entry_views(mods: Seq<ModEntry>) -> Seq<ModEntryView> {
    mods.map_values(|e: ModEntry| e@)
}

/// The position of the first entry for the mod `name`.
pub open spec fn entry_position(mods: Seq<ModEntryView>, name: Seq<char>) -> Option<int>
    decreases mods.len(),
{
    if mods.len() == 0 {
        None
    } else {
        match entry_position(mods.drop_last(), name) {
            Some(i) => Some(i),
            None => if mods.last().name == name {
                Some(mods.len() - 1)
            } else {
                None
            },
        }
    }
}

/// `entry_position` finds the first entry of the name, and none only
/// where there is none.
pub proof fn lemma_entry_position(mods: Seq<ModEntryView>, name: Seq<char>)
    ensures
        match entry_position(mods, name) {
            Some(i) => 0 <= i < mods.len() && mods[i].name == name && forall|j: int|
                0 <= j < i ==> (#[trigger] mods[j]).name != name,
            None => forall|j: int| 0 <= j < mods.len() ==> (#[trigger] mods[j]).name != name,
        },
    decreases mods.len(),
{
    if mods.len() > 0 {
        lemma_entry_position(mods.drop_last(), name);
        assert(forall|j: int| 0 <= j < mods.len() - 1 ==> mods.drop_last()[j] == mods[j]);
    }
}

/// Whether the list `mods` says that the mod `name` is enabled.
pub open spec fn says_enabled(mods: Seq<ModEntryView>, name: Seq<char>) -> bool {
    match entry_position(mods, name) {
        Some(i) => mods[i].enabled,
        None => false,
    }
}

/// The list `mods` once the mod `name` is set to `enabled`: its entry is
/// changed, or a new entry without version is put at the end.
pub open spec fn with_enabled(mods: Seq<ModEntryView>, name: Seq<char>, enabled: bool) -> Seq<
    ModEntryView,
> {
    match entry_position(mods, name) {
        Some(i) => mods.update(i, ModEntryView { enabled, ..mods[i] }),
        None => mods.push(ModEntryView { name, enabled, version: None }),
    }
}

impl View for ModList {
    type V = Seq<ModEntryView>;

    open spec fn view(&self) -> Seq<ModEntryView> {
        entry_views(self.mods@)
    }
}

impl ModList {
    /// The list of a fresh installation: the game itself, enabled.
    pub fn new() -> (r: ModList)
        ensures
            r@ == seq![
                ModEntryView { name: seq!['b', 'a', 's', 'e'], enabled: true, version: None },
            ],
    {
        proof {
            reveal_strlit("base");
        }
        let mut mods: Vec<ModEntry> = Vec::new();
        mods.push(ModEntry { name: String::from_str("base"), enabled: true, version: None });
        let r = ModList { mods };
        assert(r@[0].name =~= seq!['b', 'a', 's', 'e']);
        assert(r@ =~= seq![
            ModEntryView { name: seq!['b', 'a', 's', 'e'], enabled: true, version: None },
        ]);
        r
    }

    /// Where the first entry for the mod `name` stands.
    fn position(&self, name: &String) -> (r: Option<usize>)
        ensures
            match entry_position(self@, name@) {
                Some(i) => r == Some(i as usize) && 0 <= i < self.mods.len(),
                None => r is None,
            },
    {
        let mut k: usize = 0;
        assert(self@.take(0) =~= Seq::<ModEntryView>::empty());
        while k < self.mods.len()
            invariant
                k <= self.mods.len(),
                entry_position(self@.take(k as int), name@) is None,
            decreases self.mods.len() - k,
        {
            proof {
                assert(self@.take(k + 1).drop_last() =~= self@.take(k as int));
                assert(self@.take(k + 1).last() == self@[k as int]);
            }
            if self.mods[k].name == *name {
                proof {
                    lemma_position_in_prefix(self@, k + 1, name@);
                }
                return Some(k);
            }
            k = k + 1;
        }
        assert(self@.take(k as int) =~= self@);
        None
    }

    /// Whether the list says that the mod `name` is enabled. A mod that
    /// is not on the list is not.
    pub fn is_enabled(&self, name: &str) -> (r: bool)
        ensures
            r == says_enabled(self@, name@),
    {
        let wanted = String::from_str(name);
        match self.position(&wanted) {
            Some(i) => self.mods[i].enabled,
            None => false,
        }
    }

    /// Sets whether the mod `name` is enabled, and puts the mod on the
    /// list if it is not there.
    pub fn set_enabled(&mut self, name: &str, enabled: bool)
        ensures
            final(self)@ == with_enabled(old(self)@, name@, enabled),
    {
        let wanted = String::from_str(name);
        match self.position(&wanted) {
            Some(i) => {
                let entry = self.mods.remove(i);
                self.mods.insert(
                    i,
                    ModEntry { name: entry.name, enabled, version: entry.version },
                );
                assert(self@ =~= with_enabled(old(self)@, name@, enabled));
            },
            None => {
                self.mods.push(ModEntry { name: wanted, enabled, version: None });
                assert(self@ =~= with_enabled(old(self)@, name@, enabled));
            },
        }
    }
}

/// Where an entry for the mod `name` ends a prefix of `mods` that holds
/// no other entry for it, it is the first entry for the mod in `mods`.
pub proof fn lemma_position_in_prefix(mods: Seq<ModEntryView>, len: int, name: Seq<char>)
    requires
        0 < len <= mods.len(),
        entry_position(mods.take(len - 1), name) is None,
        mods[len - 1].name == name,
    ensures
        entry_position(mods, name) == Some(len - 1),
    decreases mods.len() - len,
{
    if len == mods.len() {
        assert(mods.take(len) =~= mods);
        assert(mods.drop_last() =~= mods.take(len - 1));
    } else {
        assert(mods.drop_last().take(len - 1) =~= mods.take(len - 1));
        lemma_position_in_prefix(mods.drop_last(), len, name);
    }
}

/// What was set is what is read: after a mod is set to `enabled`, the
/// list says so of it, and says of every other mod what it said before.
pub proof fn lemma_set_then_read(
    mods: Seq<ModEntryView>,
    name: Seq<char>,
    enabled: bool,
    other: Seq<char>,
)
    ensures
        says_enabled(with_enabled(mods, name, enabled), name) == enabled,
        other != name ==> says_enabled(with_enabled(mods, name, enabled), other) == says_enabled(
            mods,
            other,
        ),
{
    let after = with_enabled(mods, name, enabled);
    lemma_entry_position(mods, name);
    lemma_entry_position(mods, other);
    lemma_entry_position(after, name);
    lemma_entry_position(after, other);
    match entry_position(mods, name) {
        Some(i) => {
            assert(forall|j: int| 0 <= j < mods.len() ==> after[j].name == mods[j].name);
            assert(after[i].name == name);
            if let Some(k) = entry_position(after, name) {
                if k < i {
                    assert(mods[k].name != name);
                }
            }
            if other != name {
                match entry_position(mods, other) {
                    Some(o) => {
                        assert(after[o].name == other);
                        let k = entry_position(after, other).unwrap();
                        if k < o {
                            assert(mods[k].name != other);
                        } else if o < k {
                            assert(after[o].name != other);
                        }
                    },
                    None => {
                        if let Some(k) = entry_position(after, other) {
                            assert(mods[k].name != other);
                        }
                    },
                }
            }
        },
        None => {
            let last = mods.len() as int;
            assert(forall|j: int| 0 <= j < mods.len() ==> after[j] == mods[j]);
            assert(after[last].name == name);
            if let Some(k) = entry_position(after, name) {
                if k < last {
                    assert(mods[k].name != name);
                }
            }
            if other != name {
                match entry_position(mods, other) {
                    Some(o) => {
                        assert(after[o].name == other);
                        let k = entry_position(after, other).unwrap();
                        if k < o {
                            assert(mods[k].name != other);
                        } else if o < k {
                            assert(after[o].name != other);
                        }
                    },
                    None => {
                        if let Some(k) = entry_position(after, other) {
                            if k < last {
                                assert(mods[k].name != other);
                            }
                        }
                    },
                }
            }
        },
    }
}

} // verus!

//! The list that says which mods the game is to load.

use vstd::prelude::*;
use vstd::string::StringExecFns;

verus! {

/// One mod of the list, loaded by the game if `enabled`.
#[derive(Debug)]
pub struct ModConfig {
    pub name: String,
    pub enabled: bool,
}

/// The mods of the list and the file that the list is kept in.
#[derive(Debug)]
pub struct ModsConfig {
    mods: Vec<ModConfig>,
    file_path: String,
}

/// Whether `name` stands at position `i` of `mods`.
pub open spec fn named_at(mods: Seq<ModConfig>, i: int, name: Seq<char>) -> bool {
    0 <= i < mods.len() && mods[i].name@ == name
}

/// No name occurs twice in `mods`.
pub open spec fn distinct_names(mods: Seq<ModConfig>) -> bool {
    forall|i: int, j: int|
        0 <= i < j < mods.len() ==> (#[trigger] mods[i]).name@ != (#[trigger] mods[j]).name@
}

/// For each mod of `mods`, whether it is enabled.
pub open spec fn enabled_map(mods: Seq<ModConfig>) -> Map<Seq<char>, bool> {
    Map::new(
        |name: Seq<char>| exists|i: int| named_at(mods, i, name),
        |name: Seq<char>| mods[choose|i: int| named_at(mods, i, name)].enabled,
    )
}

/// In a list without repeated names, the mod at position `i` is enabled
/// exactly if the map says so of its name.
pub proof fn lemma_enabled_at(mods: Seq<ModConfig>, i: int)
    requires
        distinct_names(mods),
        0 <= i < mods.len(),
    ensures
        enabled_map(mods).contains_key(mods[i].name@),
        enabled_map(mods)[mods[i].name@] == mods[i].enabled,
{
    let name = mods[i].name@;
    assert(named_at(mods, i, name));
    let k = choose|k: int| named_at(mods, k, name);
    assert(named_at(mods, k, name));
    if k < i {
        assert(mods[k].name@ != mods[i].name@);
    } else if i < k {
        assert(mods[i].name@ != mods[k].name@);
    }
}

impl View for ModsConfig {
    type V = Map<Seq<char>, bool>;

    closed spec fn view(&self) -> Map<Seq<char>, bool> {
        enabled_map(self.mods@)
    }
}

impl ModsConfig {
    /// Whether the list is in order: no mod stands in it twice.
    pub closed spec fn wf(&self) -> bool {
        distinct_names(self.mods@)
    }

    /// The file that the list is kept in.
    pub closed spec fn spec_file_path(&self) -> Seq<char> {
        self.file_path@
    }

    /// The file that the list is kept in.
    pub fn file_path(&self) -> (r: &str)
        ensures
            r@ == self.spec_file_path(),
    {
        self.file_path.as_str()
    }

    /// The mods of the list: each mod once, with whether it is enabled.
    pub fn entries(&self) -> (r: Vec<ModConfig>)
        requires
            self.wf(),
        ensures
            distinct_names(r@),
            enabled_map(r@) == self@,
    {
        let mut out: Vec<ModConfig> = Vec::new();
        let mut i: usize = 0;
        while i < self.mods.len()
            invariant
                i <= self.mods.len(),
                out.len() == i,
                forall|j: int|
                    0 <= j < i ==> (#[trigger] out@[j]).name@ == self.mods@[j].name@ && out@[j].enabled
                        == self.mods@[j].enabled,
            decreases self.mods.len() - i,
        {
            out.push(ModConfig { name: self.mods[i].name.clone(), enabled: self.mods[i].enabled });
            i = i + 1;
        }
        proof {
            let a = out@;
            let b = self.mods@;
            assert(distinct_names(a)) by {
                assert forall|i: int, j: int| 0 <= i < j < a.len() implies (#[trigger] a[i]).name@
                    != (#[trigger] a[j]).name@ by {
                    assert(b[i].name@ != b[j].name@);
                }
            }
            assert forall|n: Seq<char>| enabled_map(a).contains_key(n) == enabled_map(
                b,
            ).contains_key(n) by {
                if exists|i: int| named_at(a, i, n) {
                    let i = choose|i: int| named_at(a, i, n);
                    assert(named_at(b, i, n));
                }
                if exists|i: int| named_at(b, i, n) {
                    let i = choose|i: int| named_at(b, i, n);
                    assert(named_at(a, i, n));
                }
            }
            assert forall|n: Seq<char>| enabled_map(a).contains_key(n) implies (
            #[trigger] enabled_map(a)[n]) == enabled_map(b)[n] by {
                let i = choose|i: int| named_at(a, i, n);
                lemma_enabled_at(a, i);
                assert(named_at(b, i, n));
                lemma_enabled_at(b, i);
            }
            assert(enabled_map(a) =~= enabled_map(b));
        }
        out
    }

    /// The empty list, to be kept in the file `file_path`.
    pub fn new(file_path: &str) -> (r: ModsConfig)
        ensures
            r.wf(),
            r@ == Map::<Seq<char>, bool>::empty(),
            r.spec_file_path() == file_path@,
    {
        let r = ModsConfig { mods: Vec::new(), file_path: String::from_str(file_path) };
        assert(r@ =~= Map::<Seq<char>, bool>::empty());
        r
    }

    /// Where the mod `name` stands in the list.
    fn position(&self, name: &String) -> (r: Option<usize>)
        ensures
            match r {
                Some(i) => named_at(self.mods@, i as int, name@),
                None => forall|i: int| !named_at(self.mods@, i, name@),
            },
    {
        let mut i: usize = 0;
        while i < self.mods.len()
            invariant
                i <= self.mods.len(),
                forall|j: int| 0 <= j < i ==> !named_at(self.mods@, j, name@),
            decreases self.mods.len() - i,
        {
            if self.mods[i].name == *name {
                return Some(i);
            }
            i = i + 1;
        }
        None
    }

    /// Sets whether the mod `name` is enabled, and puts the mod on the
    /// list if it is not there.
    pub fn set_mod_enabled(&mut self, name: &str, enabled: bool)
        requires
            old(self).wf(),
        ensures
            final(self).wf(),
            final(self)@ == old(self)@.insert(name@, enabled),
            final(self).spec_file_path() == old(self).spec_file_path(),
    {
        let wanted = String::from_str(name);
        let ghost before = self.mods@;
        match self.position(&wanted) {
            Some(k) => {
                let entry = ModConfig { name: wanted, enabled };
                self.mods.set(k, entry);
                proof {
                    let after = self.mods@;
                    assert(forall|i: int| 0 <= i < after.len() ==> after[i].name@ == before[i].name@);
                    assert(distinct_names(after)) by {
                        assert forall|i: int, j: int| 0 <= i < j < after.len() implies (
                        #[trigger] after[i]).name@ != (#[trigger] after[j]).name@ by {
                            assert(before[i].name@ != before[j].name@);
                        }
                    }
                    assert forall|n: Seq<char>|
                        enabled_map(after).contains_key(n) == enabled_map(before).insert(
                            name@,
                            enabled,
                        ).contains_key(n) by {
                        if exists|i: int| named_at(after, i, n) {
                            let i = choose|i: int| named_at(after, i, n);
                            assert(named_at(before, i, n));
                        }
                        if exists|i: int| named_at(before, i, n) {
                            let i = choose|i: int| named_at(before, i, n);
                            assert(named_at(after, i, n));
                        }
                        if n == name@ {
                            assert(named_at(after, k as int, n));
                        }
                    }
                    assert forall|n: Seq<char>| enabled_map(after).contains_key(n) implies (
                    #[trigger] enabled_map(after)[n]) == enabled_map(before).insert(
                        name@,
                        enabled,
                    )[n] by {
                        let i = choose|i: int| named_at(after, i, n);
                        lemma_enabled_at(after, i);
                        if n != name@ {
                            assert(named_at(before, i, n));
                            lemma_enabled_at(before, i);
                        } else {
                            lemma_enabled_at(after, k as int);
                        }
                    }
                    assert(enabled_map(after) =~= enabled_map(before).insert(name@, enabled));
                }
            },
            None => {
                self.mods.push(ModConfig { name: wanted, enabled });
                proof {
                    let after = self.mods@;
                    let last = before.len() as int;
                    assert(forall|i: int| 0 <= i < before.len() ==> after[i] == before[i]);
                    assert(distinct_names(after)) by {
                        assert forall|i: int, j: int| 0 <= i < j < after.len() implies (
                        #[trigger] after[i]).name@ != (#[trigger] after[j]).name@ by {
                            if j == last {
                                assert(!named_at(before, i, name@));
                            } else {
                                assert(before[i].name@ != before[j].name@);
                            }
                        }
                    }
                    assert forall|n: Seq<char>|
                        enabled_map(after).contains_key(n) == enabled_map(before).insert(
                            name@,
                            enabled,
                        ).contains_key(n) by {
                        if exists|i: int| named_at(after, i, n) {
                            let i = choose|i: int| named_at(after, i, n);
                            if i < last {
                                assert(named_at(before, i, n));
                            }
                        }
                        if exists|i: int| named_at(before, i, n) {
                            let i = choose|i: int| named_at(before, i, n);
                            assert(named_at(after, i, n));
                        }
                        if n == name@ {
                            assert(named_at(after, last, n));
                        }
                    }
                    assert forall|n: Seq<char>| enabled_map(after).contains_key(n) implies (
                    #[trigger] enabled_map(after)[n]) == enabled_map(before).insert(
                        name@,
                        enabled,
                    )[n] by {
                        let i = choose|i: int| named_at(after, i, n);
                        lemma_enabled_at(after, i);
                        if n != name@ {
                            assert(named_at(before, i, n));
                            lemma_enabled_at(before, i);
                        } else {
                            lemma_enabled_at(after, last);
                        }
                    }
                    assert(enabled_map(after) =~= enabled_map(before).insert(name@, enabled));
                }
            },
        }
    }

    /// Puts the mod `name` on the list, enabled.
    pub fn add_mod(&mut self, name: &str)
        requires
            old(self).wf(),
        ensures
            final(self).wf(),
            final(self)@ == old(self)@.insert(name@, true),
            final(self).spec_file_path() == old(self).spec_file_path(),
    {
        self.set_mod_enabled(name, true);
    }

    /// Takes the mod `name` off the list.
    pub fn remove_mod(&mut self, name: &str)
        requires
            old(self).wf(),
        ensures
            final(self).wf(),
            final(self)@ == old(self)@.remove(name@),
            final(self).spec_file_path() == old(self).spec_file_path(),
    {
        let wanted = String::from_str(name);
        let ghost before = self.mods@;
        match self.position(&wanted) {
            Some(k) => {
                self.mods.remove(k);
                proof {
                    let after = self.mods@;
                    assert(forall|i: int| 0 <= i < k ==> after[i] == before[i]);
                    assert(forall|i: int| k <= i < after.len() ==> after[i] == before[i + 1]);
                    assert(distinct_names(after)) by {
                        assert forall|i: int, j: int| 0 <= i < j < after.len() implies (
                        #[trigger] after[i]).name@ != (#[trigger] after[j]).name@ by {
                            let bi = if i < k {
                                i
                            } else {
                                i + 1
                            };
                            let bj = if j < k {
                                j
                            } else {
                                j + 1
                            };
                            assert(before[bi].name@ != before[bj].name@);
                        }
                    }
                    assert forall|n: Seq<char>|
                        enabled_map(after).contains_key(n) == enabled_map(before).remove(
                            name@,
                        ).contains_key(n) by {
                        if exists|i: int| named_at(after, i, n) {
                            let i = choose|i: int| named_at(after, i, n);
                            let bi = if i < k {
                                i
                            } else {
                                i + 1
                            };
                            assert(named_at(before, bi, n));
                            if bi < k {
                                assert(before[bi].name@ != before[k as int].name@);
                            } else {
                                assert(before[k as int].name@ != before[bi].name@);
                            }
                        }
                        if n != name@ && exists|i: int| named_at(before, i, n) {
                            let i = choose|i: int| named_at(before, i, n);
                            let ai = if i < k {
                                i
                            } else {
                                i - 1
                            };
                            assert(named_at(after, ai, n));
                        }
                    }
                    assert forall|n: Seq<char>| enabled_map(after).contains_key(n) implies (
                    #[trigger] enabled_map(after)[n]) == enabled_map(before).remove(name@)[n] by {
                        let i = choose|i: int| named_at(after, i, n);
                        lemma_enabled_at(after, i);
                        let bi = if i < k {
                            i
                        } else {
                            i + 1
                        };
                        assert(named_at(before, bi, n));
                        lemma_enabled_at(before, bi);
                    }
                    assert(enabled_map(after) =~= enabled_map(before).remove(name@));
                }
            },
            None => {
                assert(!enabled_map(before).contains_key(name@));
                assert(enabled_map(before) =~= enabled_map(before).remove(name@));
            },
        }
    }

    /// Whether the mod `name` is on the list and enabled.
    pub fn enabled_mod(&self, name: &str) -> (r: bool)
        requires
            self.wf(),
        ensures
            r == (self@.contains_key(name@) && self@[name@]),
    {
        let wanted = String::from_str(name);
        match self.position(&wanted) {
            Some(k) => {
                proof {
                    lemma_enabled_at(self.mods@, k as int);
                }
                self.mods[k].enabled
            },
            None => false,
        }
    }
}

} // verus!

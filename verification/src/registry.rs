//! The mods whose details are known already, kept in memory.

use vstd::prelude::*;
use vstd::string::StringExecFns;
use crate::catalog::{Mod, ModView};

verus! {

/// A mod as the catalog's list names it.
#[derive(Debug)]
pub struct ModIdentifier {
    pub name: String,
    pub title: String,
    pub downloads_count: i64,
}

impl Clone for ModIdentifier {
    fn clone(&self) -> (r: ModIdentifier)
        ensures
            r.name@ == self.name@,
            r.title@ == self.title@,
            r.downloads_count == self.downloads_count,
    {
        ModIdentifier {
            name: self.name.clone(),
            title: self.title.clone(),
            downloads_count: self.downloads_count,
        }
    }
}

/// The mods whose details were fetched, and the catalog's list of mods
/// once it was fetched.
#[derive(Debug)]
pub struct Registry {
    pub all_mod_identifiers: Option<Vec<ModIdentifier>>,
    pub mods: Vec<Mod>,
}

/// The views of a sequence of mods.
pub open spec fn mod_views(mods: Seq<Mod>) -> Seq<ModView> {
    mods.map_values(|m: Mod| m@)
}

/// Where the details of the mod `name` stand in `catalog`: the position
/// of the last mod of that name.
pub open spec fn find_mod(catalog: Seq<ModView>, name: Seq<char>) -> Option<int>
    decreases catalog.len(),
{
    if catalog.len() == 0 {
        None
    } else if catalog.last().name == name {
        Some(catalog.len() - 1)
    } else {
        find_mod(catalog.drop_last(), name)
    }
}

/// `find_mod` finds a mod of the name that is asked for, and finds none
/// only where there is none.
pub proof fn lemma_find_mod(catalog: Seq<ModView>, name: Seq<char>)
    ensures
        match find_mod(catalog, name) {
            Some(k) => 0 <= k < catalog.len() && catalog[k].name == name && forall|j: int|
                k < j < catalog.len() ==> (#[trigger] catalog[j]).name != name,
            None => forall|j: int| 0 <= j < catalog.len() ==> (#[trigger] catalog[j]).name != name,
        },
    decreases catalog.len(),
{
    if catalog.len() > 0 && catalog.last().name != name {
        lemma_find_mod(catalog.drop_last(), name);
        assert(forall|j: int|
            0 <= j < catalog.len() - 1 ==> catalog.drop_last()[j] == catalog[j]);
    }
}

impl View for Registry {
    type V = Seq<ModView>;

    open spec fn view(&self) -> Seq<ModView> {
        mod_views(self.mods@)
    }
}

impl Registry {
    /// The registry that knows no mod.
    pub fn new() -> (r: Registry)
        ensures
            r@ == Seq::<ModView>::empty(),
            r.all_mod_identifiers is None,
    {
        let r = Registry { all_mod_identifiers: None, mods: Vec::new() };
        assert(r@ =~= Seq::<ModView>::empty());
        r
    }

    /// Where the details of the mod `name` stand.
    fn position(&self, name: &str) -> (r: Option<usize>)
        ensures
            match find_mod(self@, name@) {
                Some(k) => r == Some(k as usize) && 0 <= k < self.mods.len(),
                None => r is None,
            },
    {
        let wanted = String::from_str(name);
        let mut i: usize = self.mods.len();
        assert(self@.take(i as int) =~= self@);
        while i > 0
            invariant
                i <= self.mods.len(),
                wanted@ == name@,
                find_mod(self@, name@) == find_mod(self@.take(i as int), name@),
            decreases i,
        {
            proof {
                assert(self@.take(i as int).drop_last() =~= self@.take(i - 1));
                assert(self@.take(i as int).last() == self@[i - 1]);
            }
            if self.mods[i - 1].name == wanted {
                return Some(i - 1);
            }
            i = i - 1;
        }
        None
    }

    /// The details of the mod `name`, if they are known.
    pub fn get_mod(&self, name: &str) -> (r: Option<Mod>)
        ensures
            match find_mod(self@, name@) {
                Some(k) => r matches Some(m) && m@ == self@[k],
                None => r is None,
            },
    {
        match self.position(name) {
            Some(k) => Some(self.mods[k].clone()),
            None => None,
        }
    }

    /// Takes in the details of a mod. They take the place of what was
    /// known of a mod of that name.
    pub fn add_mod(&mut self, mod_: Mod)
        ensures
            final(self)@ == old(self)@.push(mod_@),
            final(self).all_mod_identifiers == old(self).all_mod_identifiers,
    {
        self.mods.push(mod_);
        assert(self@ =~= old(self)@.push(mod_@));
    }

    /// Takes in the catalog's list of mods.
    pub fn set_mod_identifiers(&mut self, mod_identifiers: Vec<ModIdentifier>)
        ensures
            final(self).all_mod_identifiers == Some(mod_identifiers),
            final(self).mods == old(self).mods,
    {
        self.all_mod_identifiers = Some(mod_identifiers);
    }
}

/// A mod that was taken in is found again, and what was known of other
/// mods stays.
pub proof fn lemma_add_then_find(catalog: Seq<ModView>, m: ModView, name: Seq<char>)
    ensures
        find_mod(catalog.push(m), m.name) == Some(catalog.len() as int),
        name != m.name ==> find_mod(catalog.push(m), name) == find_mod(catalog, name),
{
    assert(catalog.push(m).drop_last() =~= catalog);
}

/// Whether the mods of `list` stand in falling order of how often they
/// were downloaded.
pub open spec fn by_falling_downloads(list: Seq<ModIdentifier>) -> bool {
    forall|i: int, j: int|
        0 <= i < j < list.len() ==> (#[trigger] list[i]).downloads_count >= (
        #[trigger] list[j]).downloads_count
}

/// Finds the mod of `list` that was downloaded most often: the first of
/// them, if there are several.
fn most_downloaded(list: &Vec<ModIdentifier>) -> (k: usize)
    requires
        list.len() > 0,
    ensures
        k < list.len(),
        forall|j: int|
            0 <= j < list.len() ==> list@[k as int].downloads_count >= (
            #[trigger] list@[j]).downloads_count,
{
    let mut k: usize = 0;
    let mut i: usize = 1;
    while i < list.len()
        invariant
            1 <= i <= list.len(),
            k < i,
            forall|j: int|
                0 <= j < i ==> list@[k as int].downloads_count >= (
                #[trigger] list@[j]).downloads_count,
        decreases list.len() - i,
    {
        if list[i].downloads_count > list[k].downloads_count {
            k = i;
        }
        i = i + 1;
    }
    k
}

/// Puts the catalog's list of mods in order: the mods that were
/// downloaded most often come first. No mod is lost and none is added.
pub fn sort_by_downloads(mod_identifiers: Vec<ModIdentifier>) -> (r: Vec<ModIdentifier>)
    ensures
        by_falling_downloads(r@),
        r@.to_multiset() == mod_identifiers@.to_multiset(),
{
    let ghost all = mod_identifiers@;
    let mut rest = mod_identifiers;
    let mut out: Vec<ModIdentifier> = Vec::new();
    assert(out@.to_multiset().add(rest@.to_multiset()) =~= all.to_multiset()) by {
        assert(out@.to_multiset() =~= vstd::multiset::Multiset::<ModIdentifier>::empty()) by {
            out@.to_multiset_ensures();
        }
    }
    while rest.len() > 0
        invariant
            out@.to_multiset().add(rest@.to_multiset()) == all.to_multiset(),
            by_falling_downloads(out@),
            forall|i: int, j: int|
                0 <= i < out@.len() && 0 <= j < rest@.len() ==> (#[trigger] out@[i]).downloads_count
                    >= (#[trigger] rest@[j]).downloads_count,
        decreases rest@.len(),
    {
        let k = most_downloaded(&rest);
        let ghost before_rest = rest@;
        let ghost before_out = out@;
        let m = rest.remove(k);
        proof {
            assert(m == before_rest[k as int]);
            assert(rest@ == before_rest.remove(k as int));
            vstd::seq_lib::to_multiset_remove(before_rest, k as int);
            assert(rest@.to_multiset() == before_rest.to_multiset().remove(m));
            before_rest.to_multiset_ensures();
            assert(before_rest.contains(m));
            assert(before_rest.to_multiset().count(m) > 0);
            assert forall|j: int| 0 <= j < rest@.len() implies m.downloads_count >= (
            #[trigger] rest@[j]).downloads_count by {
                if j < k {
                    assert(rest@[j] == before_rest[j]);
                } else {
                    assert(rest@[j] == before_rest[j + 1]);
                }
            }
        }
        out.push(m);
        proof {
            assert(out@ == before_out.push(m));
            vstd::seq_lib::to_multiset_build(before_out, m);
            assert(out@.to_multiset() =~= before_out.to_multiset().insert(m));
            assert(out@.to_multiset().add(rest@.to_multiset()) =~= before_out.to_multiset().add(
                before_rest.to_multiset(),
            ));
            assert forall|i: int, j: int| 0 <= i < j < out@.len() implies (
            #[trigger] out@[i]).downloads_count >= (#[trigger] out@[j]).downloads_count by {
                if j == before_out.len() {
                    assert(out@[i] == before_out[i]);
                    assert(before_out[i].downloads_count >= before_rest[k as int].downloads_count);
                } else {
                    assert(before_out[i].downloads_count >= before_out[j].downloads_count);
                }
            }
            assert forall|i: int, j: int| 0 <= i < out@.len() && 0 <= j < rest@.len() implies (
            #[trigger] out@[i]).downloads_count >= (#[trigger] rest@[j]).downloads_count by {
                if i < before_out.len() {
                    let bj = if j < k {
                        j
                    } else {
                        j + 1
                    };
                    assert(rest@[j] == before_rest[bj]);
                    assert(before_out[i].downloads_count >= before_rest[bj].downloads_count);
                }
            }
        }
    }
    proof {
        assert(rest@.to_multiset() =~= vstd::multiset::Multiset::<ModIdentifier>::empty()) by {
            rest@.to_multiset_ensures();
        }
        assert(out@.to_multiset() =~= all.to_multiset());
    }
    out
}

} // verus!

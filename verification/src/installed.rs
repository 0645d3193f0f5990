//! The mods that are installed already: what the resolver is told of
//! them, and how their archives are named and read.

use vstd::prelude::*;
use vstd::string::{StrSliceExecFns, StringExecFns};
use crate::text::{count_char, ends_with, text_count_char, text_ends_with};
use crate::version::{parse_version, ParseError, Version};

verus! {

/// An installed mod, as the manifest inside its archive describes it.
#[derive(Debug)]
pub struct InstalledMod {
    pub name: String,
    pub version: Version,
    pub title: String,
    pub factorio_version: String,
}

impl Clone for InstalledMod {
    fn clone(&self) -> (r: InstalledMod)
        ensures
            r.name@ == self.name@,
            r.version == self.version,
            r.title@ == self.title@,
            r.factorio_version@ == self.factorio_version@,
    {
        InstalledMod {
            name: self.name.clone(),
            version: self.version,
            title: self.title.clone(),
            factorio_version: self.factorio_version.clone(),
        }
    }
}

/// One installed mod and its version.
#[derive(Debug)]
pub struct InstalledEntry {
    pub name: String,
    pub version: Version,
}

/// A snapshot of what is installed: for each installed mod, its version.
#[derive(Debug)]
pub struct InstalledState {
    pub entries: Vec<InstalledEntry>,
}

/// The map that a list of entries stands for. Where a name occurs twice,
/// the later entry counts.
pub open spec fn entries_map(entries: Seq<InstalledEntry>) -> Map<Seq<char>, Version>
    decreases entries.len(),
{
    if entries.len() == 0 {
        Map::empty()
    } else {
        entries_map(entries.drop_last()).insert(entries.last().name@, entries.last().version)
    }
}

impl View for InstalledState {
    type V = Map<Seq<char>, Version>;

    open spec fn view(&self) -> Map<Seq<char>, Version> {
        entries_map(self.entries@)
    }
}

impl Clone for InstalledState {
    fn clone(&self) -> (r: InstalledState)
        ensures
            r@ == self@,
    {
        let mut out = InstalledState::new();
        let mut i: usize = 0;
        assert(self.entries@.take(0) =~= Seq::<InstalledEntry>::empty());
        while i < self.entries.len()
            invariant
                i <= self.entries.len(),
                out@ == entries_map(self.entries@.take(i as int)),
            decreases self.entries.len() - i,
        {
            proof {
                assert(self.entries@.take(i + 1).drop_last() =~= self.entries@.take(i as int));
                assert(self.entries@.take(i + 1).last() == self.entries@[i as int]);
            }
            out.insert(self.entries[i].name.as_str(), self.entries[i].version);
            i = i + 1;
        }
        assert(self.entries@.take(i as int) =~= self.entries@);
        out
    }
}

impl InstalledState {
    /// The snapshot with nothing installed.
    pub fn new() -> (r: InstalledState)
        ensures
            r@ == Map::<Seq<char>, Version>::empty(),
    {
        InstalledState { entries: Vec::new() }
    }

    /// Records that `name` is installed in version `version`, in place of
    /// what was recorded of `name` before.
    pub fn insert(&mut self, name: &str, version: Version)
        ensures
            final(self)@ == old(self)@.insert(name@, version),
    {
        self.entries.push(InstalledEntry { name: String::from_str(name), version });
        assert(self.entries@.drop_last() =~= old(self).entries@);
    }

    /// The installed version of `name`, if it is installed.
    pub fn get(&self, name: &str) -> (r: Option<Version>)
        ensures
            r == (if self@.contains_key(name@) {
                Some(self@[name@])
            } else {
                None
            }),
    {
        let wanted = String::from_str(name);
        let mut i: usize = self.entries.len();
        assert(self.entries@.take(i as int) =~= self.entries@);
        while i > 0
            invariant
                i <= self.entries.len(),
                wanted@ == name@,
                self@.contains_key(name@) == entries_map(self.entries@.take(i as int)).contains_key(
                    name@,
                ),
                self@.contains_key(name@) ==> self@[name@] == entries_map(
                    self.entries@.take(i as int),
                )[name@],
            decreases i,
        {
            proof {
                assert(self.entries@.take(i as int).drop_last() =~= self.entries@.take(i - 1));
                assert(self.entries@.take(i as int).last() == self.entries@[i - 1]);
            }
            if self.entries[i - 1].name == wanted {
                return Some(self.entries[i - 1].version);
            }
            i = i - 1;
        }
        None
    }

    /// Whether `name` is installed.
    pub fn contains(&self, name: &str) -> (r: bool)
        ensures
            r == self@.contains_key(name@),
    {
        self.get(name).is_some()
    }

    /// The snapshot for a list of installed mods. Where a mod is listed
    /// twice, the later listing counts.
    pub fn from_mods(mods: &Vec<InstalledMod>) -> (r: InstalledState)
        ensures
            r@ == versions_of(mods@),
    {
        let mut state = InstalledState::new();
        let mut k: usize = 0;
        assert(mods@.take(0) =~= Seq::<InstalledMod>::empty());
        while k < mods.len()
            invariant
                k <= mods.len(),
                state@ == versions_of(mods@.take(k as int)),
            decreases mods.len() - k,
        {
            proof {
                assert(mods@.take(k + 1).drop_last() =~= mods@.take(k as int));
                assert(mods@.take(k + 1).last() == mods@[k as int]);
            }
            state.insert(mods[k].name.as_str(), mods[k].version);
            k = k + 1;
        }
        assert(mods@.take(k as int) =~= mods@);
        state
    }
}

/// For each of the mods `mods`, its version. Where a mod is listed twice,
/// the later listing counts.
pub open spec fn versions_of(mods: Seq<InstalledMod>) -> Map<Seq<char>, Version>
    decreases mods.len(),
{
    if mods.len() == 0 {
        Map::empty()
    } else {
        versions_of(mods.drop_last()).insert(mods.last().name@, mods.last().version)
    }
}

/// The name of the archive that holds version `version` of the mod
/// `name`: the name, an underscore, the version, and `.zip`.
pub open spec fn archive_name(name: Seq<char>, version: Version) -> Seq<char> {
    name + seq!['_'] + version.spec_text() + seq!['.', 'z', 'i', 'p']
}

/// What every archive name of the mod `name` begins with: the name and an
/// underscore.
pub fn archive_prefix(name: &str) -> (r: String)
    ensures
        r@ == name@ + seq!['_'],
{
    proof {
        reveal_strlit("_");
    }
    let mut out = String::from_str(name);
    out.append("_");
    assert(out@ =~= name@ + seq!['_']);
    out
}

/// The name of the archive that holds version `version` of the mod `name`.
pub fn archive_file_name(name: &str, version: &Version) -> (r: String)
    ensures
        r@ == archive_name(name@, *version),
{
    proof {
        reveal_strlit(".zip");
    }
    let mut out = archive_prefix(name);
    let v = version.to_text();
    out.append(v.as_str());
    out.append(".zip");
    assert(out@ =~= archive_name(name@, *version));
    out
}

/// Finds, among the file names of the mods directory, the archive of
/// version `version` of the mod `name`: the first file with exactly that
/// archive's name. A longer mod name that begins alike is no match.
pub fn find_archive(file_names: &Vec<String>, name: &str, version: &Version) -> (r: Option<usize>)
    ensures
        match r {
            Some(i) => i < file_names.len() && file_names@[i as int]@ == archive_name(
                name@,
                *version,
            ) && forall|j: int|
                0 <= j < i ==> (#[trigger] file_names@[j])@ != archive_name(name@, *version),
            None => forall|j: int|
                0 <= j < file_names.len() ==> (#[trigger] file_names@[j])@ != archive_name(
                    name@,
                    *version,
                ),
        },
{
    let wanted = archive_file_name(name, version);
    let mut i: usize = 0;
    while i < file_names.len()
        invariant
            i <= file_names.len(),
            wanted@ == archive_name(name@, *version),
            forall|j: int| 0 <= j < i ==> (#[trigger] file_names@[j])@ != wanted@,
        decreases file_names.len() - i,
    {
        if file_names[i] == wanted {
            return Some(i);
        }
        i = i + 1;
    }
    None
}

/// Whether the archive entry `entry` can be the manifest of a mod: its
/// name ends in `info.json` and it lies at the top of the archive or one
/// directory below.
pub open spec fn is_manifest_entry(entry: Seq<char>) -> bool {
    ends_with(entry, seq!['i', 'n', 'f', 'o', '.', 'j', 's', 'o', 'n']) && count_char(entry, '/')
        <= 1
}

/// Finds the manifest among the entries of an archive: the first entry
/// that can be one.
pub fn find_manifest(entries: &Vec<String>) -> (r: Option<usize>)
    ensures
        match r {
            Some(i) => i < entries.len() && is_manifest_entry(entries@[i as int]@) && forall|
                j: int,
            |
                0 <= j < i ==> !is_manifest_entry(#[trigger] entries@[j]@),
            None => forall|j: int|
                0 <= j < entries.len() ==> !is_manifest_entry(#[trigger] entries@[j]@),
        },
{
    proof {
        reveal_strlit("info.json");
    }
    let mut i: usize = 0;
    while i < entries.len()
        invariant
            i <= entries.len(),
            "info.json"@ == seq!['i', 'n', 'f', 'o', '.', 'j', 's', 'o', 'n'],
            forall|j: int| 0 <= j < i ==> !is_manifest_entry(#[trigger] entries@[j]@),
        decreases entries.len() - i,
    {
        let entry = entries[i].as_str();
        if text_ends_with(entry, "info.json") && text_count_char(entry, '/') <= 1 {
            return Some(i);
        }
        i = i + 1;
    }
    None
}

impl InstalledMod {
    /// Makes the record of an installed mod from the fields of its
    /// manifest. A mod without a title is shown under its name. The
    /// version is read as [`Version::parse`] reads it.
    pub fn from_manifest(name: &str, version: &str, title: &str, factorio_version: &str) -> (r:
        Result<InstalledMod, ParseError>)
        ensures
            match parse_version(version@) {
                Ok(v) => r matches Ok(m) && m.name@ == name@ && m.version == v && m.title@ == (
                if title@.len() == 0 {
                    name@
                } else {
                    title@
                }) && m.factorio_version@ == factorio_version@,
                Err(e) => r == Err::<InstalledMod, ParseError>(e),
            },
    {
        match Version::parse(version) {
            Ok(v) => {
                let shown = if title.unicode_len() == 0 {
                    name
                } else {
                    title
                };
                Ok(
                    InstalledMod {
                        name: String::from_str(name),
                        version: v,
                        title: String::from_str(shown),
                        factorio_version: String::from_str(factorio_version),
                    },
                )
            },
            Err(e) => Err(e),
        }
    }
}

} // verus!

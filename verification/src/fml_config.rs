//! What the manager remembers between runs: where the mods and the
//! server's settings are, and which mods it installed.

use vstd::prelude::*;
use vstd::string::{StrSliceExecFns, StringExecFns};

verus! {

/// A mod that the manager installed, with the version it installed.
#[derive(Debug)]
pub struct Mod {
    pub name: String,
    pub version: String,
}

/// The manager's configuration.
#[derive(Debug)]
pub struct FmlConfig {
    pub mods_dir_path: String,
    pub server_config_path: String,
    pub mods: Vec<Mod>,
}

/// The mods of `mods` that are not named `name`, in their order.
pub open spec fn without(mods: Seq<Mod>, name: Seq<char>) -> Seq<Mod>
    decreases mods.len(),
{
    if mods.len() == 0 {
        Seq::empty()
    } else {
        let before = without(mods.drop_last(), name);
        if mods.last().name@ == name {
            before
        } else {
            before.push(mods.last())
        }
    }
}

/// What the user answered, or `default` where the answer is empty.
pub fn read_line_with_default(input: String, default: &str) -> (r: String)
    ensures
        r@ == (if input@.len() == 0 {
            default@
        } else {
            input@
        }),
{
    if input.as_str().unicode_len() == 0 {
        String::from_str(default)
    } else {
        input
    }
}

impl FmlConfig {
    /// The configuration of a manager that has installed nothing yet.
    pub fn new(mods_dir_path: String, server_config_path: String) -> (r: FmlConfig)
        ensures
            r.mods_dir_path == mods_dir_path,
            r.server_config_path == server_config_path,
            r.mods@.len() == 0,
    {
        FmlConfig { mods_dir_path, server_config_path, mods: Vec::new() }
    }

    /// Notes that the version `version` of the mod `name` was installed.
    pub fn add_mod(&mut self, name: &str, version: &str)
        ensures
            final(self).mods@.len() == old(self).mods@.len() + 1,
            final(self).mods@.drop_last() == old(self).mods@,
            final(self).mods@.last().name@ == name@,
            final(self).mods@.last().version@ == version@,
            final(self).mods_dir_path == old(self).mods_dir_path,
            final(self).server_config_path == old(self).server_config_path,
    {
        self.mods.push(Mod { name: String::from_str(name), version: String::from_str(version) });
        assert(self.mods@.drop_last() =~= old(self).mods@);
    }

    /// Forgets every mod named `name`.
    pub fn remove_mod(&mut self, name: &str)
        ensures
            final(self).mods@ == without(old(self).mods@, name@),
            final(self).mods_dir_path == old(self).mods_dir_path,
            final(self).server_config_path == old(self).server_config_path,
    {
        let wanted = String::from_str(name);
        let mut kept: Vec<Mod> = Vec::new();
        let ghost all = self.mods@;
        let total = self.mods.len();
        let mut i: usize = 0;
        assert(all.take(0) =~= Seq::<Mod>::empty());
        while self.mods.len() > 0
            invariant
                all.len() == total,
                i + self.mods@.len() == all.len(),
                self.mods@ == all.skip(i as int),
                kept@ == without(all.take(i as int), name@),
                wanted@ == name@,
                self.mods_dir_path == old(self).mods_dir_path,
                self.server_config_path == old(self).server_config_path,
            decreases self.mods@.len(),
        {
            let m = self.mods.remove(0);
            proof {
                assert(m == all[i as int]);
                assert(self.mods@ =~= all.skip(i + 1));
                assert(all.take(i + 1).drop_last() =~= all.take(i as int));
                assert(all.take(i + 1).last() == all[i as int]);
            }
            if m.name != wanted {
                kept.push(m);
            }
            i = i + 1;
        }
        assert(all.take(i as int) =~= all);
        self.mods = kept;
    }
}

} // verus!

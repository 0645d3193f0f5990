//! What the mod catalog says of a mod: its releases and what each of them
//! depends on.

use vstd::prelude::*;
use crate::constraint::{CompareOp, VersionConstraint};
use crate::dependency::{Dependency, DependencyType, DependencyView};
use crate::version::Version;

verus! {

/// One downloadable version of a mod, for one version of the game.
#[derive(Debug)]
pub struct Release {
    pub download_url: String,
    pub file_name: String,
    pub version: Version,
    pub factorio_version: String,
    pub sha1: String,
    pub dependencies: Vec<Dependency>,
}

/// A release as contracts speak of it.
pub struct ReleaseView {
    pub download_url: Seq<char>,
    pub file_name: Seq<char>,
    pub version: Version,
    pub factorio_version: Seq<char>,
    pub sha1: Seq<char>,
    pub dependencies: Seq<DependencyView>,
}

/// A mod with all its releases, in the order in which the catalog lists
/// them.
#[derive(Debug)]
pub struct Mod {
    pub name: String,
    pub title: String,
    pub summary: String,
    pub downloads_count: u64,
    pub releases: Vec<Release>,
}

/// A mod as contracts speak of it.
pub struct ModView {
    pub name: Seq<char>,
    pub title: Seq<char>,
    pub summary: Seq<char>,
    pub downloads_count: u64,
    pub releases: Seq<ReleaseView>,
}

/// One line of the catalog's list of mods.
#[derive(Debug)]
pub struct ModListEntry {
    pub name: String,
    pub title: String,
    pub downloads_count: u64,
    pub summary: String,
}

/// The views of a sequence of dependencies.
pub open spec fn dependency_views(deps: Seq<Dependency>) -> Seq<DependencyView> {
    deps.map_values(|d: Dependency| d@)
}

/// The views of a sequence of releases.
pub open spec fn release_views(releases: Seq<Release>) -> Seq<ReleaseView> {
    releases.map_values(|r: Release| r@)
}

impl View for Release {
    type V = ReleaseView;

    open spec fn view(&self) -> ReleaseView {
        ReleaseView {
            download_url: self.download_url@,
            file_name: self.file_name@,
            version: self.version,
            factorio_version: self.factorio_version@,
            sha1: self.sha1@,
            dependencies: dependency_views(self.dependencies@),
        }
    }
}

impl View for Mod {
    type V = ModView;

    open spec fn view(&self) -> ModView {
        ModView {
            name: self.name@,
            title: self.title@,
            summary: self.summary@,
            downloads_count: self.downloads_count,
            releases: release_views(self.releases@),
        }
    }
}

/// Copies a list of dependencies.
pub fn clone_dependencies(deps: &Vec<Dependency>) -> (r: Vec<Dependency>)
    ensures
        dependency_views(r@) == dependency_views(deps@),
{
    let mut out: Vec<Dependency> = Vec::new();
    let mut i: usize = 0;
    while i < deps.len()
        invariant
            i <= deps.len(),
            out.len() == i,
            forall|j: int| 0 <= j < i ==> (#[trigger] out@[j])@ == deps@[j]@,
        decreases deps.len() - i,
    {
        out.push(deps[i].clone());
        i = i + 1;
    }
    assert(dependency_views(out@) =~= dependency_views(deps@));
    out
}

impl Clone for Release {
    fn clone(&self) -> (r: Release)
        ensures
            r@ == self@,
    {
        Release {
            download_url: self.download_url.clone(),
            file_name: self.file_name.clone(),
            version: self.version,
            factorio_version: self.factorio_version.clone(),
            sha1: self.sha1.clone(),
            dependencies: clone_dependencies(&self.dependencies),
        }
    }
}

/// Copies a list of releases.
pub fn clone_releases(releases: &Vec<Release>) -> (r: Vec<Release>)
    ensures
        release_views(r@) == release_views(releases@),
{
    let mut out: Vec<Release> = Vec::new();
    let mut i: usize = 0;
    while i < releases.len()
        invariant
            i <= releases.len(),
            out.len() == i,
            forall|j: int| 0 <= j < i ==> (#[trigger] out@[j])@ == releases@[j]@,
        decreases releases.len() - i,
    {
        out.push(releases[i].clone());
        i = i + 1;
    }
    assert(release_views(out@) =~= release_views(releases@));
    out
}

impl Clone for Mod {
    fn clone(&self) -> (r: Mod)
        ensures
            r@ == self@,
    {
        Mod {
            name: self.name.clone(),
            title: self.title.clone(),
            summary: self.summary.clone(),
            downloads_count: self.downloads_count,
            releases: clone_releases(&self.releases),
        }
    }
}

impl Clone for ModListEntry {
    fn clone(&self) -> (r: ModListEntry)
        ensures
            r.name@ == self.name@,
            r.title@ == self.title@,
            r.downloads_count == self.downloads_count,
            r.summary@ == self.summary@,
    {
        ModListEntry {
            name: self.name.clone(),
            title: self.title.clone(),
            downloads_count: self.downloads_count,
            summary: self.summary.clone(),
        }
    }
}

/// Whether the release `r` can serve: it is for the game version
/// `platform`, where one is asked for, and its version satisfies `req`.
pub open spec fn qualifies(r: ReleaseView, platform: Option<Seq<char>>, req: VersionConstraint) -> bool {
    &&& platform matches Some(p) ==> r.factorio_version == p
    &&& req.spec_matches(r.version)
}

/// Whether `releases[i]` is the release to choose: it qualifies, no
/// qualifying release is newer, and of the qualifying releases with its
/// version it is the one listed last.
pub open spec fn is_best(
    releases: Seq<ReleaseView>,
    i: int,
    platform: Option<Seq<char>>,
    req: VersionConstraint,
) -> bool {
    &&& 0 <= i < releases.len()
    &&& qualifies(releases[i], platform, req)
    &&& forall|j: int|
        0 <= j < releases.len() && qualifies(#[trigger] releases[j], platform, req) ==> {
            ||| releases[j].version.spec_lt(releases[i].version)
            ||| (releases[j].version == releases[i].version && j <= i)
        }
}

/// The index of the release to choose among `releases`, if any qualifies.
pub open spec fn best_release(
    releases: Seq<ReleaseView>,
    platform: Option<Seq<char>>,
    req: VersionConstraint,
) -> Option<int>
    decreases releases.len(),
{
    if releases.len() == 0 {
        None
    } else {
        let last = releases.len() - 1;
        let before = best_release(releases.drop_last(), platform, req);
        if qualifies(releases[last], platform, req) && (before matches Some(b)
            ==> releases[b].version.spec_le(releases[last].version)) {
            Some(last)
        } else {
            before
        }
    }
}

/// `best_release` finds the release that `is_best` describes, and finds
/// none exactly when no release qualifies.
pub proof fn lemma_best_release(
    releases: Seq<ReleaseView>,
    platform: Option<Seq<char>>,
    req: VersionConstraint,
)
    ensures
        match best_release(releases, platform, req) {
            Some(i) => is_best(releases, i, platform, req),
            None => forall|j: int|
                0 <= j < releases.len() ==> !qualifies(#[trigger] releases[j], platform, req),
        },
    decreases releases.len(),
{
    if releases.len() > 0 {
        let init = releases.drop_last();
        let last = releases.len() - 1;
        lemma_best_release(init, platform, req);
        assert(forall|j: int| 0 <= j < last ==> init[j] == releases[j]);
        match best_release(releases, platform, req) {
            Some(i) => {
                assert forall|j: int|
                    0 <= j < releases.len() && qualifies(
                        #[trigger] releases[j],
                        platform,
                        req,
                    ) implies releases[j].version.spec_lt(releases[i].version) || (
                releases[j].version == releases[i].version && j <= i) by {
                    if j < last {
                        assert(qualifies(init[j], platform, req));
                    }
                }
            },
            None => {
                assert forall|j: int| 0 <= j < releases.len() implies !qualifies(
                    #[trigger] releases[j],
                    platform,
                    req,
                ) by {
                    if j < last {
                        assert(!qualifies(init[j], platform, req));
                    }
                }
            },
        }
    }
}

/// At most one release is the one to choose.
pub proof fn lemma_best_is_unique(
    releases: Seq<ReleaseView>,
    i: int,
    j: int,
    platform: Option<Seq<char>>,
    req: VersionConstraint,
)
    requires
        is_best(releases, i, platform, req),
        is_best(releases, j, platform, req),
    ensures
        i == j,
{
}

/// The dependencies of kind `kind` among `deps`, in their order.
pub open spec fn of_kind(deps: Seq<DependencyView>, kind: DependencyType) -> Seq<DependencyView> {
    deps.filter(|d: DependencyView| d.dep_type == kind)
}

impl Release {
    /// Collects the dependencies of the given kind, in declaration order.
    fn dependencies_of_kind(&self, kind: DependencyType) -> (r: Vec<Dependency>)
        ensures
            dependency_views(r@) == of_kind(self@.dependencies, kind),
    {
        let ghost all = self@.dependencies;
        let ghost pred = |d: DependencyView| d.dep_type == kind;
        let mut out: Vec<Dependency> = Vec::new();
        let mut i: usize = 0;
        assert(all.take(0) =~= Seq::<DependencyView>::empty());
        while i < self.dependencies.len()
            invariant
                i <= self.dependencies.len(),
                all == self@.dependencies,
                all.len() == self.dependencies.len(),
                pred == (|d: DependencyView| d.dep_type == kind),
                dependency_views(out@) == all.take(i as int).filter(pred),
            decreases self.dependencies.len() - i,
        {
            let ghost before = dependency_views(out@);
            proof {
                assert(all.take(i + 1).drop_last() =~= all.take(i as int));
                assert(all.take(i + 1).last() == all[i as int]);
                reveal(Seq::filter);
            }
            if self.dependencies[i].dep_type == kind {
                let d = self.dependencies[i].clone();
                out.push(d);
                assert(dependency_views(out@) =~= before.push(all[i as int]));
            }
            i = i + 1;
        }
        assert(all.take(i as int) =~= all);
        out
    }

    /// The dependencies that must be present.
    pub fn required_dependencies(&self) -> (r: Vec<Dependency>)
        ensures
            dependency_views(r@) == of_kind(self@.dependencies, DependencyType::Required),
    {
        self.dependencies_of_kind(DependencyType::Required)
    }

    /// The dependencies that may be present.
    pub fn optional_dependencies(&self) -> (r: Vec<Dependency>)
        ensures
            dependency_views(r@) == of_kind(self@.dependencies, DependencyType::Optional),
    {
        self.dependencies_of_kind(DependencyType::Optional)
    }

    /// The mods that must be absent.
    pub fn incompatible_dependencies(&self) -> (r: Vec<Dependency>)
        ensures
            dependency_views(r@) == of_kind(self@.dependencies, DependencyType::Incompatible),
    {
        self.dependencies_of_kind(DependencyType::Incompatible)
    }
}

impl Mod {
    /// Finds the index of the release to choose.
    fn best_index(&self, platform: Option<&String>, req: &VersionConstraint) -> (r: Option<usize>)
        ensures
            match best_release(
                self@.releases,
                match platform {
                    Some(p) => Some(p@),
                    None => None,
                },
                *req,
            ) {
                Some(i) => r == Some(i as usize) && 0 <= i < self.releases.len(),
                None => r is None,
            },
    {
        let ghost all = self@.releases;
        let ghost want: Option<Seq<char>> = match platform {
            Some(p) => Some(p@),
            None => None,
        };
        let mut best: Option<usize> = None;
        let mut i: usize = 0;
        assert(all.take(0) =~= Seq::<ReleaseView>::empty());
        while i < self.releases.len()
            invariant
                i <= self.releases.len(),
                all == self@.releases,
                all.len() == self.releases.len(),
                want == (match platform {
                    Some(p) => Some(p@),
                    None => None,
                }),
                match best_release(all.take(i as int), want, *req) {
                    Some(b) => best == Some(b as usize) && 0 <= b < i,
                    None => best is None,
                },
            decreases self.releases.len() - i,
        {
            proof {
                assert(all.take(i + 1).drop_last() =~= all.take(i as int));
                assert(all.take(i + 1)[i as int] == all[i as int]);
            }
            let r = &self.releases[i];
            let platform_ok = match platform {
                Some(p) => r.factorio_version == *p,
                None => true,
            };
            if platform_ok && req.matches(&r.version) {
                let newer = match best {
                    Some(b) => {
                        assert(all.take(i + 1)[b as int] == all[b as int]);
                        self.releases[b].version.le(&r.version)
                    },
                    None => true,
                };
                if newer {
                    best = Some(i);
                }
            }
            i = i + 1;
        }
        assert(all.take(i as int) =~= all);
        best
    }

    /// Chooses the release to install: the newest release for the game
    /// version `factorio_version` whose version satisfies `req`.
    pub fn select_release(&self, factorio_version: &String, req: &VersionConstraint) -> (r: Option<
        Release,
    >)
        ensures
            match best_release(self@.releases, Some(factorio_version@), *req) {
                Some(i) => r matches Some(release) && release@ == self@.releases[i],
                None => r is None,
            },
    {
        match self.best_index(Some(factorio_version), req) {
            Some(i) => Some(self.releases[i].clone()),
            None => None,
        }
    }

    /// The newest release whose version satisfies `ver_req`, whatever
    /// game version it is for.
    pub fn find_matching_release(&self, ver_req: &VersionConstraint) -> (r: Option<Release>)
        ensures
            match best_release(self@.releases, None, *ver_req) {
                Some(i) => r matches Some(release) && release@ == self@.releases[i],
                None => r is None,
            },
    {
        match self.best_index(None, ver_req) {
            Some(i) => Some(self.releases[i].clone()),
            None => None,
        }
    }

    /// The release with exactly the version `version`.
    pub fn release(&self, version: &Version) -> (r: Option<Release>)
        ensures
            match best_release(
                self@.releases,
                None,
                VersionConstraint::Bound { op: CompareOp::Exact, version: *version },
            ) {
                Some(i) => r matches Some(release) && release@ == self@.releases[i],
                None => r is None,
            },
    {
        self.find_matching_release(
            &VersionConstraint::Bound { op: CompareOp::Exact, version: *version },
        )
    }

    /// The newest release of all.
    pub fn latest_release(&self) -> (r: Option<Release>)
        ensures
            match best_release(self@.releases, None, VersionConstraint::Any) {
                Some(i) => r matches Some(release) && release@ == self@.releases[i],
                None => r is None,
            },
    {
        self.find_matching_release(&VersionConstraint::Any)
    }
}

} // verus!

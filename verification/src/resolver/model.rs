//! The resolver as a state machine over plain mathematical values.

use vstd::prelude::*;
use crate::catalog::{best_release, ModView, ReleaseView};
use crate::constraint::VersionConstraint;
use crate::dependency::DependencyType;
use crate::version::Version;

verus! {

/// The name of the game itself, which mods depend on but which is never
/// downloaded.
pub open spec fn base_name() -> Seq<char> {
    seq!['b', 'a', 's', 'e']
}

/// One release that is to be downloaded, under the name of its mod.
pub struct PlanEntry {
    pub name: Seq<char>,
    pub release: ReleaseView,
}

/// A mod whose release is chosen and whose dependencies are being worked
/// through: the first `next` of them are dealt with.
pub struct FrameView {
    pub name: Seq<char>,
    pub release: ReleaseView,
    pub next: nat,
}

/// The mod whose details the resolver waits for, and the constraint that
/// its release has to satisfy.
pub struct PendingView {
    pub name: Seq<char>,
    pub required: VersionConstraint,
}

/// Why a resolution failed.
pub enum ResolveErrorView {
    VersionConflict { name: Seq<char>, installed_version: Version, required: VersionConstraint },
    NoCompatibleRelease { name: Seq<char>, platform_version: Seq<char>, required: VersionConstraint },
    IncompatibleMod { name: Seq<char>, other: Seq<char> },
    CatalogFetchFailed { name: Seq<char>, root: Seq<char>, cause: Seq<char> },
}

/// What a finished resolution hands over.
pub struct ResolveResultView {
    pub to_download: Seq<PlanEntry>,
    pub has_cycle: bool,
}

/// Everything the resolver knows in the middle of its walk.
pub struct ResolverView {
    /// The mod that is to be installed.
    pub root: Seq<char>,
    /// The game version that releases have to be for.
    pub platform: Seq<char>,
    /// What is installed already.
    pub installed: Map<Seq<char>, Version>,
    /// The names met so far, in the order in which they were met.
    pub visited: Seq<Seq<char>>,
    /// The releases decided on so far, each behind what it requires.
    pub plan: Seq<PlanEntry>,
    /// The mods in progress, the root at the bottom.
    pub stack: Seq<FrameView>,
    /// The mod that is being asked for.
    pub pending: Option<PendingView>,
    /// Whether a mod was found to require one that is still in progress.
    pub has_cycle: bool,
}

/// Where a resolution stands after a step.
pub enum ProgressView {
    /// The details of the pending mod are needed.
    Fetch(ResolverView),
    /// The plan is complete.
    Finished(ResolveResultView),
    /// The resolution failed.
    Failed(ResolveErrorView),
}

/// What meeting a name leads to.
pub enum Visit {
    /// Nothing is to be done for the name.
    Skip(ResolverView),
    /// The name's details have to be fetched.
    Fetch(ResolverView),
    /// The name is installed in a version that does not do.
    Conflict(ResolveErrorView),
}

/// Whether the plan holds a release of `name`.
pub open spec fn planned(plan: Seq<PlanEntry>, name: Seq<char>) -> bool {
    exists|i: int| 0 <= i < plan.len() && (#[trigger] plan[i]).name == name
}

/// Whether `name` is among the mods in progress.
pub open spec fn in_progress(stack: Seq<FrameView>, name: Seq<char>) -> bool {
    exists|i: int| 0 <= i < stack.len() && (#[trigger] stack[i]).name == name
}

/// Meets the name `name` under the constraint `required`: the game itself
/// and names met before are passed over, an installed mod is checked
/// against the constraint, and any other mod has to be fetched.
pub open spec fn visit(st: ResolverView, name: Seq<char>, required: VersionConstraint) -> Visit {
    if name == base_name() {
        Visit::Skip(st)
    } else if st.visited.contains(name) {
        Visit::Skip(ResolverView { has_cycle: st.has_cycle || in_progress(st.stack, name), ..st })
    } else if st.installed.contains_key(name) {
        if required.spec_matches(st.installed[name]) {
            Visit::Skip(ResolverView { visited: st.visited.push(name), ..st })
        } else {
            Visit::Conflict(
                ResolveErrorView::VersionConflict {
                    name,
                    installed_version: st.installed[name],
                    required,
                },
            )
        }
    } else {
        Visit::Fetch(
            ResolverView {
                visited: st.visited.push(name),
                pending: Some(PendingView { name, required }),
                ..st
            },
        )
    }
}

/// How much one frame still has to do.
pub open spec fn frame_work(f: FrameView) -> nat {
    if f.next <= f.release.dependencies.len() {
        (f.release.dependencies.len() - f.next + 1) as nat
    } else {
        1
    }
}

/// How much the frames of `stack` still have to do.
pub open spec fn remaining(stack: Seq<FrameView>) -> nat
    decreases stack.len(),
{
    if stack.len() == 0 {
        0
    } else {
        remaining(stack.drop_last()) + frame_work(stack.last())
    }
}

/// The state once the topmost frame has gone to the plan.
pub open spec fn pop_frame(st: ResolverView) -> ResolverView {
    let top = st.stack.last();
    ResolverView {
        stack: st.stack.drop_last(),
        plan: st.plan.push(PlanEntry { name: top.name, release: top.release }),
        ..st
    }
}

/// The state once the topmost frame has taken up its next dependency.
pub open spec fn step_frame(st: ResolverView) -> ResolverView {
    let top = st.stack.last();
    ResolverView {
        stack: st.stack.drop_last().push(FrameView { next: top.next + 1, ..top }),
        ..st
    }
}

/// Goes on with the mods in progress until the details of a mod are
/// needed, the resolution fails, or nothing is left in progress.
///
/// The dependencies of the topmost frame are taken in the order in which
/// they are declared. An optional one is passed over. An incompatible one
/// fails the resolution if the mod it names is installed or planned. A
/// required one is met as `visit` says. A frame whose dependencies are
/// all dealt with goes to the end of the plan.
pub open spec fn advance(st: ResolverView) -> ProgressView
    decreases remaining(st.stack),
{
    if st.stack.len() == 0 {
        ProgressView::Finished(
            ResolveResultView { to_download: st.plan, has_cycle: st.has_cycle },
        )
    } else {
        let top = st.stack.last();
        if top.next >= top.release.dependencies.len() {
            proof {
                assert(remaining(pop_frame(st).stack) < remaining(st.stack));
            }
            advance(pop_frame(st))
        } else {
            let dep = top.release.dependencies[top.next as int];
            let next = step_frame(st);
            proof {
                assert(next.stack.drop_last() =~= st.stack.drop_last());
                assert(remaining(next.stack) < remaining(st.stack));
            }
            match dep.dep_type {
                DependencyType::Optional => advance(next),
                DependencyType::Incompatible => if st.installed.contains_key(dep.name) || planned(
                    st.plan,
                    dep.name,
                ) {
                    ProgressView::Failed(
                        ResolveErrorView::IncompatibleMod { name: top.name, other: dep.name },
                    )
                } else {
                    advance(next)
                },
                DependencyType::Required => match visit(next, dep.name, dep.version_req) {
                    Visit::Skip(after) => advance(after),
                    Visit::Fetch(after) => ProgressView::Fetch(after),
                    Visit::Conflict(e) => ProgressView::Failed(e),
                },
            }
        }
    }
}

/// The state in which a resolution of `root` begins.
pub open spec fn initial(
    root: Seq<char>,
    platform: Seq<char>,
    installed: Map<Seq<char>, Version>,
) -> ResolverView {
    ResolverView {
        root,
        platform,
        installed,
        visited: Seq::empty(),
        plan: Seq::empty(),
        stack: Seq::empty(),
        pending: None,
        has_cycle: false,
    }
}

/// Begins the resolution of `root` for the game version `platform`.
pub open spec fn start(
    root: Seq<char>,
    platform: Seq<char>,
    installed: Map<Seq<char>, Version>,
) -> ProgressView {
    match visit(initial(root, platform, installed), root, VersionConstraint::Any) {
        Visit::Skip(st) => ProgressView::Finished(
            ResolveResultView { to_download: st.plan, has_cycle: st.has_cycle },
        ),
        Visit::Fetch(st) => ProgressView::Fetch(st),
        Visit::Conflict(e) => ProgressView::Failed(e),
    }
}

/// Goes on once the catalog has answered for the pending mod: with the
/// mod's details, or with the reason why they could not be had.
///
/// Of the mod's releases the newest one is chosen that is for the right
/// game version and satisfies the constraint under which the mod was met.
pub open spec fn supply(st: ResolverView, fetched: Result<ModView, Seq<char>>) -> ProgressView {
    let pending = st.pending.unwrap();
    match fetched {
        Err(cause) => ProgressView::Failed(
            ResolveErrorView::CatalogFetchFailed { name: pending.name, root: st.root, cause },
        ),
        Ok(m) => match best_release(m.releases, Some(st.platform), pending.required) {
            None => ProgressView::Failed(
                ResolveErrorView::NoCompatibleRelease {
                    name: pending.name,
                    platform_version: st.platform,
                    required: pending.required,
                },
            ),
            Some(i) => advance(
                ResolverView {
                    pending: None,
                    stack: st.stack.push(
                        FrameView { name: pending.name, release: m.releases[i], next: 0 },
                    ),
                    ..st
                },
            ),
        },
    }
}

} // verus!

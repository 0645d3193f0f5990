//! The resolver as it runs: it is started with the mod to install and
//! is handed, one by one, the catalog's answers that it asks for.

use vstd::prelude::*;
use vstd::string::StringExecFns;
use crate::catalog::{Mod, ModView, Release};
use crate::constraint::VersionConstraint;
use crate::dependency::DependencyType;
use crate::installed::InstalledState;
use crate::resolver::error::ResolveError;
use crate::resolver::laws::{
    inv, lemma_advance_sound, lemma_push_preserves, lemma_start_sound, sound_progress,
};
use crate::resolver::provenance::{
    asked_for, inv_provenance, lemma_advance_traced, lemma_push_traced, lemma_start_traced,
    traced,
};
use crate::resolver::model::{
    advance, base_name, in_progress, initial, planned, pop_frame, remaining, step_frame, supply,
    visit, FrameView, PendingView, PlanEntry, ProgressView, ResolveResultView, ResolverView, Visit,
};

verus! {

/// The releases to download, each behind the releases that it requires.
#[derive(Debug)]
pub struct ResolveResult {
    /// The mods to download with the release chosen for each, in the
    /// order in which to install them.
    pub to_download: Vec<(String, Release)>,
    /// Whether some mod requires a mod that, directly or not, requires it
    /// in turn. Then not every release can stand behind all that it
    /// requires.
    pub has_cycle: bool,
}

/// A plan as contracts speak of it.
pub open spec fn plan_view(plan: Seq<(String, Release)>) -> Seq<PlanEntry> {
    plan.map_values(|e: (String, Release)| PlanEntry { name: e.0@, release: e.1@ })
}

impl View for ResolveResult {
    type V = ResolveResultView;

    open spec fn view(&self) -> ResolveResultView {
        ResolveResultView { to_download: plan_view(self.to_download@), has_cycle: self.has_cycle }
    }
}

/// A mod in progress.
struct Frame {
    name: String,
    release: Release,
    next: usize,
}

/// The mod that is being asked for.
struct Pending {
    name: String,
    required: VersionConstraint,
}

/// Everything the resolver keeps from one step to the next.
struct State {
    root: String,
    platform: String,
    installed: InstalledState,
    visited: Vec<String>,
    plan: Vec<(String, Release)>,
    stack: Vec<Frame>,
    pending: Option<Pending>,
    has_cycle: bool,
}

spec fn names_view(names: Seq<String>) -> Seq<Seq<char>> {
    names.map_values(|s: String| s@)
}

spec fn frames_view(stack: Seq<Frame>) -> Seq<FrameView> {
    stack.map_values(
        |f: Frame| FrameView { name: f.name@, release: f.release@, next: f.next as nat },
    )
}

impl State {
    spec fn view(&self) -> ResolverView {
        ResolverView {
            root: self.root@,
            platform: self.platform@,
            installed: self.installed@,
            visited: names_view(self.visited@),
            plan: plan_view(self.plan@),
            stack: frames_view(self.stack@),
            pending: match self.pending {
                Some(p) => Some(PendingView { name: p.name@, required: p.required }),
                None => None,
            },
            has_cycle: self.has_cycle,
        }
    }
}

/// A resolution that waits for the catalog's answer about one mod.
pub struct PendingFetch {
    state: State,
}

/// Where a resolution stands.
pub enum Progress {
    /// The details of a mod are needed; hand them to
    /// [`PendingFetch::supply`].
    Fetch(PendingFetch),
    /// The plan is complete.
    Finished(ResolveResult),
    /// The resolution failed.
    Failed(ResolveError),
}

impl View for PendingFetch {
    type V = ResolverView;

    closed spec fn view(&self) -> ResolverView {
        self.state@
    }
}

impl View for Progress {
    type V = ProgressView;

    open spec fn view(&self) -> ProgressView {
        match self {
            Progress::Fetch(p) => ProgressView::Fetch(p@),
            Progress::Finished(r) => ProgressView::Finished(r@),
            Progress::Failed(e) => ProgressView::Failed(e@),
        }
    }
}

/// What the catalog answered, as contracts speak of it.
pub open spec fn fetched_view(fetched: Result<Mod, String>) -> Result<ModView, Seq<char>> {
    match fetched {
        Ok(m) => Ok(m@),
        Err(cause) => Err(cause@),
    }
}

/// What meeting a name led to.
enum Met {
    Skip(State),
    Fetch(State),
    Conflict(ResolveError),
}

impl Met {
    spec fn view(&self) -> Visit {
        match self {
            Met::Skip(st) => Visit::Skip(st@),
            Met::Fetch(st) => Visit::Fetch(st@),
            Met::Conflict(e) => Visit::Conflict(e@),
        }
    }
}

/// Whether `name` is among `names`.
fn has_name(names: &Vec<String>, name: &String) -> (r: bool)
    ensures
        r == names_view(names@).contains(name@),
{
    let mut i: usize = 0;
    while i < names.len()
        invariant
            i <= names.len(),
            forall|j: int| 0 <= j < i ==> names_view(names@)[j] != name@,
        decreases names.len() - i,
    {
        if names[i] == *name {
            assert(names_view(names@)[i as int] == name@);
            return true;
        }
        i = i + 1;
    }
    false
}

/// Whether the plan holds a release of `name`.
fn is_planned(plan: &Vec<(String, Release)>, name: &String) -> (r: bool)
    ensures
        r == planned(plan_view(plan@), name@),
{
    let mut i: usize = 0;
    while i < plan.len()
        invariant
            i <= plan.len(),
            forall|j: int| 0 <= j < i ==> (#[trigger] plan_view(plan@)[j]).name != name@,
        decreases plan.len() - i,
    {
        if plan[i].0 == *name {
            assert(plan_view(plan@)[i as int].name == name@);
            return true;
        }
        i = i + 1;
    }
    false
}

/// Whether `name` is among the mods in progress.
fn is_in_progress(stack: &Vec<Frame>, name: &String) -> (r: bool)
    ensures
        r == in_progress(frames_view(stack@), name@),
{
    let mut i: usize = 0;
    while i < stack.len()
        invariant
            i <= stack.len(),
            forall|j: int| 0 <= j < i ==> (#[trigger] frames_view(stack@)[j]).name != name@,
        decreases stack.len() - i,
    {
        if stack[i].name == *name {
            assert(frames_view(stack@)[i as int].name == name@);
            return true;
        }
        i = i + 1;
    }
    false
}

/// Meets the name `name` under the constraint `required`.
fn meet(st: State, name: String, required: VersionConstraint) -> (r: Met)
    ensures
        r@ == visit(st@, name@, required),
{
    proof {
        reveal_strlit("base");
        assert("base"@ =~= base_name());
    }
    let mut st = st;
    let base = String::from_str("base");
    if name == base {
        Met::Skip(st)
    } else if has_name(&st.visited, &name) {
        if !st.has_cycle {
            st.has_cycle = is_in_progress(&st.stack, &name);
        }
        Met::Skip(st)
    } else {
        match st.installed.get(name.as_str()) {
            Some(installed_version) => {
                if required.matches(&installed_version) {
                    let ghost before = st.visited@;
                    st.visited.push(name);
                    assert(names_view(st.visited@) =~= names_view(before).push(name@));
                    Met::Skip(st)
                } else {
                    Met::Conflict(
                        ResolveError::VersionConflict { name, installed_version, required },
                    )
                }
            },
            None => {
                let ghost before = st.visited@;
                st.visited.push(name.clone());
                assert(names_view(st.visited@) =~= names_view(before).push(name@));
                st.pending = Some(Pending { name, required });
                Met::Fetch(st)
            },
        }
    }
}

/// Goes on with the mods in progress.
#[verifier::loop_isolation(false)]
fn go_on(st: State) -> (r: Progress)
    requires
        inv(st@),
        inv_provenance(st@),
        st@.pending is None,
    ensures
        r@ == advance(st@),
        sound_progress(r@, st@.installed),
        traced(r@, st@.root),
{
    let ghost origin = st@;
    let mut st = st;
    proof {
        lemma_advance_sound(origin);
        lemma_advance_traced(origin);
    }
    loop
        invariant
            advance(st@) == advance(origin),
            sound_progress(advance(origin), origin.installed),
            traced(advance(origin), origin.root),
        decreases remaining(st@.stack),
    {
        let ghost before = st@;
        let popped = st.stack.pop();
        match popped {
            None => {
                assert(before.stack.len() == 0);
                assert(st@ == before);
                let result = ResolveResult { to_download: st.plan, has_cycle: st.has_cycle };
                return Progress::Finished(result);
            },
            Some(top) => {
                let mut top = top;
                assert(before.stack.last() == (FrameView {
                    name: top.name@,
                    release: top.release@,
                    next: top.next as nat,
                }));
                assert(frames_view(st.stack@) =~= before.stack.drop_last());
                if top.next >= top.release.dependencies.len() {
                    let ghost plan_before = st.plan@;
                    st.plan.push((top.name, top.release));
                    assert(plan_view(st.plan@) =~= plan_view(plan_before).push(
                        PlanEntry {
                            name: before.stack.last().name,
                            release: before.stack.last().release,
                        },
                    ));
                    assert(st@ == pop_frame(before));
                } else {
                    let dep_name = top.release.dependencies[top.next].name.clone();
                    let dep_type = top.release.dependencies[top.next].dep_type;
                    let required = top.release.dependencies[top.next].version_req;
                    let ghost dep = before.stack.last().release.dependencies[top.next as int];
                    assert(dep == top.release.dependencies@[top.next as int]@);
                    let blocked = match dep_type {
                        DependencyType::Incompatible => st.installed.contains(dep_name.as_str())
                            || is_planned(&st.plan, &dep_name),
                        _ => false,
                    };
                    if blocked {
                        return Progress::Failed(
                            ResolveError::IncompatibleMod { name: top.name, other: dep_name },
                        );
                    }
                    top.next = top.next + 1;
                    let ghost stack_before = st.stack@;
                    st.stack.push(top);
                    proof {
                        assert(frames_view(st.stack@) =~= frames_view(stack_before).push(
                            FrameView {
                                next: before.stack.last().next + 1,
                                ..before.stack.last()
                            },
                        ));
                        assert(st@ == step_frame(before));
                        assert(st@.stack.drop_last() =~= before.stack.drop_last());
                        assert(remaining(st@.stack) < remaining(before.stack));
                    }
                    match dep_type {
                        DependencyType::Required => {
                            match meet(st, dep_name, required) {
                                Met::Skip(after) => {
                                    st = after;
                                },
                                Met::Fetch(after) => {
                                    assert(advance(origin) == ProgressView::Fetch(after@));
                                    return Progress::Fetch(PendingFetch { state: after });
                                },
                                Met::Conflict(e) => {
                                    return Progress::Failed(e);
                                },
                            }
                        },
                        _ => {},
                    }
                }
            },
        }
    }
}

/// Begins the resolution of the mod `mod_name` for the game version
/// `factorio_version`, with `installed` installed already.
///
/// The game itself and a mod that is installed need nothing: the
/// resolution is finished at once, with an empty plan. For any other mod
/// the catalog has to be asked first.
pub fn start(mod_name: &str, factorio_version: &str, installed: InstalledState) -> (r: Progress)
    ensures
        r@ == crate::resolver::model::start(mod_name@, factorio_version@, installed@),
        sound_progress(r@, installed@),
        traced(r@, mod_name@),
{
    proof {
        lemma_start_sound(mod_name@, factorio_version@, installed@);
        lemma_start_traced(mod_name@, factorio_version@, installed@);
    }
    let st = State {
        root: String::from_str(mod_name),
        platform: String::from_str(factorio_version),
        installed,
        visited: Vec::new(),
        plan: Vec::new(),
        stack: Vec::new(),
        pending: None,
        has_cycle: false,
    };
    assert(st@ =~= initial(mod_name@, factorio_version@, installed@)) by {
        assert(st@.visited =~= Seq::<Seq<char>>::empty());
        assert(st@.plan =~= Seq::<PlanEntry>::empty());
        assert(st@.stack =~= Seq::<FrameView>::empty());
    }
    match meet(st, String::from_str(mod_name), VersionConstraint::Any) {
        Met::Skip(after) => Progress::Finished(
            ResolveResult { to_download: after.plan, has_cycle: after.has_cycle },
        ),
        Met::Fetch(after) => Progress::Fetch(PendingFetch { state: after }),
        Met::Conflict(e) => Progress::Failed(e),
    }
}

impl PendingFetch {
    #[verifier::type_invariant]
    spec fn well_formed(self) -> bool {
        inv(self.state@) && inv_provenance(self.state@) && self.state@.pending is Some
    }

    /// The name of the mod whose details are needed.
    pub fn name(&self) -> (r: &str)
        ensures
            self@.pending is Some,
            r@ == self@.pending.unwrap().name,
            asked_for(self@, r@),
    {
        proof {
            use_type_invariant(self);
            let name = self.state@.pending.unwrap().name;
            assert(self.state@.visited.contains(name));
            let k = choose|k: int| 0 <= k < self.state@.visited.len() && self.state@.visited[k] == name;
            assert(asked_for(self.state@, self.state@.visited[k]));
        }
        self.state.pending.as_ref().unwrap().name.as_str()
    }

    /// How many names the resolution has met so far.
    pub fn visited_count(&self) -> (n: usize)
        ensures
            n == self@.visited.len(),
    {
        self.state.visited.len()
    }

    /// Goes on with the catalog's answer for the mod that was asked for:
    /// `Ok` with its details, or `Err` with the reason why they could not
    /// be had.
    ///
    /// A failed fetch fails the resolution, and the error names the mod
    /// and the mod whose installation needed it. Otherwise the newest
    /// release is chosen that is for the right game version and satisfies
    /// what is required of the mod; where there is none, the resolution
    /// fails. The dependencies of the chosen release are then worked
    /// through.
    pub fn supply(self, fetched: Result<Mod, String>) -> (r: Progress)
        ensures
            r@ == supply(self@, fetched_view(fetched)),
            sound_progress(r@, self@.installed),
            traced(r@, self@.root),
    {
        proof {
            use_type_invariant(&self);
        }
        let mut st = self.state;
        let ghost before = st@;
        let pending = st.pending.take().unwrap();
        match fetched {
            Err(cause) => Progress::Failed(
                ResolveError::CatalogFetchFailed { name: pending.name, root: st.root, cause },
            ),
            Ok(m) => {
                match m.select_release(&st.platform, &pending.required) {
                    None => Progress::Failed(
                        ResolveError::NoCompatibleRelease {
                            name: pending.name,
                            platform_version: st.platform,
                            required: pending.required,
                        },
                    ),
                    Some(release) => {
                        let ghost stack_before = st.stack@;
                        let ghost frame = FrameView {
                            name: pending.name@,
                            release: release@,
                            next: 0,
                        };
                        st.stack.push(Frame { name: pending.name, release, next: 0 });
                        proof {
                            assert(frames_view(st.stack@) =~= frames_view(stack_before).push(
                                frame,
                            ));
                            lemma_push_preserves(before, frame.release);
                            lemma_push_traced(before, frame);
                            assert(st@ == (ResolverView {
                                pending: None,
                                stack: before.stack.push(frame),
                                ..before
                            }));
                        }
                        go_on(st)
                    },
                }
            },
        }
    }
}

} // verus!

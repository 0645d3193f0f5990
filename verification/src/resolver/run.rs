//! Resolving against the mods that a registry holds, or against any
//! other source of their details.

use vstd::prelude::*;
use vstd::set_lib::{lemma_int_range, lemma_len_subset, set_int_range};
use vstd::string::StringExecFns;
use crate::catalog::{best_release, Mod, ModView};
use crate::dependency::DependencyType;
use crate::installed::InstalledState;
use crate::registry::{find_mod, lemma_find_mod, Registry};
use crate::resolver::error::ResolveError;
use crate::resolver::laws::{
    lemma_start_sound, lemma_supply_sound, lemma_visit_keeps, pending_is, sound, sound_progress,
};
use crate::resolver::machine::{fetched_view, start, Progress, ResolveResult};
use crate::resolver::provenance::{
    ends_with_root, lemma_advance_ends_with_root, lemma_cycle_found_iff_there_is_one,
    lemma_ordered_plan_has_no_loop, lemma_resolve_plans_required_only,
    lemma_resolve_plans_root_last, lemma_start_traced, lemma_supply_traced, plan_has_loop,
    requested_only, traced,
};
use crate::resolver::model::{
    advance, base_name, planned, pop_frame, remaining, step_frame, supply, visit, FrameView,
    ProgressView, ResolveErrorView, ResolveResultView, ResolverView, Visit,
};
use crate::version::Version;

verus! {

/// What a registry says of a mod that it does not hold.
pub open spec fn not_found(name: Seq<char>) -> Seq<char> {
    "Mod '"@ + name + "' not found"@
}

/// What the mods of `catalog` answer when the details of `name` are
/// asked for.
pub open spec fn answer(catalog: Seq<ModView>, name: Seq<char>) -> Result<ModView, Seq<char>> {
    match find_mod(catalog, name) {
        Some(k) => Ok(catalog[k]),
        None => Err(not_found(name)),
    }
}

/// Whether the resolver waits for a mod in the way it does after a step:
/// the mod that it asks for is among the names it has met.
pub open spec fn awaits(st: ResolverView) -> bool {
    st.pending matches Some(p) && st.visited.contains(p.name)
}

/// Whether `p` is a place where a resolution can stand after a step.
pub open spec fn can_run(p: ProgressView) -> bool {
    p matches ProgressView::Fetch(st) ==> awaits(st)
}

/// The mods of `catalog` that the resolver has not been given yet: those
/// whose name it has not met, and the one it asks for.
pub open spec fn unsupplied(catalog: Seq<ModView>, st: ResolverView) -> Set<int> {
    Set::new(
        |k: int|
            0 <= k < catalog.len() && (!st.visited.contains(catalog[k].name) || pending_is(
                st,
                catalog[k].name,
            )),
    )
}

/// How many answers a resolution that stands at `p` can still ask of
/// `catalog`, at most.
pub open spec fn run_measure(p: ProgressView, catalog: Seq<ModView>) -> nat {
    match p {
        ProgressView::Fetch(st) => unsupplied(catalog, st).len() + 1,
        _ => 0,
    }
}

/// Carries a resolution that stands at `p` to its end, answering from
/// the mods of `catalog` whatever it asks for.
pub open spec fn run(p: ProgressView, catalog: Seq<ModView>) -> Result<
    ResolveResultView,
    ResolveErrorView,
>
    decreases run_measure(p, catalog),
    when can_run(p)
    via run_decreases
{
    match p {
        ProgressView::Finished(result) => Ok(result),
        ProgressView::Failed(e) => Err(e),
        ProgressView::Fetch(st) => run(
            supply(st, answer(catalog, st.pending.unwrap().name)),
            catalog,
        ),
    }
}

/// What resolving `root` gives when the catalog's answers are those of
/// the mods of `catalog`.
pub open spec fn resolve_in(
    root: Seq<char>,
    platform: Seq<char>,
    installed: Map<Seq<char>, Version>,
    catalog: Seq<ModView>,
) -> Result<ResolveResultView, ResolveErrorView> {
    run(crate::resolver::model::start(root, platform, installed), catalog)
}

/// Whether every name of `before` is among `after`.
pub open spec fn covers(after: Seq<Seq<char>>, before: Seq<Seq<char>>) -> bool {
    forall|name: Seq<char>| before.contains(name) ==> after.contains(name)
}

/// Adding a name keeps the names that were there.
pub proof fn lemma_push_covers(names: Seq<Seq<char>>, name: Seq<char>)
    ensures
        covers(names.push(name), names),
        names.push(name).contains(name),
{
    assert forall|n: Seq<char>| names.contains(n) implies names.push(name).contains(n) by {
        let k = choose|k: int| 0 <= k < names.len() && names[k] == n;
        assert(names.push(name)[k] == n);
    }
    assert(names.push(name)[names.len() as int] == name);
}

/// Where going on stops to ask for a mod, that mod's name is new, and
/// no name that was met is forgotten.
pub proof fn lemma_advance_asks_anew(st: ResolverView)
    ensures
        advance(st) matches ProgressView::Fetch(after) ==> covers(after.visited, st.visited)
            && awaits(after) && !st.visited.contains(after.pending.unwrap().name)
            && after.visited.len() > st.visited.len(),
    decreases remaining(st.stack),
{
    if st.stack.len() > 0 {
        let top = st.stack.last();
        if top.next >= top.release.dependencies.len() {
            lemma_advance_asks_anew(pop_frame(st));
        } else {
            let dep = top.release.dependencies[top.next as int];
            let next = step_frame(st);
            assert(next.stack.drop_last() =~= st.stack.drop_last());
            assert(remaining(next.stack) < remaining(st.stack));
            match dep.dep_type {
                DependencyType::Optional => {
                    lemma_advance_asks_anew(next);
                },
                DependencyType::Incompatible => {
                    if !(st.installed.contains_key(dep.name) || planned(st.plan, dep.name)) {
                        lemma_advance_asks_anew(next);
                    }
                },
                DependencyType::Required => {
                    lemma_visit_keeps(next, dep.name, dep.version_req);
                    lemma_push_covers(st.visited, dep.name);
                    match visit(next, dep.name, dep.version_req) {
                        Visit::Skip(after) => {
                            lemma_advance_asks_anew(after);
                            if let ProgressView::Fetch(end) = advance(after) {
                                assert(covers(end.visited, st.visited));
                                assert(covers(after.visited, st.visited));
                            }
                        },
                        Visit::Fetch(after) => {},
                        Visit::Conflict(e) => {},
                    }
                },
            }
        }
    }
}

/// Whatever the catalog answers, a resolution that asks again has met
/// more names than it had before.
pub proof fn lemma_supply_meets_more(st: ResolverView, fetched: Result<ModView, Seq<char>>)
    requires
        st.pending is Some,
    ensures
        supply(st, fetched) matches ProgressView::Fetch(after) ==> after.visited.len()
            > st.visited.len(),
{
    let pending = st.pending.unwrap();
    if let Ok(m) = fetched {
        if let Some(i) = best_release(m.releases, Some(st.platform), pending.required) {
            lemma_advance_asks_anew(
                ResolverView {
                    pending: None,
                    stack: st.stack.push(
                        FrameView { name: pending.name, release: m.releases[i], next: 0 },
                    ),
                    ..st
                },
            );
        }
    }
}

/// Every answer brings a resolution nearer to its end.
pub proof fn lemma_run_step(st: ResolverView, catalog: Seq<ModView>)
    requires
        awaits(st),
    ensures
        can_run(supply(st, answer(catalog, st.pending.unwrap().name))),
        run_measure(supply(st, answer(catalog, st.pending.unwrap().name)), catalog) < run_measure(
            ProgressView::Fetch(st),
            catalog,
        ),
{
    let pending = st.pending.unwrap();
    let next = supply(st, answer(catalog, pending.name));
    if let ProgressView::Fetch(after) = next {
        lemma_find_mod(catalog, pending.name);
        let k = find_mod(catalog, pending.name).unwrap();
        let m = catalog[k];
        let i = best_release(m.releases, Some(st.platform), pending.required).unwrap();
        let pushed = ResolverView {
            pending: None,
            stack: st.stack.push(FrameView { name: pending.name, release: m.releases[i], next: 0 }),
            ..st
        };
        assert(advance(pushed) == next);
        lemma_advance_asks_anew(pushed);
        let small = unsupplied(catalog, after);
        let big = unsupplied(catalog, st);
        let all = set_int_range(0, catalog.len() as int);
        lemma_int_range(0, catalog.len() as int);
        assert(big.subset_of(all));
        lemma_len_subset(big, all);
        assert(big.contains(k));
        assert(after.visited.contains(pending.name));
        assert(!small.contains(k));
        assert(small.subset_of(big.remove(k))) by {
            assert forall|j: int| small.contains(j) implies big.remove(k).contains(j) by {
                if !after.visited.contains(catalog[j].name) {
                    assert(!st.visited.contains(catalog[j].name));
                }
            }
        }
        lemma_len_subset(small, big.remove(k));
    }
}

#[via_fn]
proof fn run_decreases(p: ProgressView, catalog: Seq<ModView>) {
    if let ProgressView::Fetch(st) = p {
        lemma_run_step(st, catalog);
    }
}

/// A resolution against the mods of a catalog ends with a sound plan, if
/// it ends with a plan.
pub proof fn lemma_run_sound(
    p: ProgressView,
    installed: Map<Seq<char>, Version>,
    catalog: Seq<ModView>,
)
    requires
        sound_progress(p, installed),
    ensures
        run(p, catalog) matches Ok(result) ==> sound(result, installed),
    decreases run_measure(p, catalog),
{
    if let ProgressView::Fetch(st) = p {
        assert(awaits(st)) by {
            assert(pending_is(st, st.pending.unwrap().name));
        }
        let fetched = answer(catalog, st.pending.unwrap().name);
        lemma_run_step(st, catalog);
        lemma_supply_sound(st, fetched);
        lemma_run_sound(supply(st, fetched), installed, catalog);
    }
}

/// The plan that resolving a mod gives is sound: no mod is planned
/// twice; neither the game itself nor an installed mod is planned;
/// whatever a planned release requires is the game itself, installed or
/// planned; and unless a cycle was found, every planned release stands
/// behind the planned releases that it requires.
pub proof fn lemma_resolve_sound(
    root: Seq<char>,
    platform: Seq<char>,
    installed: Map<Seq<char>, Version>,
    catalog: Seq<ModView>,
)
    ensures
        resolve_in(root, platform, installed, catalog) matches Ok(result) ==> sound(
            result,
            installed,
        ),
{
    lemma_start_sound(root, platform, installed);
    lemma_run_sound(crate::resolver::model::start(root, platform, installed), installed, catalog);
}

/// The outcome of a resolution, as contracts speak of it.
pub open spec fn outcome_view(r: Result<ResolveResult, ResolveError>) -> Result<
    ResolveResultView,
    ResolveErrorView,
> {
    match r {
        Ok(result) => Ok(result@),
        Err(e) => Err(e@),
    }
}

/// Where the details of mods come from: the catalog on the network, a
/// registry in memory, or whatever else can answer for a name.
pub trait ModSource {
    /// The details of the mod `name`, or the reason why they cannot be
    /// had.
    fn fetch(&mut self, name: &str) -> Result<Mod, String>;
}

impl ModSource for Registry {
    /// The details that the registry holds of the mod `name`.
    fn fetch(&mut self, name: &str) -> (r: Result<Mod, String>)
        ensures
            fetched_view(r) == answer(old(self)@, name@),
            final(self)@ == old(self)@,
    {
        match self.get_mod(name) {
            Some(m) => Ok(m),
            None => Err(not_found_text(name)),
        }
    }
}

/// What holds of the plan `result` that a resolution of `root` gives,
/// whatever the catalog answered on the way.
pub open spec fn guaranteed(
    result: ResolveResultView,
    root: Seq<char>,
    installed: Map<Seq<char>, Version>,
) -> bool {
    &&& sound(result, installed)
    &&& requested_only(result.to_download, root)
    &&& result.has_cycle <==> plan_has_loop(result.to_download)
    &&& result.to_download.len() > 0 ==> result.to_download.last().name == root
}

/// Whatever the mods of the catalog are, the plan that resolving a mod
/// gives has no mod twice, holds neither the game itself nor an installed
/// mod, holds what its releases require and nothing else, ends with the
/// mod that was asked for, and is marked as cyclic exactly if some
/// planned mod requires itself by way of planned mods; unless it is,
/// every release stands behind the releases that it requires.
pub proof fn lemma_resolve_guaranteed(
    root: Seq<char>,
    platform: Seq<char>,
    installed: Map<Seq<char>, Version>,
    catalog: Seq<ModView>,
)
    ensures
        resolve_in(root, platform, installed, catalog) matches Ok(result) ==> guaranteed(
            result,
            root,
            installed,
        ),
{
    lemma_resolve_sound(root, platform, installed, catalog);
    lemma_resolve_plans_required_only(root, platform, installed, catalog);
    lemma_cycle_found_iff_there_is_one(root, platform, installed, catalog);
    lemma_resolve_plans_root_last(root, platform, installed, catalog);
}

/// Works out which releases must be downloaded to install the mod
/// `mod_name` for the game version `factorio_version`, with `installed`
/// installed already, asking `source` for the details of each mod that
/// is needed.
///
/// Each mod is asked for once at most, so the resolution comes to an end
/// whatever the source answers. It ends with what the answers that the
/// source gave lead to, as `start` and `supply` say step by step. A plan
/// that it ends with has no mod twice, holds neither the game itself nor
/// an installed mod, holds whatever its releases require, and ends with
/// the mod that was asked for.
pub fn resolve_with<S: ModSource>(
    mod_name: &str,
    factorio_version: &str,
    installed: &InstalledState,
    source: &mut S,
) -> (r: Result<ResolveResult, ResolveError>)
    ensures
        exists|answers: Seq<Result<ModView, Seq<char>>>| #[trigger]
            resolved_by(mod_name@, factorio_version@, installed@, answers, outcome_view(r)),
        mod_name@ == base_name() || installed@.contains_key(mod_name@) ==> (r matches Ok(result)
            && result@.to_download.len() == 0),
        r matches Ok(result) ==> guaranteed(result@, mod_name@, installed@),
{
    let ghost begin = crate::resolver::model::start(mod_name@, factorio_version@, installed@);
    let ghost mut given: Seq<Result<ModView, Seq<char>>> = Seq::empty();
    let mut pending = match start(mod_name, factorio_version, installed.clone()) {
        Progress::Fetch(pending) => pending,
        Progress::Finished(result) => {
            proof {
                lemma_ordered_plan_has_no_loop(result@.to_download);
                assert(resolved_by(
                    mod_name@,
                    factorio_version@,
                    installed@,
                    given,
                    Ok::<ResolveResultView, ResolveErrorView>(result@),
                ));
            }
            return Ok(result);
        },
        Progress::Failed(e) => {
            proof {
                assert(resolved_by(
                    mod_name@,
                    factorio_version@,
                    installed@,
                    given,
                    Err::<ResolveResultView, ResolveErrorView>(e@),
                ));
            }
            return Err(e);
        },
    };
    let mut met = pending.visited_count();
    loop
        invariant
            begin == crate::resolver::model::start(mod_name@, factorio_version@, installed@),
            after_answers(begin, given) == ProgressView::Fetch(pending@),
            all_asked_for(begin, given),
            sound_progress(ProgressView::Fetch(pending@), installed@),
            traced(ProgressView::Fetch(pending@), mod_name@),
            met == pending@.visited.len(),
        decreases usize::MAX - met,
    {
        let fetched = source.fetch(pending.name());
        let ghost before = given;
        proof {
            lemma_supply_meets_more(pending@, fetched_view(fetched));
            given = before.push(fetched_view(fetched));
            lemma_one_more_answer(begin, before, fetched_view(fetched));
        }
        match pending.supply(fetched) {
            Progress::Fetch(next) => {
                met = next.visited_count();
                pending = next;
            },
            Progress::Finished(result) => {
                proof {
                    if !result@.has_cycle {
                        lemma_ordered_plan_has_no_loop(result@.to_download);
                    }
                    assert(resolved_by(
                        mod_name@,
                        factorio_version@,
                        installed@,
                        given,
                        Ok::<ResolveResultView, ResolveErrorView>(result@),
                    ));
                }
                return Ok(result);
            },
            Progress::Failed(e) => {
                proof {
                    assert(resolved_by(
                        mod_name@,
                        factorio_version@,
                        installed@,
                        given,
                        Err::<ResolveResultView, ResolveErrorView>(e@),
                    ));
                }
                return Err(e);
            },
        }
    }
}

/// Where a resolution that stood at `p` stands once the catalog has
/// given the answers `answers`, one after the other: each answer is
/// handed to the resolution as long as it asks, and none after it has
/// ended.
pub open spec fn after_answers(
    p: ProgressView,
    answers: Seq<Result<ModView, Seq<char>>>,
) -> ProgressView
    decreases answers.len(),
{
    if answers.len() == 0 {
        p
    } else {
        match after_answers(p, answers.drop_last()) {
            ProgressView::Fetch(st) => supply(st, answers.last()),
            done => done,
        }
    }
}

/// Whether a resolution that stood at `p` asked for each of the answers
/// `answers`: it had not ended when it was given any of them.
pub open spec fn all_asked_for(p: ProgressView, answers: Seq<Result<ModView, Seq<char>>>) -> bool {
    forall|k: int|
        0 <= k < answers.len() ==> (#[trigger] after_answers(p, answers.take(k))) is Fetch
}

/// Whether a resolution that stands at `p` has ended, and ended with
/// `outcome`.
pub open spec fn ended_with(
    p: ProgressView,
    outcome: Result<ResolveResultView, ResolveErrorView>,
) -> bool {
    match p {
        ProgressView::Finished(result) => outcome == Ok::<ResolveResultView, ResolveErrorView>(
            result,
        ),
        ProgressView::Failed(e) => outcome == Err::<ResolveResultView, ResolveErrorView>(e),
        ProgressView::Fetch(_) => false,
    }
}

/// Whether resolving `root` ends with `outcome` when the catalog gives
/// the answers `answers`: the resolution asks for every one of them, in
/// their order, and ends with `outcome` on the last.
pub open spec fn resolved_by(
    root: Seq<char>,
    platform: Seq<char>,
    installed: Map<Seq<char>, Version>,
    answers: Seq<Result<ModView, Seq<char>>>,
    outcome: Result<ResolveResultView, ResolveErrorView>,
) -> bool {
    let begin = crate::resolver::model::start(root, platform, installed);
    all_asked_for(begin, answers) && ended_with(after_answers(begin, answers), outcome)
}

/// Where a resolution has asked for all its answers so far and asks
/// again, the next answer is asked for too, and takes the resolution to
/// where `supply` says.
pub proof fn lemma_one_more_answer(
    p: ProgressView,
    answers: Seq<Result<ModView, Seq<char>>>,
    answer: Result<ModView, Seq<char>>,
)
    requires
        all_asked_for(p, answers),
        after_answers(p, answers) is Fetch,
    ensures
        all_asked_for(p, answers.push(answer)),
        after_answers(p, answers.push(answer)) == supply(
            after_answers(p, answers)->Fetch_0,
            answer,
        ),
{
    let more = answers.push(answer);
    assert(more.drop_last() =~= answers);
    assert(more.last() == answer);
    assert forall|k: int| 0 <= k < more.len() implies (#[trigger] after_answers(
        p,
        more.take(k),
    )) is Fetch by {
        if k < answers.len() {
            assert(more.take(k) =~= answers.take(k));
        } else {
            assert(more.take(k) =~= answers);
        }
    }
}

/// What a resolution ends with depends on nothing but the answers: the
/// same answers give the same outcome.
pub proof fn lemma_answers_decide(
    root: Seq<char>,
    platform: Seq<char>,
    installed: Map<Seq<char>, Version>,
    answers: Seq<Result<ModView, Seq<char>>>,
    first: Result<ResolveResultView, ResolveErrorView>,
    second: Result<ResolveResultView, ResolveErrorView>,
)
    requires
        resolved_by(root, platform, installed, answers, first),
        resolved_by(root, platform, installed, answers, second),
    ensures
        first == second,
{
}

/// Whatever the answers are, a resolution that has asked for all of them
/// stands where the resolver can stand, knows how it came there, and has
/// the mod that is to be installed at the bottom of what is in progress.
pub proof fn lemma_answers_keep_track(
    root: Seq<char>,
    platform: Seq<char>,
    installed: Map<Seq<char>, Version>,
    answers: Seq<Result<ModView, Seq<char>>>,
)
    requires
        all_asked_for(crate::resolver::model::start(root, platform, installed), answers),
    ensures
        sound_progress(
            after_answers(crate::resolver::model::start(root, platform, installed), answers),
            installed,
        ),
        traced(
            after_answers(crate::resolver::model::start(root, platform, installed), answers),
            root,
        ),
        answers.len() > 0 ==> ends_with_root(
            after_answers(crate::resolver::model::start(root, platform, installed), answers),
            root,
        ),
    decreases answers.len(),
{
    let begin = crate::resolver::model::start(root, platform, installed);
    if answers.len() == 0 {
        lemma_start_sound(root, platform, installed);
        lemma_start_traced(root, platform, installed);
    } else {
        let before = answers.drop_last();
        assert forall|k: int| 0 <= k < before.len() implies (#[trigger] after_answers(
            begin,
            before.take(k),
        )) is Fetch by {
            assert(before.take(k) =~= answers.take(k));
        }
        lemma_answers_keep_track(root, platform, installed, before);
        assert(answers.take(before.len() as int) =~= before);
        assert(after_answers(begin, before) is Fetch);
        let st = after_answers(begin, before)->Fetch_0;
        let answer = answers.last();
        lemma_supply_sound(st, answer);
        lemma_supply_traced(st, answer);
        if let Ok(m) = answer {
            let pending = st.pending.unwrap();
            if let Some(i) = best_release(m.releases, Some(st.platform), pending.required) {
                let frame = FrameView { name: pending.name, release: m.releases[i], next: 0 };
                let pushed = ResolverView { pending: None, stack: st.stack.push(frame), ..st };
                if st.stack.len() > 0 {
                    assert(pushed.stack[0] == st.stack[0]);
                } else {
                    assert(pushed.stack[0] == frame);
                }
                lemma_advance_ends_with_root(pushed);
            }
        }
    }
}

/// Whatever the answers of the catalog are, a plan that a resolution ends
/// with has no mod twice, holds neither the game itself nor an installed
/// mod, holds whatever its releases require and nothing else, and ends
/// with the mod that was to be installed; and it is empty exactly where
/// that mod is the game itself or installed already.
pub proof fn lemma_resolved_is_guaranteed(
    root: Seq<char>,
    platform: Seq<char>,
    installed: Map<Seq<char>, Version>,
    answers: Seq<Result<ModView, Seq<char>>>,
    outcome: Result<ResolveResultView, ResolveErrorView>,
)
    requires
        resolved_by(root, platform, installed, answers, outcome),
    ensures
        outcome matches Ok(result) ==> guaranteed(result, root, installed) && (
        result.to_download.len() == 0 <==> (root == base_name() || installed.contains_key(root))),
        root == base_name() || installed.contains_key(root) ==> outcome is Ok && answers.len() == 0,
{
    let begin = crate::resolver::model::start(root, platform, installed);
    lemma_answers_keep_track(root, platform, installed, answers);
    if let Ok(result) = outcome {
        if !result.has_cycle {
            lemma_ordered_plan_has_no_loop(result.to_download);
        }
    }
    if answers.len() > 0 {
        assert(answers.take(0) =~= Seq::<Result<ModView, Seq<char>>>::empty());
        assert(after_answers(begin, answers.take(0)) is Fetch);
    }
}

/// Says that the registry does not hold the mod `name`.
fn not_found_text(name: &str) -> (r: String)
    ensures
        r@ == not_found(name@),
{
    let mut out = String::from_str("Mod '");
    out.append(name);
    out.append("' not found");
    assert(out@ =~= not_found(name@));
    out
}

/// Works out which releases must be downloaded to install the mod
/// `mod_name` for the game version `factorio_version`, with `installed`
/// installed already and the details of all mods taken from `registry`.
///
/// A mod that the registry does not hold counts as one that could not be
/// fetched.
pub fn resolve(
    mod_name: &str,
    factorio_version: &str,
    installed: &InstalledState,
    registry: &Registry,
) -> (r: Result<ResolveResult, ResolveError>)
    ensures
        outcome_view(r) == resolve_in(mod_name@, factorio_version@, installed@, registry@),
        r matches Ok(result) ==> guaranteed(result@, mod_name@, installed@),
{
    let ghost begin = crate::resolver::model::start(mod_name@, factorio_version@, installed@);
    let mut progress = start(mod_name, factorio_version, installed.clone());
    proof {
        lemma_start_sound(mod_name@, factorio_version@, installed@);
        lemma_resolve_guaranteed(mod_name@, factorio_version@, installed@, registry@);
    }
    loop
        invariant
            begin == crate::resolver::model::start(mod_name@, factorio_version@, installed@),
            run(progress@, registry@) == run(begin, registry@),
            sound_progress(progress@, installed@),
            run(begin, registry@) matches Ok(result) ==> guaranteed(result, mod_name@, installed@),
        decreases run_measure(progress@, registry@),
    {
        match progress {
            Progress::Finished(result) => {
                return Ok(result);
            },
            Progress::Failed(e) => {
                return Err(e);
            },
            Progress::Fetch(pending) => {
                let ghost st = pending@;
                proof {
                    assert(awaits(st)) by {
                        assert(pending_is(st, st.pending.unwrap().name));
                    }
                    lemma_run_step(st, registry@);
                }
                let fetched = match registry.get_mod(pending.name()) {
                    Some(m) => Ok(m),
                    None => Err(not_found_text(pending.name())),
                };
                progress = pending.supply(fetched);
            },
        }
    }
}

} // verus!

//! How a plan came about, and what follows from it.
//!
//! Every mod of a plan is the mod that was to be installed or is
//! required by a planned release: a mod that is only ever named as
//! optional or incompatible is neither asked for nor planned. The mod
//! that was to be installed is planned last. And a cycle is found exactly
//! where some planned mod requires itself by way of planned mods; where
//! there is none, every release stands behind all that it requires.

use vstd::prelude::*;
use crate::catalog::{best_release, ModView};
use crate::constraint::VersionConstraint;
use crate::dependency::DependencyType;
use crate::resolver::laws::{
    dependency_first, fetchable, inv, is_required, lemma_pass_preserves, lemma_pop_preserves,
    lemma_push_preserves, lemma_required_preserves, lemma_start_sound, lemma_step_frame,
    lemma_supply_sound, lemma_visit_keeps, names_distinct, pending_is, sound_progress,
};
use crate::resolver::model::{
    advance, initial, planned, pop_frame, remaining, start, step_frame, supply, visit, FrameView,
    PlanEntry, ProgressView, ResolverView, Visit,
};
use crate::resolver::run::{
    answer, awaits, lemma_run_sound, lemma_run_step, resolve_in, run, run_measure,
};
use crate::version::Version;

verus! {

/// Whether the `q`-th dependency of the `i`-th planned release requires
/// the mod `name`.
pub open spec fn plan_requires(plan: Seq<PlanEntry>, i: int, q: int, name: Seq<char>) -> bool {
    0 <= i < plan.len() && is_required(plan[i].release, q) && plan[i].release.dependencies[q].name
        == name
}

/// Whether the `q`-th dependency of the `m`-th frame requires the mod
/// `name` and was dealt with.
pub open spec fn stack_requires(stack: Seq<FrameView>, m: int, q: int, name: Seq<char>) -> bool {
    0 <= m < stack.len() && is_required(stack[m].release, q) && q < stack[m].next
        && stack[m].release.dependencies[q].name == name
}

/// Whether there is a reason to ask for the mod `name`: it is the mod to
/// install, or a release that was chosen requires it.
pub open spec fn asked_for(st: ResolverView, name: Seq<char>) -> bool {
    ||| name == st.root
    ||| exists|i: int, q: int| plan_requires(st.plan, i, q, name)
    ||| exists|m: int, q: int| stack_requires(st.stack, m, q, name)
}

/// Every name that was met was met for a reason.
pub open spec fn inv_reasons(st: ResolverView) -> bool {
    forall|k: int| 0 <= k < st.visited.len() ==> asked_for(st, #[trigger] st.visited[k])
}

/// Whether a release that was chosen for the mod `a`, planned or in
/// progress, requires the mod `b`.
pub open spec fn edge(plan: Seq<PlanEntry>, stack: Seq<FrameView>, a: Seq<char>, b: Seq<char>) -> bool {
    ||| exists|i: int, q: int| #[trigger] plan_requires(plan, i, q, b) && plan[i].name == a
    ||| exists|m: int, q: int| #[trigger] stack_requires(stack, m, q, b) && stack[m].name == a
}

/// Whether each mod of `walk` requires the next one.
pub open spec fn is_walk(plan: Seq<PlanEntry>, stack: Seq<FrameView>, walk: Seq<Seq<char>>) -> bool {
    walk.len() >= 1 && forall|j: int|
        0 <= j < walk.len() - 1 ==> edge(plan, stack, #[trigger] walk[j], walk[j + 1])
}

/// Whether `walk` leads from a mod back to itself along requirements.
pub open spec fn is_loop(plan: Seq<PlanEntry>, stack: Seq<FrameView>, walk: Seq<Seq<char>>) -> bool {
    is_walk(plan, stack, walk) && walk.len() >= 2 && walk[0] == walk[walk.len() - 1]
}

/// Whether some planned mod requires itself, directly or by way of other
/// planned mods.
pub open spec fn plan_has_loop(plan: Seq<PlanEntry>) -> bool {
    exists|walk: Seq<Seq<char>>| #[trigger] is_loop(plan, Seq::empty(), walk)
}

/// Each mod in progress was met as a required dependency of the mod in
/// progress below it, and was the last one to be met there; and so was
/// the pending mod for the mod on top. At the bottom stands the mod that
/// is to be installed, which goes to the plan last.
pub open spec fn inv_chain(st: ResolverView) -> bool {
    &&& forall|m: int|
        0 <= m < st.stack.len() - 1 ==> (#[trigger] st.stack[m]).next >= 1 && stack_requires(
            st.stack,
            m,
            st.stack[m].next - 1,
            st.stack[m + 1].name,
        )
    &&& (st.pending matches Some(p) && st.stack.len() > 0) ==> st.stack.last().next >= 1
        && stack_requires(
        st.stack,
        st.stack.len() - 1,
        st.stack.last().next - 1,
        st.pending.unwrap().name,
    )
    &&& st.stack.len() > 0 ==> st.stack[0].name == st.root
    &&& (st.pending matches Some(p) && st.stack.len() == 0) ==> st.pending.unwrap().name == st.root
    &&& (st.pending is None && st.stack.len() == 0 && st.plan.len() > 0) ==> st.plan.last().name
        == st.root
}

/// Where a cycle was found there is one.
pub open spec fn inv_cycle(st: ResolverView) -> bool {
    st.has_cycle ==> exists|walk: Seq<Seq<char>>| #[trigger] is_loop(st.plan, st.stack, walk)
}

/// What the resolver knows of how it came to where it is.
pub open spec fn inv_provenance(st: ResolverView) -> bool {
    inv_reasons(st) && inv_chain(st) && inv_cycle(st)
}

/// Every planned mod is the mod `root` or required by a planned release.
pub open spec fn requested_only(plan: Seq<PlanEntry>, root: Seq<char>) -> bool {
    forall|i: int|
        0 <= i < plan.len() ==> {
            let name = (#[trigger] plan[i]).name;
            name == root || exists|j: int, q: int| plan_requires(plan, j, q, name)
        }
}

/// What holds, as to reasons, of wherever a resolution of `root` stands.
pub open spec fn traced(p: ProgressView, root: Seq<char>) -> bool {
    match p {
        ProgressView::Fetch(st) => inv_provenance(st) && st.root == root,
        ProgressView::Finished(result) => requested_only(result.to_download, root) && (
        result.has_cycle ==> plan_has_loop(result.to_download)) && (result.to_download.len() > 0
            ==> result.to_download.last().name == root),
        ProgressView::Failed(_) => true,
    }
}

proof fn lemma_pop_keeps_reasons(st: ResolverView, name: Seq<char>)
    requires
        st.stack.len() > 0,
        st.stack.last().next >= st.stack.last().release.dependencies.len(),
        asked_for(st, name),
    ensures
        asked_for(pop_frame(st), name),
{
    let after = pop_frame(st);
    let t = st.stack.len() - 1;
    let at = st.plan.len() as int;
    if name != st.root {
        if exists|i: int, q: int| plan_requires(st.plan, i, q, name) {
            let (i, q) = choose|i: int, q: int| plan_requires(st.plan, i, q, name);
            assert(after.plan[i] == st.plan[i]);
            assert(plan_requires(after.plan, i, q, name));
        } else {
            let (m, q) = choose|m: int, q: int| stack_requires(st.stack, m, q, name);
            if m == t {
                assert(after.plan[at].release == st.stack[t].release);
                assert(plan_requires(after.plan, at, q, name));
            } else {
                assert(after.stack[m] == st.stack[m]);
                assert(stack_requires(after.stack, m, q, name));
            }
        }
    }
}

proof fn lemma_step_keeps_reasons(st: ResolverView, name: Seq<char>)
    requires
        st.stack.len() > 0,
        asked_for(st, name),
    ensures
        asked_for(step_frame(st), name),
{
    let after = step_frame(st);
    lemma_step_frame(st);
    if name != st.root {
        if exists|i: int, q: int| plan_requires(st.plan, i, q, name) {
            let (i, q) = choose|i: int, q: int| plan_requires(st.plan, i, q, name);
            assert(plan_requires(after.plan, i, q, name));
        } else {
            let (m, q) = choose|m: int, q: int| stack_requires(st.stack, m, q, name);
            assert(after.stack[m].release == st.stack[m].release);
            assert(stack_requires(after.stack, m, q, name));
        }
    }
}

proof fn lemma_push_keeps_reasons(st: ResolverView, frame: FrameView, name: Seq<char>)
    requires
        asked_for(st, name),
    ensures
        asked_for(ResolverView { pending: None, stack: st.stack.push(frame), ..st }, name),
{
    let after = ResolverView { pending: None, stack: st.stack.push(frame), ..st };
    if name != st.root {
        if exists|i: int, q: int| plan_requires(st.plan, i, q, name) {
            let (i, q) = choose|i: int, q: int| plan_requires(st.plan, i, q, name);
            assert(plan_requires(after.plan, i, q, name));
        } else {
            let (m, q) = choose|m: int, q: int| stack_requires(st.stack, m, q, name);
            assert(after.stack[m] == st.stack[m]);
            assert(stack_requires(after.stack, m, q, name));
        }
    }
}

proof fn lemma_pop_keeps_edge(st: ResolverView, a: Seq<char>, b: Seq<char>)
    requires
        st.stack.len() > 0,
        st.stack.last().next >= st.stack.last().release.dependencies.len(),
        edge(st.plan, st.stack, a, b),
    ensures
        edge(pop_frame(st).plan, pop_frame(st).stack, a, b),
{
    let after = pop_frame(st);
    let t = st.stack.len() - 1;
    let at = st.plan.len() as int;
    if exists|i: int, q: int| #[trigger] plan_requires(st.plan, i, q, b) && st.plan[i].name == a {
        let (i, q) = choose|i: int, q: int|
            #[trigger] plan_requires(st.plan, i, q, b) && st.plan[i].name == a;
        assert(after.plan[i] == st.plan[i]);
        assert(plan_requires(after.plan, i, q, b) && after.plan[i].name == a);
    } else {
        let (m, q) = choose|m: int, q: int|
            #[trigger] stack_requires(st.stack, m, q, b) && st.stack[m].name == a;
        if m == t {
            assert(after.plan[at].release == st.stack[t].release);
            assert(plan_requires(after.plan, at, q, b) && after.plan[at].name == a);
        } else {
            assert(after.stack[m] == st.stack[m]);
            assert(stack_requires(after.stack, m, q, b) && after.stack[m].name == a);
        }
    }
}

proof fn lemma_step_keeps_edge(st: ResolverView, a: Seq<char>, b: Seq<char>)
    requires
        st.stack.len() > 0,
        edge(st.plan, st.stack, a, b),
    ensures
        edge(step_frame(st).plan, step_frame(st).stack, a, b),
{
    let after = step_frame(st);
    lemma_step_frame(st);
    if exists|i: int, q: int| #[trigger] plan_requires(st.plan, i, q, b) && st.plan[i].name == a {
        let (i, q) = choose|i: int, q: int|
            #[trigger] plan_requires(st.plan, i, q, b) && st.plan[i].name == a;
        assert(plan_requires(after.plan, i, q, b) && after.plan[i].name == a);
    } else {
        let (m, q) = choose|m: int, q: int|
            #[trigger] stack_requires(st.stack, m, q, b) && st.stack[m].name == a;
        assert(after.stack[m].release == st.stack[m].release);
        assert(after.stack[m].name == st.stack[m].name);
        assert(stack_requires(after.stack, m, q, b) && after.stack[m].name == a);
    }
}

proof fn lemma_push_keeps_edge(st: ResolverView, frame: FrameView, a: Seq<char>, b: Seq<char>)
    requires
        edge(st.plan, st.stack, a, b),
    ensures
        edge(st.plan, st.stack.push(frame), a, b),
{
    let stack = st.stack.push(frame);
    if exists|i: int, q: int| #[trigger] plan_requires(st.plan, i, q, b) && st.plan[i].name == a {
    } else {
        let (m, q) = choose|m: int, q: int|
            #[trigger] stack_requires(st.stack, m, q, b) && st.stack[m].name == a;
        assert(stack[m] == st.stack[m]);
        assert(stack_requires(stack, m, q, b) && stack[m].name == a);
    }
}

proof fn lemma_pop_keeps_history(st: ResolverView)
    requires
        inv_provenance(st),
        st.pending is None,
        st.stack.len() > 0,
        st.stack.last().next >= st.stack.last().release.dependencies.len(),
    ensures
        inv_provenance(pop_frame(st)),
{
    let after = pop_frame(st);
    assert forall|k: int| 0 <= k < after.visited.len() implies asked_for(
        after,
        #[trigger] after.visited[k],
    ) by {
        assert(asked_for(st, st.visited[k]));
        lemma_pop_keeps_reasons(st, st.visited[k]);
    }
    assert(inv_chain(after)) by {
        assert forall|m: int| 0 <= m < after.stack.len() - 1 implies (
        #[trigger] after.stack[m]).next >= 1 && stack_requires(
            after.stack,
            m,
            after.stack[m].next - 1,
            after.stack[m + 1].name,
        ) by {
            assert(after.stack[m] == st.stack[m]);
            assert(after.stack[m + 1] == st.stack[m + 1]);
            assert(stack_requires(st.stack, m, st.stack[m].next - 1, st.stack[m + 1].name));
        }
    }
    if st.has_cycle {
        let walk = choose|walk: Seq<Seq<char>>| #[trigger] is_loop(st.plan, st.stack, walk);
        assert forall|j: int| 0 <= j < walk.len() - 1 implies edge(
            after.plan,
            after.stack,
            #[trigger] walk[j],
            walk[j + 1],
        ) by {
            lemma_pop_keeps_edge(st, walk[j], walk[j + 1]);
        }
        assert(is_loop(after.plan, after.stack, walk));
    }
}

proof fn lemma_step_keeps_history(st: ResolverView)
    requires
        inv_provenance(st),
        st.pending is None,
        st.stack.len() > 0,
        st.stack.last().next < st.stack.last().release.dependencies.len(),
    ensures
        inv_provenance(step_frame(st)),
{
    let after = step_frame(st);
    lemma_step_frame(st);
    assert forall|k: int| 0 <= k < after.visited.len() implies asked_for(
        after,
        #[trigger] after.visited[k],
    ) by {
        assert(asked_for(st, st.visited[k]));
        lemma_step_keeps_reasons(st, st.visited[k]);
    }
    assert(inv_chain(after)) by {
        assert forall|m: int| 0 <= m < after.stack.len() - 1 implies (
        #[trigger] after.stack[m]).next >= 1 && stack_requires(
            after.stack,
            m,
            after.stack[m].next - 1,
            after.stack[m + 1].name,
        ) by {
            assert(after.stack[m] == st.stack[m]);
            assert(after.stack[m + 1].name == st.stack[m + 1].name);
            assert(stack_requires(st.stack, m, st.stack[m].next - 1, st.stack[m + 1].name));
        }
    }
    if st.has_cycle {
        let walk = choose|walk: Seq<Seq<char>>| #[trigger] is_loop(st.plan, st.stack, walk);
        assert forall|j: int| 0 <= j < walk.len() - 1 implies edge(
            after.plan,
            after.stack,
            #[trigger] walk[j],
            walk[j + 1],
        ) by {
            lemma_step_keeps_edge(st, walk[j], walk[j + 1]);
        }
        assert(is_loop(after.plan, after.stack, walk));
    }
}

/// The mods in progress from one of them up to the top, followed by a
/// mod that the top one requires, form a walk.
proof fn lemma_stack_walk(st: ResolverView, from: int, target: Seq<char>)
    requires
        inv_chain(st),
        0 <= from < st.stack.len(),
        st.stack.last().next >= 1,
        stack_requires(st.stack, st.stack.len() - 1, st.stack.last().next - 1, target),
    ensures
        is_walk(
            st.plan,
            st.stack,
            Seq::new(
                (st.stack.len() - from + 1) as nat,
                |j: int|
                    if j < st.stack.len() - from {
                        st.stack[from + j].name
                    } else {
                        target
                    },
            ),
        ),
{
    let t = st.stack.len() - 1;
    let walk = Seq::new(
        (st.stack.len() - from + 1) as nat,
        |j: int|
            if j < st.stack.len() - from {
                st.stack[from + j].name
            } else {
                target
            },
    );
    assert forall|j: int| 0 <= j < walk.len() - 1 implies edge(
        st.plan,
        st.stack,
        #[trigger] walk[j],
        walk[j + 1],
    ) by {
        let m = from + j;
        if m < t {
            assert(st.stack[m].next >= 1);
            assert(stack_requires(st.stack, m, st.stack[m].next - 1, st.stack[m + 1].name));
            assert(walk[j + 1] == st.stack[m + 1].name);
        } else {
            assert(walk[j + 1] == target);
            assert(stack_requires(st.stack, t, st.stack.last().next - 1, target));
        }
    }
}

/// Meeting the name that the mod on top has just come to require keeps
/// what is known of how the resolver came to where it is.
proof fn lemma_met_keeps_history(st: ResolverView)
    requires
        inv(st),
        inv_provenance(st),
        st.pending is None,
        st.stack.len() > 0,
        st.stack.last().next < st.stack.last().release.dependencies.len(),
        is_required(st.stack.last().release, st.stack.last().next as int),
    ensures
        ({
            let dep = st.stack.last().release.dependencies[st.stack.last().next as int];
            match visit(step_frame(st), dep.name, dep.version_req) {
                Visit::Skip(after) => inv_provenance(after),
                Visit::Fetch(after) => inv_provenance(after),
                Visit::Conflict(_) => true,
            }
        }),
{
    let top = st.stack.last();
    let t = st.stack.len() - 1;
    let dep = top.release.dependencies[top.next as int];
    let next = step_frame(st);
    lemma_step_frame(st);
    lemma_step_keeps_history(st);
    lemma_visit_keeps(next, dep.name, dep.version_req);
    assert(stack_requires(next.stack, t, top.next as int, dep.name));
    assert(next.stack.last().next - 1 == top.next);
    let after = match visit(next, dep.name, dep.version_req) {
        Visit::Skip(a) => a,
        Visit::Fetch(a) => a,
        Visit::Conflict(_) => next,
    };
    if !(visit(next, dep.name, dep.version_req) is Conflict) {
        assert(after.plan == next.plan && after.stack == next.stack);
        assert forall|k: int| 0 <= k < after.visited.len() implies asked_for(
            after,
            #[trigger] after.visited[k],
        ) by {
            if k < next.visited.len() {
                assert(asked_for(next, next.visited[k]));
                assert(after.visited[k] == next.visited[k]);
            } else {
                assert(after.visited[k] == dep.name);
            }
        }
        assert(inv_chain(after)) by {
            assert forall|m: int| 0 <= m < after.stack.len() - 1 implies (
            #[trigger] after.stack[m]).next >= 1 && stack_requires(
                after.stack,
                m,
                after.stack[m].next - 1,
                after.stack[m + 1].name,
            ) by {
                assert(next.stack[m].next >= 1);
                assert(stack_requires(next.stack, m, next.stack[m].next - 1, next.stack[m + 1].name));
            }
        }
        if after.has_cycle {
            if next.has_cycle {
                let walk = choose|walk: Seq<Seq<char>>|
                    #[trigger] is_loop(next.plan, next.stack, walk);
                assert(is_loop(after.plan, after.stack, walk));
            } else {
                let from = choose|m: int|
                    0 <= m < next.stack.len() && (#[trigger] next.stack[m]).name == dep.name;
                lemma_stack_walk(next, from, dep.name);
                let walk = Seq::new(
                    (next.stack.len() - from + 1) as nat,
                    |j: int|
                        if j < next.stack.len() - from {
                            next.stack[from + j].name
                        } else {
                            dep.name
                        },
                );
                assert(walk[0] == next.stack[from].name);
                assert(walk[walk.len() - 1] == dep.name);
                assert(is_loop(after.plan, after.stack, walk));
            }
        }
    }
}

/// Taking a mod into progress keeps what is known of how the resolver
/// came to where it is.
pub proof fn lemma_push_traced(st: ResolverView, frame: FrameView)
    requires
        inv_provenance(st),
        st.pending matches Some(p) && p.name == frame.name,
        frame.next == 0,
    ensures
        inv_provenance(ResolverView { pending: None, stack: st.stack.push(frame), ..st }),
{
    let pushed = ResolverView { pending: None, stack: st.stack.push(frame), ..st };
    let t = st.stack.len() as int;
    assert forall|k: int| 0 <= k < pushed.visited.len() implies asked_for(
        pushed,
        #[trigger] pushed.visited[k],
    ) by {
        assert(asked_for(st, st.visited[k]));
        lemma_push_keeps_reasons(st, frame, st.visited[k]);
    }
    assert(inv_chain(pushed)) by {
        assert forall|m: int| 0 <= m < pushed.stack.len() - 1 implies (
        #[trigger] pushed.stack[m]).next >= 1 && stack_requires(
            pushed.stack,
            m,
            pushed.stack[m].next - 1,
            pushed.stack[m + 1].name,
        ) by {
            assert(pushed.stack[m] == st.stack[m]);
            if m + 1 < t {
                assert(pushed.stack[m + 1] == st.stack[m + 1]);
                assert(stack_requires(st.stack, m, st.stack[m].next - 1, st.stack[m + 1].name));
            } else {
                assert(pushed.stack[m + 1].name == frame.name);
                assert(stack_requires(st.stack, t - 1, st.stack.last().next - 1, frame.name));
            }
        }
    }
    if st.has_cycle {
        let walk = choose|walk: Seq<Seq<char>>| #[trigger] is_loop(st.plan, st.stack, walk);
        assert forall|j: int| 0 <= j < walk.len() - 1 implies edge(
            pushed.plan,
            pushed.stack,
            #[trigger] walk[j],
            walk[j + 1],
        ) by {
            lemma_push_keeps_edge(st, frame, walk[j], walk[j + 1]);
        }
        assert(is_loop(pushed.plan, pushed.stack, walk));
    }
}

/// Going on keeps what is known of how the resolver came to where it
/// is, and ends with a plan in which every mod has a reason and in which
/// a cycle that was found can be shown.
pub proof fn lemma_advance_traced(st: ResolverView)
    requires
        inv(st),
        inv_provenance(st),
        st.pending is None,
    ensures
        traced(advance(st), st.root),
    decreases remaining(st.stack),
{
    if st.stack.len() == 0 {
        assert forall|i: int| 0 <= i < st.plan.len() implies {
            let name = (#[trigger] st.plan[i]).name;
            name == st.root || exists|j: int, q: int| plan_requires(st.plan, j, q, name)
        } by {
            let name = st.plan[i].name;
            assert(fetchable(st, name));
            let k = choose|k: int| 0 <= k < st.visited.len() && st.visited[k] == name;
            assert(asked_for(st, st.visited[k]));
            assert(forall|m: int, q: int| !#[trigger] stack_requires(st.stack, m, q, name));
        }
        if st.has_cycle {
            let walk = choose|walk: Seq<Seq<char>>| #[trigger] is_loop(st.plan, st.stack, walk);
            assert(st.stack =~= Seq::<FrameView>::empty());
            assert(is_loop(st.plan, Seq::empty(), walk));
        }
    } else {
        let top = st.stack.last();
        if top.next >= top.release.dependencies.len() {
            lemma_pop_preserves(st);
            lemma_pop_keeps_history(st);
            lemma_advance_traced(pop_frame(st));
        } else {
            let dep = top.release.dependencies[top.next as int];
            let next = step_frame(st);
            assert(next.stack.drop_last() =~= st.stack.drop_last());
            assert(remaining(next.stack) < remaining(st.stack));
            lemma_step_frame(st);
            lemma_step_keeps_history(st);
            match dep.dep_type {
                DependencyType::Optional => {
                    lemma_pass_preserves(st);
                    lemma_advance_traced(next);
                },
                DependencyType::Incompatible => {
                    if !(st.installed.contains_key(dep.name) || planned(st.plan, dep.name)) {
                        lemma_pass_preserves(st);
                        lemma_advance_traced(next);
                    }
                },
                DependencyType::Required => {
                    lemma_required_preserves(st);
                    lemma_met_keeps_history(st);
                    lemma_visit_keeps(next, dep.name, dep.version_req);
                    match visit(next, dep.name, dep.version_req) {
                        Visit::Skip(after) => {
                            lemma_advance_traced(after);
                        },
                        Visit::Fetch(after) => {},
                        Visit::Conflict(e) => {},
                    }
                },
            }
        }
    }
}

/// A resolution begins with a reason for the one name it has met.
pub proof fn lemma_start_traced(
    root: Seq<char>,
    platform: Seq<char>,
    installed: Map<Seq<char>, Version>,
)
    ensures
        traced(start(root, platform, installed), root),
{
    let st0 = initial(root, platform, installed);
    match visit(st0, root, VersionConstraint::Any) {
        Visit::Skip(st) => {
            assert(st.plan.len() == 0);
            assert(st0.stack.len() == 0);
            assert(!st.has_cycle);
        },
        Visit::Fetch(st) => {
            assert(st.visited =~= seq![root]);
        },
        Visit::Conflict(e) => {},
    }
}

/// Whatever the catalog answers, what is known of how the resolver came
/// to where it is is kept.
pub proof fn lemma_supply_traced(st: ResolverView, fetched: Result<ModView, Seq<char>>)
    requires
        inv(st),
        inv_provenance(st),
        st.pending is Some,
    ensures
        traced(supply(st, fetched), st.root),
{
    let pending = st.pending.unwrap();
    match fetched {
        Err(_) => {},
        Ok(m) => match best_release(m.releases, Some(st.platform), pending.required) {
            None => {},
            Some(i) => {
                let frame = FrameView { name: pending.name, release: m.releases[i], next: 0 };
                let pushed = ResolverView { pending: None, stack: st.stack.push(frame), ..st };
                lemma_push_preserves(st, m.releases[i]);
                lemma_push_traced(st, frame);
                lemma_advance_traced(pushed);
            },
        },
    }
}

/// A resolution against the mods of a catalog keeps to its end what it
/// knows of how it came to where it is.
pub proof fn lemma_run_traced(
    p: ProgressView,
    root: Seq<char>,
    installed: Map<Seq<char>, Version>,
    catalog: Seq<ModView>,
)
    requires
        sound_progress(p, installed),
        traced(p, root),
    ensures
        run(p, catalog) matches Ok(result) ==> requested_only(result.to_download, root) && (
        result.has_cycle ==> plan_has_loop(result.to_download)) && (result.to_download.len() > 0
            ==> result.to_download.last().name == root),
    decreases run_measure(p, catalog),
{
    if let ProgressView::Fetch(st) = p {
        assert(awaits(st)) by {
            assert(pending_is(st, st.pending.unwrap().name));
        }
        let fetched = answer(catalog, st.pending.unwrap().name);
        lemma_run_step(st, catalog);
        lemma_supply_sound(st, fetched);
        lemma_supply_traced(st, fetched);
        lemma_run_traced(supply(st, fetched), root, installed, catalog);
    }
}

/// Every mod of a plan is the mod that was to be installed or is
/// required by a planned release. So a mod that releases name only as
/// optional or as incompatible is never planned.
pub proof fn lemma_resolve_plans_required_only(
    root: Seq<char>,
    platform: Seq<char>,
    installed: Map<Seq<char>, Version>,
    catalog: Seq<ModView>,
)
    ensures
        resolve_in(root, platform, installed, catalog) matches Ok(result) ==> requested_only(
            result.to_download,
            root,
        ),
{
    lemma_start_sound(root, platform, installed);
    lemma_start_traced(root, platform, installed);
    lemma_run_traced(start(root, platform, installed), root, installed, catalog);
}

/// Along a walk through a plan in which every release stands behind what
/// it requires, the places in the plan fall.
proof fn lemma_walk_descends(plan: Seq<PlanEntry>, walk: Seq<Seq<char>>, j: int)
    requires
        names_distinct(plan),
        dependency_first(plan),
        is_walk(plan, Seq::empty(), walk),
        0 <= j < walk.len() - 1,
        planned(plan, walk[walk.len() - 1]),
    ensures
        planned(plan, walk[j]),
        place_in(plan, walk[j]) >= place_in(plan, walk[walk.len() - 1]) + (walk.len() - 1 - j),
    decreases walk.len() - j,
{
    let last = walk.len() - 1;
    assert(edge(plan, Seq::empty(), walk[j], walk[j + 1]));
    let target = walk[j + 1];
    assert(forall|m: int, q: int|
        !#[trigger] stack_requires(Seq::<FrameView>::empty(), m, q, target));
    let (i, q) = choose|i: int, q: int|
        #[trigger] plan_requires(plan, i, q, walk[j + 1]) && plan[i].name == walk[j];
    assert(plan[i].name == walk[j]);
    lemma_place_in(plan, i);
    if j + 1 < last {
        lemma_walk_descends(plan, walk, j + 1);
    }
    let k = place_in(plan, walk[j + 1]);
    assert(planned(plan, walk[j + 1]));
    lemma_place_of_planned(plan, walk[j + 1]);
    assert(plan[k].name == plan[i].release.dependencies[q].name);
    assert(k < i);
}

/// The place of the mod `name` in `plan`.
pub open spec fn place_in(plan: Seq<PlanEntry>, name: Seq<char>) -> int {
    choose|i: int| 0 <= i < plan.len() && (#[trigger] plan[i]).name == name
}

proof fn lemma_place_of_planned(plan: Seq<PlanEntry>, name: Seq<char>)
    requires
        planned(plan, name),
    ensures
        0 <= place_in(plan, name) < plan.len(),
        plan[place_in(plan, name)].name == name,
{
}

proof fn lemma_place_in(plan: Seq<PlanEntry>, i: int)
    requires
        names_distinct(plan),
        0 <= i < plan.len(),
    ensures
        planned(plan, plan[i].name),
        place_in(plan, plan[i].name) == i,
{
    assert(plan[i].name == plan[i].name);
    let k = place_in(plan, plan[i].name);
    if k < i {
        assert(plan[k].name != plan[i].name);
    } else if i < k {
        assert(plan[i].name != plan[k].name);
    }
}

/// A plan in which every release stands behind what it requires has no
/// mod that requires itself by way of planned mods.
pub proof fn lemma_ordered_plan_has_no_loop(plan: Seq<PlanEntry>)
    requires
        names_distinct(plan),
        dependency_first(plan),
    ensures
        !plan_has_loop(plan),
{
    if plan_has_loop(plan) {
        let walk = choose|walk: Seq<Seq<char>>| #[trigger] is_loop(plan, Seq::empty(), walk);
        let last = walk.len() - 1;
        assert(edge(plan, Seq::empty(), walk[0], walk[1]));
        let target = walk[1];
        assert(forall|m: int, q: int|
            !#[trigger] stack_requires(Seq::<FrameView>::empty(), m, q, target));
        let (i, q) = choose|i: int, q: int|
            #[trigger] plan_requires(plan, i, q, walk[1]) && plan[i].name == walk[0];
        assert(plan[i].name == walk[0]);
        assert(planned(plan, walk[last]));
        lemma_walk_descends(plan, walk, 0);
    }
}

/// The plan that resolving a mod gives has a cycle exactly if one was
/// found.
pub proof fn lemma_cycle_found_iff_there_is_one(
    root: Seq<char>,
    platform: Seq<char>,
    installed: Map<Seq<char>, Version>,
    catalog: Seq<ModView>,
)
    ensures
        resolve_in(root, platform, installed, catalog) matches Ok(result) ==> (result.has_cycle
            <==> plan_has_loop(result.to_download)),
{
    lemma_start_sound(root, platform, installed);
    lemma_start_traced(root, platform, installed);
    lemma_run_traced(start(root, platform, installed), root, installed, catalog);
    lemma_run_sound(start(root, platform, installed), installed, catalog);
    if let Ok(result) = resolve_in(root, platform, installed, catalog) {
        if !result.has_cycle {
            lemma_ordered_plan_has_no_loop(result.to_download);
        }
    }
}

/// Dependency first: where no planned mod requires itself by way of
/// planned mods, every planned release stands behind the planned
/// releases of the mods that it requires.
pub proof fn lemma_resolve_is_dependency_first(
    root: Seq<char>,
    platform: Seq<char>,
    installed: Map<Seq<char>, Version>,
    catalog: Seq<ModView>,
)
    ensures
        resolve_in(root, platform, installed, catalog) matches Ok(result) ==> (!plan_has_loop(
            result.to_download,
        ) ==> dependency_first(result.to_download)),
{
    lemma_cycle_found_iff_there_is_one(root, platform, installed, catalog);
    lemma_start_sound(root, platform, installed);
    lemma_run_sound(start(root, platform, installed), installed, catalog);
}

/// A plan with a mod that requires itself by way of planned mods cannot
/// be dependency first, however it is ordered.
pub proof fn lemma_loop_breaks_order(plan: Seq<PlanEntry>)
    requires
        names_distinct(plan),
        plan_has_loop(plan),
    ensures
        !dependency_first(plan),
{
    if dependency_first(plan) {
        lemma_ordered_plan_has_no_loop(plan);
    }
}

/// Whether the mod `root` is at the bottom of what is in progress: as the
/// first mod in progress, or as the pending mod where none is.
pub open spec fn rooted(st: ResolverView, root: Seq<char>) -> bool {
    &&& st.root == root
    &&& st.stack.len() > 0 ==> st.stack[0].name == root
    &&& st.stack.len() == 0 ==> (st.pending matches Some(p) && p.name == root)
}

/// Whether a resolution of `root` that stands at `p` will plan `root`
/// last.
pub open spec fn ends_with_root(p: ProgressView, root: Seq<char>) -> bool {
    match p {
        ProgressView::Fetch(st) => rooted(st, root),
        ProgressView::Finished(result) => result.to_download.len() > 0
            && result.to_download.last().name == root,
        ProgressView::Failed(_) => true,
    }
}

/// Going on with the mod `root` at the bottom of what is in progress
/// plans `root` last.
pub proof fn lemma_advance_ends_with_root(st: ResolverView)
    requires
        st.stack.len() > 0,
        st.stack[0].name == st.root,
    ensures
        ends_with_root(advance(st), st.root),
    decreases remaining(st.stack),
{
    let top = st.stack.last();
    if top.next >= top.release.dependencies.len() {
        let after = pop_frame(st);
        if after.stack.len() > 0 {
            assert(after.stack[0] == st.stack[0]);
            lemma_advance_ends_with_root(after);
        } else {
            assert(after.plan.last().name == st.stack[0].name);
        }
    } else {
        let dep = top.release.dependencies[top.next as int];
        let next = step_frame(st);
        assert(next.stack.drop_last() =~= st.stack.drop_last());
        assert(remaining(next.stack) < remaining(st.stack));
        lemma_step_frame(st);
        assert(next.stack[0].name == st.stack[0].name);
        match dep.dep_type {
            DependencyType::Optional => {
                lemma_advance_ends_with_root(next);
            },
            DependencyType::Incompatible => {
                if !(st.installed.contains_key(dep.name) || planned(st.plan, dep.name)) {
                    lemma_advance_ends_with_root(next);
                }
            },
            DependencyType::Required => {
                lemma_visit_keeps(next, dep.name, dep.version_req);
                match visit(next, dep.name, dep.version_req) {
                    Visit::Skip(after) => {
                        lemma_advance_ends_with_root(after);
                    },
                    Visit::Fetch(after) => {},
                    Visit::Conflict(e) => {},
                }
            },
        }
    }
}

/// A resolution of `root` against the mods of a catalog plans `root`
/// last, once it has had to ask for it.
pub proof fn lemma_run_ends_with_root(
    p: ProgressView,
    root: Seq<char>,
    installed: Map<Seq<char>, Version>,
    catalog: Seq<ModView>,
)
    requires
        sound_progress(p, installed),
        ends_with_root(p, root),
    ensures
        run(p, catalog) matches Ok(result) ==> result.to_download.len() > 0
            && result.to_download.last().name == root,
    decreases run_measure(p, catalog),
{
    if let ProgressView::Fetch(st) = p {
        assert(awaits(st)) by {
            assert(pending_is(st, st.pending.unwrap().name));
        }
        let pending = st.pending.unwrap();
        let fetched = answer(catalog, pending.name);
        lemma_run_step(st, catalog);
        lemma_supply_sound(st, fetched);
        if let Ok(m) = fetched {
            if let Some(i) = best_release(m.releases, Some(st.platform), pending.required) {
                let frame = FrameView { name: pending.name, release: m.releases[i], next: 0 };
                let pushed = ResolverView { pending: None, stack: st.stack.push(frame), ..st };
                if st.stack.len() > 0 {
                    assert(pushed.stack[0] == st.stack[0]);
                } else {
                    assert(pushed.stack[0] == frame);
                }
                lemma_advance_ends_with_root(pushed);
            }
        }
        lemma_run_ends_with_root(supply(st, fetched), root, installed, catalog);
    }
}

/// The mod that was to be installed is planned last. Nothing at all is
/// planned exactly where it is the game itself or installed already.
pub proof fn lemma_resolve_plans_root_last(
    root: Seq<char>,
    platform: Seq<char>,
    installed: Map<Seq<char>, Version>,
    catalog: Seq<ModView>,
)
    ensures
        resolve_in(root, platform, installed, catalog) matches Ok(result) ==> (if root
            == crate::resolver::model::base_name() || installed.contains_key(root) {
            result.to_download.len() == 0
        } else {
            result.to_download.len() > 0 && result.to_download.last().name == root
        }),
{
    lemma_start_sound(root, platform, installed);
    let begin = start(root, platform, installed);
    if !(root == crate::resolver::model::base_name() || installed.contains_key(root)) {
        assert(begin is Fetch);
        lemma_run_ends_with_root(begin, root, installed, catalog);
    }
}

} // verus!

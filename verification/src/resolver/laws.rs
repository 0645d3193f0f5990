//! What holds of every state that the resolver can reach, and of every
//! plan that it hands over.

use vstd::prelude::*;
use crate::catalog::{best_release, ModView, ReleaseView};
use crate::constraint::VersionConstraint;
use crate::dependency::DependencyType;
use crate::resolver::model::{
    advance, base_name, in_progress, initial, planned, pop_frame, remaining, start, step_frame,
    supply, visit, FrameView, PendingView, PlanEntry, ProgressView, ResolveErrorView,
    ResolveResultView, ResolverView, Visit,
};
use crate::version::Version;

verus! {

/// Whether the `q`-th dependency of `release` is a required one.
pub open spec fn is_required(release: ReleaseView, q: int) -> bool {
    0 <= q < release.dependencies.len() && release.dependencies[q].dep_type
        == DependencyType::Required
}

/// Whether `name` is a mod that the resolver had to ask for: it was met,
/// it is not the game itself, and it is not installed.
pub open spec fn fetchable(st: ResolverView, name: Seq<char>) -> bool {
    st.visited.contains(name) && name != base_name() && !st.installed.contains_key(name)
}

/// Whether `name` is the mod that is being asked for.
pub open spec fn pending_is(st: ResolverView, name: Seq<char>) -> bool {
    st.pending matches Some(p) && p.name == name
}

/// No frame has gone beyond its last dependency.
pub open spec fn inv_frames(st: ResolverView) -> bool {
    forall|m: int|
        0 <= m < st.stack.len() ==> (#[trigger] st.stack[m]).next
            <= st.stack[m].release.dependencies.len()
}

/// No mod is planned twice, in progress twice, or both, and the pending
/// mod is neither.
pub open spec fn inv_distinct(st: ResolverView) -> bool {
    &&& forall|i: int, j: int|
        0 <= i < j < st.plan.len() ==> (#[trigger] st.plan[i]).name != (#[trigger] st.plan[j]).name
    &&& forall|m: int, n: int|
        0 <= m < n < st.stack.len() ==> (#[trigger] st.stack[m]).name != (
        #[trigger] st.stack[n]).name
    &&& forall|i: int, m: int|
        0 <= i < st.plan.len() && 0 <= m < st.stack.len() ==> (#[trigger] st.plan[i]).name != (
        #[trigger] st.stack[m]).name
    &&& forall|i: int|
        0 <= i < st.plan.len() ==> !pending_is(st, (#[trigger] st.plan[i]).name)
    &&& forall|m: int|
        0 <= m < st.stack.len() ==> !pending_is(st, (#[trigger] st.stack[m]).name)
}

/// Every mod that is planned, in progress or pending had to be asked for.
pub open spec fn inv_fetched(st: ResolverView) -> bool {
    &&& forall|i: int| 0 <= i < st.plan.len() ==> fetchable(st, (#[trigger] st.plan[i]).name)
    &&& forall|m: int| 0 <= m < st.stack.len() ==> fetchable(st, (#[trigger] st.stack[m]).name)
    &&& st.pending matches Some(p) ==> fetchable(st, p.name)
}

/// Every name that was met is accounted for: it is installed, planned, in
/// progress or pending.
pub open spec fn inv_visited(st: ResolverView) -> bool {
    forall|k: int|
        0 <= k < st.visited.len() ==> {
            let name = #[trigger] st.visited[k];
            st.installed.contains_key(name) || planned(st.plan, name) || in_progress(
                st.stack,
                name,
            ) || pending_is(st, name)
        }
}

/// Every required dependency that was dealt with is the game itself or a
/// name that was met.
pub open spec fn inv_closure(st: ResolverView) -> bool {
    &&& forall|i: int, q: int|
        0 <= i < st.plan.len() && is_required(st.plan[i].release, q) ==> {
            let name = (#[trigger] st.plan[i].release.dependencies[q]).name;
            name == base_name() || st.visited.contains(name)
        }
    &&& forall|m: int, q: int|
        0 <= m < st.stack.len() && is_required(st.stack[m].release, q) && q < st.stack[m].next
            ==> {
            let name = (#[trigger] st.stack[m].release.dependencies[q]).name;
            name == base_name() || st.visited.contains(name)
        }
}

/// As long as no cycle was found, what a planned release requires stands
/// before it in the plan, and nothing that was dealt with requires a mod
/// that is still in progress below it or about to be.
pub open spec fn inv_order(st: ResolverView) -> bool {
    !st.has_cycle ==> {
        &&& forall|i: int, q: int, k: int|
            0 <= i < st.plan.len() && is_required(st.plan[i].release, q) && 0 <= k < st.plan.len()
                && (#[trigger] st.plan[k]).name == (
            #[trigger] st.plan[i].release.dependencies[q]).name ==> k < i
        &&& forall|i: int, q: int, m: int|
            0 <= i < st.plan.len() && is_required(st.plan[i].release, q) && 0 <= m
                < st.stack.len() ==> (#[trigger] st.stack[m]).name != (
            #[trigger] st.plan[i].release.dependencies[q]).name
        &&& forall|i: int, q: int|
            0 <= i < st.plan.len() && is_required(st.plan[i].release, q) ==> !pending_is(
                st,
                (#[trigger] st.plan[i].release.dependencies[q]).name,
            )
        &&& forall|m: int, q: int, n: int|
            0 <= n <= m < st.stack.len() && is_required(st.stack[m].release, q) && q
                < st.stack[m].next ==> (#[trigger] st.stack[n]).name != (
            #[trigger] st.stack[m].release.dependencies[q]).name
    }
}

/// What holds of every state that the resolver can reach.
pub open spec fn inv(st: ResolverView) -> bool {
    &&& inv_frames(st)
    &&& inv_distinct(st)
    &&& inv_fetched(st)
    &&& inv_visited(st)
    &&& inv_closure(st)
    &&& inv_order(st)
}

/// Where a frame's dependencies are all dealt with, the frame can go to
/// the plan.
pub proof fn lemma_pop_preserves(st: ResolverView)
    requires
        inv(st),
        st.pending is None,
        st.stack.len() > 0,
        st.stack.last().next >= st.stack.last().release.dependencies.len(),
    ensures
        inv(pop_frame(st)),
        pop_frame(st).pending is None,
{
    let after = pop_frame(st);
    let t = st.stack.len() - 1;
    let top = st.stack[t];
    let at = st.plan.len() as int;
    assert(after.plan[at].name == top.name);
    assert(after.plan[at].release == top.release);
    assert(forall|i: int| 0 <= i < at ==> after.plan[i] == st.plan[i]);
    assert(forall|m: int| 0 <= m < t ==> after.stack[m] == st.stack[m]);
    assert(inv_frames(after));
    assert(inv_distinct(after)) by {
        assert forall|i: int, j: int| 0 <= i < j < after.plan.len() implies (
        #[trigger] after.plan[i]).name != (#[trigger] after.plan[j]).name by {
            if j == at {
                assert(st.plan[i].name != st.stack[t].name);
            }
        }
        assert forall|i: int, m: int|
            0 <= i < after.plan.len() && 0 <= m < after.stack.len() implies (
        #[trigger] after.plan[i]).name != (#[trigger] after.stack[m]).name by {
            if i == at {
                assert(st.stack[m].name != st.stack[t].name);
            } else {
                assert(st.plan[i].name != st.stack[m].name);
            }
        }
    }
    assert(inv_fetched(after)) by {
        assert forall|i: int| 0 <= i < after.plan.len() implies fetchable(
            after,
            (#[trigger] after.plan[i]).name,
        ) by {
            if i == at {
                assert(fetchable(st, st.stack[t].name));
            } else {
                assert(fetchable(st, st.plan[i].name));
            }
        }
        assert forall|m: int| 0 <= m < after.stack.len() implies fetchable(
            after,
            (#[trigger] after.stack[m]).name,
        ) by {
            assert(fetchable(st, st.stack[m].name));
        }
    }
    assert(inv_visited(after)) by {
        assert forall|k: int| 0 <= k < after.visited.len() implies {
            let name = #[trigger] after.visited[k];
            after.installed.contains_key(name) || planned(after.plan, name) || in_progress(
                after.stack,
                name,
            ) || pending_is(after, name)
        } by {
            let name = st.visited[k];
            if planned(st.plan, name) {
                let i = choose|i: int| 0 <= i < st.plan.len() && (#[trigger] st.plan[i]).name == name;
                assert(after.plan[i].name == name);
            } else if in_progress(st.stack, name) {
                let m = choose|m: int|
                    0 <= m < st.stack.len() && (#[trigger] st.stack[m]).name == name;
                if m == t {
                    assert(after.plan[at].name == name);
                } else {
                    assert(after.stack[m].name == name);
                }
            }
        }
    }
    assert(inv_closure(after)) by {
        assert forall|i: int, q: int|
            0 <= i < after.plan.len() && is_required(after.plan[i].release, q) implies {
            let name = (#[trigger] after.plan[i].release.dependencies[q]).name;
            name == base_name() || after.visited.contains(name)
        } by {
            if i == at {
                let name = st.stack[t].release.dependencies[q].name;
                assert(name == base_name() || st.visited.contains(name));
            } else {
                let name = st.plan[i].release.dependencies[q].name;
                assert(name == base_name() || st.visited.contains(name));
            }
        }
        assert forall|m: int, q: int|
            0 <= m < after.stack.len() && is_required(after.stack[m].release, q) && q
                < after.stack[m].next implies {
            let name = (#[trigger] after.stack[m].release.dependencies[q]).name;
            name == base_name() || after.visited.contains(name)
        } by {
            let name = st.stack[m].release.dependencies[q].name;
            assert(name == base_name() || st.visited.contains(name));
        }
    }
    assert(inv_order(after)) by {
        if !after.has_cycle {
            assert forall|i: int, q: int, k: int|
                0 <= i < after.plan.len() && is_required(after.plan[i].release, q) && 0 <= k
                    < after.plan.len() && (#[trigger] after.plan[k]).name == (
                #[trigger] after.plan[i].release.dependencies[q]).name implies k < i by {
                if i == at {
                    if k == at {
                        assert(st.stack[t].name != st.stack[t].release.dependencies[q].name);
                    }
                } else {
                    if k == at {
                        assert(st.stack[t].name != st.plan[i].release.dependencies[q].name);
                    } else {
                        assert(st.plan[k].name == st.plan[i].release.dependencies[q].name);
                    }
                }
            }
            assert forall|i: int, q: int, m: int|
                0 <= i < after.plan.len() && is_required(after.plan[i].release, q) && 0 <= m
                    < after.stack.len() implies (#[trigger] after.stack[m]).name != (
            #[trigger] after.plan[i].release.dependencies[q]).name by {
                if i == at {
                    assert(st.stack[m].name != st.stack[t].release.dependencies[q].name);
                } else {
                    assert(st.stack[m].name != st.plan[i].release.dependencies[q].name);
                }
            }
            assert forall|m: int, q: int, n: int|
                0 <= n <= m < after.stack.len() && is_required(after.stack[m].release, q) && q
                    < after.stack[m].next implies (#[trigger] after.stack[n]).name != (
            #[trigger] after.stack[m].release.dependencies[q]).name by {
                assert(st.stack[n].name != st.stack[m].release.dependencies[q].name);
            }
        }
    }
}

/// Taking up a dependency changes nothing but how far the topmost frame
/// has come.
pub proof fn lemma_step_frame(st: ResolverView)
    requires
        st.stack.len() > 0,
    ensures
        step_frame(st).stack.len() == st.stack.len(),
        forall|m: int| 0 <= m < st.stack.len() - 1 ==> step_frame(st).stack[m] == st.stack[m],
        step_frame(st).stack.last().name == st.stack.last().name,
        step_frame(st).stack.last().release == st.stack.last().release,
        step_frame(st).stack.last().next == st.stack.last().next + 1,
        forall|name: Seq<char>|
            in_progress(step_frame(st).stack, name) <==> in_progress(st.stack, name),
{
    let after = step_frame(st);
    assert forall|name: Seq<char>| in_progress(after.stack, name) <==> in_progress(
        st.stack,
        name,
    ) by {
        if in_progress(after.stack, name) {
            let m = choose|m: int|
                0 <= m < after.stack.len() && (#[trigger] after.stack[m]).name == name;
            assert(st.stack[m].name == name);
        }
        if in_progress(st.stack, name) {
            let m = choose|m: int| 0 <= m < st.stack.len() && (#[trigger] st.stack[m]).name == name;
            assert(after.stack[m].name == name);
        }
    }
}

/// A dependency that is not a required one can be passed over.
pub proof fn lemma_pass_preserves(st: ResolverView)
    requires
        inv(st),
        st.pending is None,
        st.stack.len() > 0,
        st.stack.last().next < st.stack.last().release.dependencies.len(),
        !is_required(st.stack.last().release, st.stack.last().next as int),
    ensures
        inv(step_frame(st)),
        step_frame(st).pending is None,
{
    let after = step_frame(st);
    let t = st.stack.len() - 1;
    lemma_step_frame(st);
    assert(forall|m: int| 0 <= m < st.stack.len() ==> after.stack[m].name == st.stack[m].name);
    assert(forall|m: int|
        0 <= m < st.stack.len() ==> after.stack[m].release == st.stack[m].release);
    assert(inv_frames(after));
    assert(inv_distinct(after)) by {
        assert forall|m: int, n: int| 0 <= m < n < after.stack.len() implies (
        #[trigger] after.stack[m]).name != (#[trigger] after.stack[n]).name by {
            assert(st.stack[m].name != st.stack[n].name);
        }
        assert forall|i: int, m: int|
            0 <= i < after.plan.len() && 0 <= m < after.stack.len() implies (
        #[trigger] after.plan[i]).name != (#[trigger] after.stack[m]).name by {
            assert(st.plan[i].name != st.stack[m].name);
        }
    }
    assert(inv_fetched(after)) by {
        assert forall|m: int| 0 <= m < after.stack.len() implies fetchable(
            after,
            (#[trigger] after.stack[m]).name,
        ) by {
            assert(fetchable(st, st.stack[m].name));
        }
    }
    assert(inv_visited(after));
    assert(inv_closure(after)) by {
        assert forall|m: int, q: int|
            0 <= m < after.stack.len() && is_required(after.stack[m].release, q) && q
                < after.stack[m].next implies {
            let name = (#[trigger] after.stack[m].release.dependencies[q]).name;
            name == base_name() || after.visited.contains(name)
        } by {
            let name = st.stack[m].release.dependencies[q].name;
            assert(q < st.stack[m].next);
            assert(name == base_name() || st.visited.contains(name));
        }
    }
    assert(inv_order(after)) by {
        if !after.has_cycle {
            assert forall|i: int, q: int, m: int|
                0 <= i < after.plan.len() && is_required(after.plan[i].release, q) && 0 <= m
                    < after.stack.len() implies (#[trigger] after.stack[m]).name != (
            #[trigger] after.plan[i].release.dependencies[q]).name by {
                assert(st.stack[m].name != st.plan[i].release.dependencies[q].name);
            }
            assert forall|m: int, q: int, n: int|
                0 <= n <= m < after.stack.len() && is_required(after.stack[m].release, q) && q
                    < after.stack[m].next implies (#[trigger] after.stack[n]).name != (
            #[trigger] after.stack[m].release.dependencies[q]).name by {
                assert(q < st.stack[m].next);
                assert(st.stack[n].name != st.stack[m].release.dependencies[q].name);
            }
        }
    }
}

/// Meeting a name changes neither the plan nor the stack, and only ever
/// adds the name to those that were met.
pub proof fn lemma_visit_keeps(st: ResolverView, name: Seq<char>, required: VersionConstraint)
    ensures
        match visit(st, name, required) {
            Visit::Skip(after) => after.plan == st.plan && after.stack == st.stack
                && after.pending == st.pending && after.installed == st.installed && after.root
                == st.root && after.platform == st.platform && (after.visited == st.visited
                || after.visited == st.visited.push(name)),
            Visit::Fetch(after) => after.plan == st.plan && after.stack == st.stack
                && after.installed == st.installed && after.root == st.root && after.platform
                == st.platform && after.has_cycle == st.has_cycle && after.visited
                == st.visited.push(name) && !st.visited.contains(name) && after.pending == Some(
                PendingView { name, required },
            ),
            Visit::Conflict(_) => true,
        },
{
}

/// A required dependency can be taken up: whatever meeting its name
/// leads to, the state that results is one that the resolver can be in.
pub proof fn lemma_required_preserves(st: ResolverView)
    requires
        inv(st),
        st.pending is None,
        st.stack.len() > 0,
        st.stack.last().next < st.stack.last().release.dependencies.len(),
        is_required(st.stack.last().release, st.stack.last().next as int),
    ensures
        ({
            let dep = st.stack.last().release.dependencies[st.stack.last().next as int];
            match visit(step_frame(st), dep.name, dep.version_req) {
                Visit::Skip(after) => inv(after) && after.pending is None,
                Visit::Fetch(after) => inv(after) && after.pending is Some,
                Visit::Conflict(_) => true,
            }
        }),
{
    let t = st.stack.len() - 1;
    let top = st.stack[t];
    let dep = top.release.dependencies[top.next as int];
    let mid = step_frame(st);
    lemma_step_frame(st);
    lemma_visit_keeps(mid, dep.name, dep.version_req);
    let after = match visit(mid, dep.name, dep.version_req) {
        Visit::Skip(a) => a,
        Visit::Fetch(a) => a,
        Visit::Conflict(_) => st,
    };
    if !(visit(mid, dep.name, dep.version_req) is Conflict) {
        assert(after.plan == st.plan);
        assert(after.stack == mid.stack);
        assert(forall|m: int| 0 <= m < st.stack.len() ==> after.stack[m].name == st.stack[m].name);
        assert(forall|m: int|
            0 <= m < st.stack.len() ==> after.stack[m].release == st.stack[m].release);
        assert(forall|name: Seq<char>| st.visited.contains(name) ==> after.visited.contains(name))
            by {
            assert forall|name: Seq<char>| st.visited.contains(name) implies after.visited.contains(
                name,
            ) by {
                let k = choose|k: int| 0 <= k < st.visited.len() && st.visited[k] == name;
                assert(after.visited[k] == name);
            }
        }
        let fresh = after.visited != st.visited;
        if fresh {
            assert(after.visited == st.visited.push(dep.name));
            assert(after.visited[st.visited.len() as int] == dep.name);
            assert(after.visited.contains(dep.name));
            assert(!st.visited.contains(dep.name));
        }
        assert(inv_frames(after));
        assert(inv_distinct(after)) by {
            assert forall|m: int, n: int| 0 <= m < n < after.stack.len() implies (
            #[trigger] after.stack[m]).name != (#[trigger] after.stack[n]).name by {
                assert(st.stack[m].name != st.stack[n].name);
            }
            assert forall|i: int, m: int|
                0 <= i < after.plan.len() && 0 <= m < after.stack.len() implies (
            #[trigger] after.plan[i]).name != (#[trigger] after.stack[m]).name by {
                assert(st.plan[i].name != st.stack[m].name);
            }
            assert forall|i: int| 0 <= i < after.plan.len() implies !pending_is(
                after,
                (#[trigger] after.plan[i]).name,
            ) by {
                assert(fetchable(st, st.plan[i].name));
            }
            assert forall|m: int| 0 <= m < after.stack.len() implies !pending_is(
                after,
                (#[trigger] after.stack[m]).name,
            ) by {
                assert(fetchable(st, st.stack[m].name));
            }
        }
        assert(inv_fetched(after)) by {
            assert forall|i: int| 0 <= i < after.plan.len() implies fetchable(
                after,
                (#[trigger] after.plan[i]).name,
            ) by {
                assert(fetchable(st, st.plan[i].name));
            }
            assert forall|m: int| 0 <= m < after.stack.len() implies fetchable(
                after,
                (#[trigger] after.stack[m]).name,
            ) by {
                assert(fetchable(st, st.stack[m].name));
            }
        }
        assert(inv_visited(after)) by {
            assert forall|k: int| 0 <= k < after.visited.len() implies {
                let name = #[trigger] after.visited[k];
                after.installed.contains_key(name) || planned(after.plan, name) || in_progress(
                    after.stack,
                    name,
                ) || pending_is(after, name)
            } by {
                if k < st.visited.len() {
                    let name = st.visited[k];
                    assert(after.visited[k] == name);
                    assert(st.installed.contains_key(name) || planned(st.plan, name)
                        || in_progress(st.stack, name));
                }
            }
        }
        assert(inv_closure(after)) by {
            assert forall|i: int, q: int|
                0 <= i < after.plan.len() && is_required(after.plan[i].release, q) implies {
                let name = (#[trigger] after.plan[i].release.dependencies[q]).name;
                name == base_name() || after.visited.contains(name)
            } by {
                let name = st.plan[i].release.dependencies[q].name;
                assert(name == base_name() || st.visited.contains(name));
            }
            assert forall|m: int, q: int|
                0 <= m < after.stack.len() && is_required(after.stack[m].release, q) && q
                    < after.stack[m].next implies {
                let name = (#[trigger] after.stack[m].release.dependencies[q]).name;
                name == base_name() || after.visited.contains(name)
            } by {
                let name = st.stack[m].release.dependencies[q].name;
                if m == t && q == top.next {
                    assert(name == dep.name);
                } else {
                    assert(q < st.stack[m].next);
                    assert(name == base_name() || st.visited.contains(name));
                }
            }
        }
        assert(inv_order(after)) by {
            if !after.has_cycle {
                assert(!st.has_cycle);
                assert forall|i: int, q: int, m: int|
                    0 <= i < after.plan.len() && is_required(after.plan[i].release, q) && 0 <= m
                        < after.stack.len() implies (#[trigger] after.stack[m]).name != (
                #[trigger] after.plan[i].release.dependencies[q]).name by {
                    assert(st.stack[m].name != st.plan[i].release.dependencies[q].name);
                }
                assert forall|i: int, q: int|
                    0 <= i < after.plan.len() && is_required(after.plan[i].release, q)
                    implies !pending_is(
                    after,
                    (#[trigger] after.plan[i].release.dependencies[q]).name,
                ) by {
                    let name = st.plan[i].release.dependencies[q].name;
                    assert(name == base_name() || st.visited.contains(name));
                }
                assert forall|m: int, q: int, n: int|
                    0 <= n <= m < after.stack.len() && is_required(after.stack[m].release, q) && q
                        < after.stack[m].next implies (#[trigger] after.stack[n]).name != (
                #[trigger] after.stack[m].release.dependencies[q]).name by {
                    if m == t && q == top.next {
                        assert(fetchable(st, st.stack[n].name));
                        if dep.name != base_name() && !fresh {
                            assert(!in_progress(mid.stack, dep.name));
                            assert(mid.stack[n].name == st.stack[n].name);
                        }
                    } else {
                        assert(q < st.stack[m].next);
                        assert(st.stack[n].name != st.stack[m].release.dependencies[q].name);
                    }
                }
            }
        }
    }
}

/// Once the catalog has answered with a release for the pending mod, the
/// mod can be taken into progress.
pub proof fn lemma_push_preserves(st: ResolverView, release: ReleaseView)
    requires
        inv(st),
        st.pending is Some,
    ensures
        ({
            let after = ResolverView {
                pending: None,
                stack: st.stack.push(
                    FrameView { name: st.pending.unwrap().name, release, next: 0 },
                ),
                ..st
            };
            inv(after)
        }),
{
    let name = st.pending.unwrap().name;
    let after = ResolverView {
        pending: None,
        stack: st.stack.push(FrameView { name, release, next: 0 }),
        ..st
    };
    let t = st.stack.len() as int;
    assert(pending_is(st, name));
    assert(forall|m: int| 0 <= m < t ==> after.stack[m] == st.stack[m]);
    assert(after.stack[t].name == name);
    assert(inv_frames(after));
    assert(inv_distinct(after)) by {
        assert forall|m: int, n: int| 0 <= m < n < after.stack.len() implies (
        #[trigger] after.stack[m]).name != (#[trigger] after.stack[n]).name by {
            if n == t {
                assert(!pending_is(st, st.stack[m].name));
            } else {
                assert(st.stack[m].name != st.stack[n].name);
            }
        }
        assert forall|i: int, m: int|
            0 <= i < after.plan.len() && 0 <= m < after.stack.len() implies (
        #[trigger] after.plan[i]).name != (#[trigger] after.stack[m]).name by {
            if m == t {
                assert(!pending_is(st, st.plan[i].name));
            } else {
                assert(st.plan[i].name != st.stack[m].name);
            }
        }
    }
    assert(inv_fetched(after)) by {
        assert forall|i: int| 0 <= i < after.plan.len() implies fetchable(
            after,
            (#[trigger] after.plan[i]).name,
        ) by {
            assert(fetchable(st, st.plan[i].name));
        }
        assert forall|m: int| 0 <= m < after.stack.len() implies fetchable(
            after,
            (#[trigger] after.stack[m]).name,
        ) by {
            if m < t {
                assert(fetchable(st, st.stack[m].name));
            }
        }
    }
    assert(inv_visited(after)) by {
        assert forall|k: int| 0 <= k < after.visited.len() implies {
            let name = #[trigger] after.visited[k];
            after.installed.contains_key(name) || planned(after.plan, name) || in_progress(
                after.stack,
                name,
            ) || pending_is(after, name)
        } by {
            let met = st.visited[k];
            if in_progress(st.stack, met) {
                let m = choose|m: int|
                    0 <= m < st.stack.len() && (#[trigger] st.stack[m]).name == met;
                assert(after.stack[m].name == met);
            } else if pending_is(st, met) {
                assert(after.stack[t].name == met);
            }
        }
    }
    assert(inv_closure(after)) by {
        assert forall|m: int, q: int|
            0 <= m < after.stack.len() && is_required(after.stack[m].release, q) && q
                < after.stack[m].next implies {
            let name = (#[trigger] after.stack[m].release.dependencies[q]).name;
            name == base_name() || after.visited.contains(name)
        } by {
            let name = st.stack[m].release.dependencies[q].name;
            assert(name == base_name() || st.visited.contains(name));
        }
    }
    assert(inv_order(after)) by {
        if !after.has_cycle {
            assert forall|i: int, q: int, m: int|
                0 <= i < after.plan.len() && is_required(after.plan[i].release, q) && 0 <= m
                    < after.stack.len() implies (#[trigger] after.stack[m]).name != (
            #[trigger] after.plan[i].release.dependencies[q]).name by {
                if m == t {
                    assert(!pending_is(st, st.plan[i].release.dependencies[q].name));
                } else {
                    assert(st.stack[m].name != st.plan[i].release.dependencies[q].name);
                }
            }
            assert forall|m: int, q: int, n: int|
                0 <= n <= m < after.stack.len() && is_required(after.stack[m].release, q) && q
                    < after.stack[m].next implies (#[trigger] after.stack[n]).name != (
            #[trigger] after.stack[m].release.dependencies[q]).name by {
                assert(st.stack[n].name != st.stack[m].release.dependencies[q].name);
            }
        }
    }
}

/// No mod is planned twice.
pub open spec fn names_distinct(plan: Seq<PlanEntry>) -> bool {
    forall|i: int, j: int|
        0 <= i < j < plan.len() ==> (#[trigger] plan[i]).name != (#[trigger] plan[j]).name
}

/// Every planned release stands behind the planned releases of the mods
/// that it requires.
pub open spec fn dependency_first(plan: Seq<PlanEntry>) -> bool {
    forall|i: int, q: int, k: int|
        0 <= i < plan.len() && is_required(plan[i].release, q) && 0 <= k < plan.len() && (
        #[trigger] plan[k]).name == (#[trigger] plan[i].release.dependencies[q]).name ==> k < i
}

/// Whatever a planned release requires is the game itself, installed, or
/// planned too.
pub open spec fn requirements_met(plan: Seq<PlanEntry>, installed: Map<Seq<char>, Version>) -> bool {
    forall|i: int, q: int|
        0 <= i < plan.len() && is_required(plan[i].release, q) ==> {
            let name = (#[trigger] plan[i].release.dependencies[q]).name;
            name == base_name() || installed.contains_key(name) || planned(plan, name)
        }
}

/// Neither the game itself nor an installed mod is planned.
pub open spec fn only_missing_mods(plan: Seq<PlanEntry>, installed: Map<Seq<char>, Version>) -> bool {
    forall|i: int|
        0 <= i < plan.len() ==> (#[trigger] plan[i]).name != base_name()
            && !installed.contains_key(plan[i].name)
}

/// What holds of every plan that the resolver hands over.
pub open spec fn sound(result: ResolveResultView, installed: Map<Seq<char>, Version>) -> bool {
    &&& names_distinct(result.to_download)
    &&& only_missing_mods(result.to_download, installed)
    &&& requirements_met(result.to_download, installed)
    &&& !result.has_cycle ==> dependency_first(result.to_download)
}

/// What holds of wherever the resolver stands after a step that began
/// with `installed` installed.
pub open spec fn sound_progress(p: ProgressView, installed: Map<Seq<char>, Version>) -> bool {
    match p {
        ProgressView::Fetch(st) => inv(st) && st.pending is Some && st.installed == installed,
        ProgressView::Finished(result) => sound(result, installed),
        ProgressView::Failed(_) => true,
    }
}

/// A state with nothing in progress and nothing pending holds a sound
/// plan.
pub proof fn lemma_finished_sound(st: ResolverView)
    requires
        inv(st),
        st.pending is None,
        st.stack.len() == 0,
    ensures
        sound(
            ResolveResultView { to_download: st.plan, has_cycle: st.has_cycle },
            st.installed,
        ),
{
    let plan = st.plan;
    assert(only_missing_mods(plan, st.installed)) by {
        assert forall|i: int| 0 <= i < plan.len() implies (#[trigger] plan[i]).name != base_name()
            && !st.installed.contains_key(plan[i].name) by {
            assert(fetchable(st, st.plan[i].name));
        }
    }
    assert(requirements_met(plan, st.installed)) by {
        assert forall|i: int, q: int| 0 <= i < plan.len() && is_required(plan[i].release, q) implies {
            let name = (#[trigger] plan[i].release.dependencies[q]).name;
            name == base_name() || st.installed.contains_key(name) || planned(plan, name)
        } by {
            let name = st.plan[i].release.dependencies[q].name;
            if name != base_name() {
                assert(st.visited.contains(name));
                let k = choose|k: int| 0 <= k < st.visited.len() && st.visited[k] == name;
                assert(st.visited[k] == name);
                assert(!in_progress(st.stack, name));
            }
        }
    }
}

/// Going on from a state that the resolver can be in leads to such a
/// state again, or to a sound plan.
pub proof fn lemma_advance_sound(st: ResolverView)
    requires
        inv(st),
        st.pending is None,
    ensures
        sound_progress(advance(st), st.installed),
    decreases remaining(st.stack),
{
    if st.stack.len() == 0 {
        lemma_finished_sound(st);
    } else {
        let top = st.stack.last();
        if top.next >= top.release.dependencies.len() {
            lemma_pop_preserves(st);
            lemma_advance_sound(pop_frame(st));
        } else {
            let dep = top.release.dependencies[top.next as int];
            let next = step_frame(st);
            assert(next.stack.drop_last() =~= st.stack.drop_last());
            assert(remaining(next.stack) < remaining(st.stack));
            match dep.dep_type {
                DependencyType::Optional => {
                    lemma_pass_preserves(st);
                    lemma_advance_sound(next);
                },
                DependencyType::Incompatible => {
                    if !(st.installed.contains_key(dep.name) || planned(st.plan, dep.name)) {
                        lemma_pass_preserves(st);
                        lemma_advance_sound(next);
                    }
                },
                DependencyType::Required => {
                    lemma_required_preserves(st);
                    lemma_visit_keeps(next, dep.name, dep.version_req);
                    match visit(next, dep.name, dep.version_req) {
                        Visit::Skip(after) => {
                            lemma_advance_sound(after);
                        },
                        Visit::Fetch(after) => {},
                        Visit::Conflict(e) => {},
                    }
                },
            }
        }
    }
}

/// A resolution begins in a state that the resolver can be in, or ends
/// at once with a sound plan.
pub proof fn lemma_start_sound(
    root: Seq<char>,
    platform: Seq<char>,
    installed: Map<Seq<char>, Version>,
)
    ensures
        sound_progress(start(root, platform, installed), installed),
{
    let st0 = initial(root, platform, installed);
    match visit(st0, root, VersionConstraint::Any) {
        Visit::Skip(st) => {
            assert(st.plan.len() == 0);
        },
        Visit::Fetch(st) => {
            assert(st.visited == Seq::<Seq<char>>::empty().push(root));
            assert(st.visited[0] == root);
            assert(st.visited.contains(root));
            assert(inv_visited(st)) by {
                assert(pending_is(st, root));
            }
        },
        Visit::Conflict(e) => {},
    }
}

/// Whatever the catalog answers for the pending mod, the resolver goes on
/// to a state that it can be in, or to a sound plan.
pub proof fn lemma_supply_sound(st: ResolverView, fetched: Result<ModView, Seq<char>>)
    requires
        inv(st),
        st.pending is Some,
    ensures
        sound_progress(supply(st, fetched), st.installed),
{
    let pending = st.pending.unwrap();
    match fetched {
        Err(_) => {},
        Ok(m) => match best_release(m.releases, Some(st.platform), pending.required) {
            None => {},
            Some(i) => {
                lemma_push_preserves(st, m.releases[i]);
                lemma_advance_sound(
                    ResolverView {
                        pending: None,
                        stack: st.stack.push(
                            FrameView { name: pending.name, release: m.releases[i], next: 0 },
                        ),
                        ..st
                    },
                );
            },
        },
    }
}

/// An installed mod whose version satisfies what is required of it is
/// passed over: nothing is asked of the catalog, and neither the plan nor
/// the mods in progress change.
pub proof fn lemma_satisfied_installed_mod_is_passed_over(
    st: ResolverView,
    name: Seq<char>,
    required: VersionConstraint,
)
    requires
        st.installed.contains_key(name),
        required.spec_matches(st.installed[name]),
    ensures
        visit(st, name, required) matches Visit::Skip(after) && after.plan == st.plan
            && after.stack == st.stack && after.pending == st.pending,
{
}

/// An installed mod whose version does not satisfy what is required of
/// it fails the resolution when it is first met, and the error names
/// the mod, its installed version and the requirement.
pub proof fn lemma_unsatisfied_installed_mod_is_a_conflict(
    st: ResolverView,
    name: Seq<char>,
    required: VersionConstraint,
)
    requires
        name != base_name(),
        !st.visited.contains(name),
        st.installed.contains_key(name),
        !required.spec_matches(st.installed[name]),
    ensures
        visit(st, name, required) == Visit::Conflict(
            ResolveErrorView::VersionConflict {
                name,
                installed_version: st.installed[name],
                required,
            },
        ),
{
}

/// Where the next dependency of the mod on top requires an installed mod
/// in a version that it does not have, going on fails at once with a
/// version conflict.
pub proof fn lemma_conflict_fails_at_once(st: ResolverView)
    requires
        st.stack.len() > 0,
        st.stack.last().next < st.stack.last().release.dependencies.len(),
        ({
            let dep = st.stack.last().release.dependencies[st.stack.last().next as int];
            &&& dep.dep_type == DependencyType::Required
            &&& dep.name != base_name()
            &&& !st.visited.contains(dep.name)
            &&& st.installed.contains_key(dep.name)
            &&& !dep.version_req.spec_matches(st.installed[dep.name])
        }),
    ensures
        ({
            let dep = st.stack.last().release.dependencies[st.stack.last().next as int];
            advance(st) == ProgressView::Failed(
                ResolveErrorView::VersionConflict {
                    name: dep.name,
                    installed_version: st.installed[dep.name],
                    required: dep.version_req,
                },
            )
        }),
{
    lemma_step_frame(st);
}

/// Where the next dependency of the mod on top declares a mod
/// incompatible that is installed or planned, going on fails at once:
/// no later dependency is looked at and nothing is asked of the catalog.
pub proof fn lemma_incompatible_fails_at_once(st: ResolverView)
    requires
        st.stack.len() > 0,
        st.stack.last().next < st.stack.last().release.dependencies.len(),
        ({
            let dep = st.stack.last().release.dependencies[st.stack.last().next as int];
            &&& dep.dep_type == DependencyType::Incompatible
            &&& (st.installed.contains_key(dep.name) || planned(st.plan, dep.name))
        }),
    ensures
        advance(st) == ProgressView::Failed(
            ResolveErrorView::IncompatibleMod {
                name: st.stack.last().name,
                other: st.stack.last().release.dependencies[st.stack.last().next as int].name,
            },
        ),
{
}

/// An optional dependency changes nothing: going on is the same with it
/// as behind it.
pub proof fn lemma_optional_is_passed_over(st: ResolverView)
    requires
        st.stack.len() > 0,
        st.stack.last().next < st.stack.last().release.dependencies.len(),
        st.stack.last().release.dependencies[st.stack.last().next as int].dep_type
            == DependencyType::Optional,
    ensures
        advance(st) == advance(step_frame(st)),
        step_frame(st).plan == st.plan,
        step_frame(st).visited == st.visited,
        step_frame(st).pending == st.pending,
{
}

/// The game itself needs nothing: its resolution is finished at once,
/// with an empty plan.
pub proof fn lemma_base_needs_nothing(platform: Seq<char>, installed: Map<Seq<char>, Version>)
    ensures
        start(base_name(), platform, installed) == ProgressView::Finished(
            ResolveResultView { to_download: Seq::empty(), has_cycle: false },
        ),
{
}

/// A mod that is installed needs nothing: its resolution is finished at
/// once, with an empty plan.
pub proof fn lemma_installed_root_needs_nothing(
    root: Seq<char>,
    platform: Seq<char>,
    installed: Map<Seq<char>, Version>,
)
    requires
        installed.contains_key(root),
    ensures
        start(root, platform, installed) == ProgressView::Finished(
            ResolveResultView { to_download: Seq::empty(), has_cycle: false },
        ),
{
}

} // verus!

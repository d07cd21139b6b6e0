//! What happens to the rest of a pipeline when a step fails.
use crate::models::{step_ids, FailurePolicy, PipelineStep, StepResult};
use crate::text::{append_str, contains_str, views};
use vstd::prelude::*;

verus! {

/// What the pipeline does after a failure.
#[derive(Debug, Clone, PartialEq, Eq)]
pub enum Decision {
    ContinueExecution,
    StopExecution,
    SkipDependents(Vec<String>),
}

/// Step `b` is a step of `p` that lists `a` among its dependencies.
pub open spec fn direct_dependent(p: Seq<PipelineStep>, a: Seq<char>, b: Seq<char>) -> bool {
    exists|k: int| 0 <= k < p.len() && #[trigger] p[k].step_id@ == b && p[k].deps().contains(a)
}

/// Every step of `p` that depends on an identifier of `order` is itself in `order`.
pub open spec fn closed_under_dependents(p: Seq<PipelineStep>, order: Seq<Seq<char>>) -> bool {
    forall|i: int, k: int|
        0 <= i < order.len() && 0 <= k < p.len() && #[trigger] p[k].deps().contains(
            #[trigger] order[i],
        ) ==> order.contains(p[k].step_id@)
}

/// Every identifier of `order` after the first depends directly on an earlier one.
pub open spec fn rooted(p: Seq<PipelineStep>, order: Seq<Seq<char>>) -> bool {
    forall|j: int|
        1 <= j < order.len() ==> exists|i: int|
            0 <= i < j && direct_dependent(p, #[trigger] order[i], #[trigger] order[j])
}

/// Step `k` of `p` carries the identifier `order[j]` and depends on `order[h]`.
pub open spec fn found_via(p: Seq<PipelineStep>, order: Seq<Seq<char>>, j: int, h: int, k: int) -> bool {
    &&& 0 <= k < p.len()
    &&& p[k].step_id@ == order[j]
    &&& p[k].deps().contains(order[h])
}

/// `order[j]` was found while looking for the dependents of `order[h]`, at
/// step `k`: `order[h]` is the earliest entry it depends on, and `k` the
/// earliest step with its identifier that depends on `order[h]`.
pub open spec fn discovered(p: Seq<PipelineStep>, order: Seq<Seq<char>>, j: int, h: int, k: int) -> bool {
    &&& 0 <= h < j < order.len()
    &&& found_via(p, order, j, h, k)
    &&& forall|i: int, k2: int| 0 <= i < h ==> !#[trigger] found_via(p, order, j, i, k2)
    &&& forall|k2: int| 0 <= k2 < k ==> !#[trigger] found_via(p, order, j, h, k2)
}

/// `order[j]` was found from an earlier entry.
pub open spec fn was_found(p: Seq<PipelineStep>, order: Seq<Seq<char>>, j: int) -> bool {
    exists|h: int, k: int| #[trigger] discovered(p, order, j, h, k)
}

/// Every entry after the first was found from an earlier one, and entries
/// come in the order in which they were found: by the entry they were found
/// from, then by the step that named them.
pub open spec fn breadth_first(p: Seq<PipelineStep>, order: Seq<Seq<char>>) -> bool {
    &&& forall|j: int| 1 <= j < order.len() ==> #[trigger] was_found(p, order, j)
    &&& forall|a: int, b: int, ha: int, ka: int, hb: int, kb: int|
        a < b && #[trigger] discovered(p, order, a, ha, ka) && #[trigger] discovered(p, order, b, hb, kb)
            ==> ha < hb || (ha == hb && ka < kb)
}

/// `deps` is exactly the set of steps that depend on `failed`, directly or
/// through other steps, each once, in breadth-first order of discovery.
pub open spec fn dependents_of(p: Seq<PipelineStep>, failed: Seq<char>, deps: Seq<Seq<char>>) -> bool {
    let order = seq![failed] + deps;
    &&& order.no_duplicates()
    &&& rooted(p, order)
    &&& closed_under_dependents(p, order)
    &&& breadth_first(p, order)
}

/// Every entry found so far was found from an entry before `head`, or from
/// `head` at a step before `k`.
pub open spec fn found_before(p: Seq<PipelineStep>, order: Seq<Seq<char>>, head: int, k: int) -> bool {
    forall|j: int, h: int, k2: int| #[trigger] discovered(p, order, j, h, k2) ==> h < head || (h == head && k2 < k)
}

/// Appending an entry does not change how the earlier entries were found.
proof fn lemma_discovered_push(p: Seq<PipelineStep>, order: Seq<Seq<char>>, x: Seq<char>, j: int, h: int, k: int)
    requires
        0 <= j < order.len(),
    ensures
        discovered(p, order.push(x), j, h, k) == discovered(p, order, j, h, k),
{
    let o2 = order.push(x);
    if 0 <= h < j {
        assert forall|i: int, k2: int| 0 <= i <= h implies #[trigger] found_via(p, o2, j, i, k2) == found_via(p, order, j, i, k2) by {
            assert(o2[i] == order[i]);
            assert(o2[j] == order[j]);
        }
        assert(found_via(p, o2, j, h, k) == found_via(p, order, j, h, k));
        if discovered(p, order, j, h, k) {
            assert forall|i: int, k2: int| 0 <= i < h implies !#[trigger] found_via(p, o2, j, i, k2) by {
                assert(!found_via(p, order, j, i, k2));
            }
            assert forall|k2: int| 0 <= k2 < k implies !#[trigger] found_via(p, o2, j, h, k2) by {
                assert(!found_via(p, order, j, h, k2));
            }
        }
        if discovered(p, o2, j, h, k) {
            assert forall|i: int, k2: int| 0 <= i < h implies !#[trigger] found_via(p, order, j, i, k2) by {
                assert(!found_via(p, o2, j, i, k2));
            }
            assert forall|k2: int| 0 <= k2 < k implies !#[trigger] found_via(p, order, j, h, k2) by {
                assert(!found_via(p, o2, j, h, k2));
            }
        }
    }
}

/// An entry is found in one way only.
proof fn lemma_discovered_unique(p: Seq<PipelineStep>, order: Seq<Seq<char>>, j: int, h1: int, k1: int, h2: int, k2: int)
    requires
        discovered(p, order, j, h1, k1),
        discovered(p, order, j, h2, k2),
    ensures
        h1 == h2 && k1 == k2,
{
    if h1 < h2 {
        assert(!found_via(p, order, j, h1, k1));
    }
    if h2 < h1 {
        assert(!found_via(p, order, j, h2, k2));
    }
    if k1 < k2 {
        assert(!found_via(p, order, j, h2, k1));
    }
    if k2 < k1 {
        assert(!found_via(p, order, j, h1, k2));
    }
}

/// Appending the identifier of step `k`, a dependent of `order[head]` that
/// is not listed yet, keeps the order breadth-first.
proof fn lemma_push_found(p: Seq<PipelineStep>, order: Seq<Seq<char>>, head: int, k: int)
    requires
        0 <= head < order.len(),
        0 <= k < p.len(),
        p[k].deps().contains(order[head]),
        !order.contains(p[k].step_id@),
        forall|i: int, k2: int|
            0 <= i < head && 0 <= k2 < p.len() && #[trigger] p[k2].deps().contains(#[trigger] order[i])
                ==> order.contains(p[k2].step_id@),
        forall|k2: int| 0 <= k2 < k && #[trigger] p[k2].deps().contains(order[head]) ==> order.contains(p[k2].step_id@),
        breadth_first(p, order),
        found_before(p, order, head, k),
    ensures
        breadth_first(p, order.push(p[k].step_id@)),
        found_before(p, order.push(p[k].step_id@), head, k + 1),
{
    let x = p[k].step_id@;
    let o2 = order.push(x);
    let n = order.len() as int;
    assert(o2[n] == x);
    assert(o2[head] == order[head]);
    assert forall|i: int, k2: int| 0 <= i < head implies !#[trigger] found_via(p, o2, n, i, k2) by {
        if found_via(p, o2, n, i, k2) {
            assert(o2[i] == order[i]);
            assert(p[k2].deps().contains(order[i]));
        }
    }
    assert forall|k2: int| 0 <= k2 < k implies !#[trigger] found_via(p, o2, n, head, k2) by {
        if found_via(p, o2, n, head, k2) {
            assert(p[k2].deps().contains(order[head]));
        }
    }
    assert(discovered(p, o2, n, head, k));
    assert forall|j: int, h: int, k2: int| #[trigger] discovered(p, o2, j, h, k2) implies h < head || (h == head && k2 < k + 1) by {
        if j < n {
            lemma_discovered_push(p, order, x, j, h, k2);
        } else {
            lemma_discovered_unique(p, o2, n, h, k2, head, k);
        }
    }
    assert forall|j: int| 1 <= j < o2.len() implies #[trigger] was_found(p, o2, j) by {
        if j < n {
            assert(was_found(p, order, j));
            let (h, k2) = choose|h: int, k2: int| #[trigger] discovered(p, order, j, h, k2);
            lemma_discovered_push(p, order, x, j, h, k2);
        } else {
            assert(discovered(p, o2, n, head, k));
        }
    }
    assert forall|a: int, b: int, ha: int, ka: int, hb: int, kb: int|
        a < b && #[trigger] discovered(p, o2, a, ha, ka) && #[trigger] discovered(p, o2, b, hb, kb)
            implies ha < hb || (ha == hb && ka < kb) by {
        lemma_discovered_push(p, order, x, a, ha, ka);
        if b < n {
            lemma_discovered_push(p, order, x, b, hb, kb);
        } else {
            lemma_discovered_unique(p, o2, n, hb, kb, head, k);
        }
    }
}

/// Applies a failure policy.
pub struct FailurePolicyExecutor;

impl FailurePolicyExecutor {
    pub fn new() -> Self {
        FailurePolicyExecutor
    }

    /// The decision for a failed step under `policy`.
    pub fn should_continue(
        &self,
        policy: &FailurePolicy,
        failed_step: &StepResult,
        pipeline: &[PipelineStep],
    ) -> (d: Decision)
        ensures
            *policy == FailurePolicy::Continue ==> d == Decision::ContinueExecution,
            *policy == FailurePolicy::Stop ==> d == Decision::StopExecution,
            *policy == FailurePolicy::DiagnoseOnly ==> d == Decision::StopExecution,
            *policy == FailurePolicy::Skip ==> d is SkipDependents && dependents_of(
                pipeline@,
                failed_step.step_id@,
                views(d->0@),
            ),
    {
        match policy {
            FailurePolicy::Continue => Decision::ContinueExecution,
            FailurePolicy::Stop => Decision::StopExecution,
            FailurePolicy::Skip => {
                let dependents = self.get_dependent_steps(failed_step.step_id.as_str(), pipeline);
                Decision::SkipDependents(dependents)
            },
            FailurePolicy::DiagnoseOnly => Decision::StopExecution,
        }
    }

    /// The steps that depend on `failed_step_id`, directly or transitively.
    pub fn get_dependent_steps(&self, failed_step_id: &str, pipeline: &[PipelineStep]) -> (r: Vec<
        String,
    >)
        ensures
            dependents_of(pipeline@, failed_step_id@, views(r@)),
    {
        let ghost p = pipeline@;
        let mut first = String::new();
        append_str(&mut first, failed_step_id);
        let mut order: Vec<String> = Vec::new();
        order.push(first);
        assert(views(order@) =~= seq![failed_step_id@]);
        let mut head: usize = 0;
        while head < order.len()
            invariant
                p == pipeline@,
                1 <= order.len() <= pipeline.len() + 1,
                views(order@)[0] == failed_step_id@,
                head <= order.len(),
                views(order@).no_duplicates(),
                forall|j: int|
                    1 <= j < order.len() ==> step_ids(p).contains(#[trigger] views(order@)[j]),
                rooted(p, views(order@)),
                forall|i: int, k: int|
                    0 <= i < head && 0 <= k < p.len() && #[trigger] p[k].deps().contains(
                        #[trigger] views(order@)[i],
                    ) ==> views(order@).contains(p[k].step_id@),
                breadth_first(p, views(order@)),
                found_before(p, views(order@), head as int, 0),
            decreases pipeline.len() + 1 - head,
        {
            let current = order[head].clone();
            let mut k: usize = 0;
            while k < pipeline.len()
                invariant
                    p == pipeline@,
                    1 <= order.len() <= pipeline.len() + 1,
                    views(order@)[0] == failed_step_id@,
                    head < order.len(),
                    current@ == views(order@)[head as int],
                    k <= pipeline.len(),
                    views(order@).no_duplicates(),
                    forall|j: int|
                        1 <= j < order.len() ==> step_ids(p).contains(#[trigger] views(order@)[j]),
                    rooted(p, views(order@)),
                    forall|i: int, k2: int|
                        0 <= i < head && 0 <= k2 < p.len() && #[trigger] p[k2].deps().contains(
                            #[trigger] views(order@)[i],
                        ) ==> views(order@).contains(p[k2].step_id@),
                    forall|k2: int|
                        0 <= k2 < k && #[trigger] p[k2].deps().contains(current@) ==> views(
                            order@,
                        ).contains(p[k2].step_id@),
                    breadth_first(p, views(order@)),
                    found_before(p, views(order@), head as int, k as int),
                decreases pipeline.len() - k,
            {
                let is_dep = contains_str(&pipeline[k].depends_on, current.as_str());
                let seen = contains_str(&order, pipeline[k].step_id.as_str());
                proof {
                    if is_dep {
                        let w = choose|w: int|
                            0 <= w < p[k as int].depends_on@.len()
                                && #[trigger] p[k as int].depends_on@[w]@ == current@;
                        assert(p[k as int].deps()[w] == current@);
                    }
                    if seen {
                        let w = choose|w: int|
                            0 <= w < order@.len() && #[trigger] order@[w]@
                                == p[k as int].step_id@;
                        assert(views(order@)[w] == p[k as int].step_id@);
                    } else {
                        assert forall|w: int| 0 <= w < views(order@).len() implies views(
                            order@,
                        )[w] != p[k as int].step_id@ by {
                            assert(views(order@)[w] == order@[w]@);
                        }
                    }
                }
                if is_dep && !seen {
                    let ghost old_views = views(order@);
                    proof {
                        lemma_push_found(p, old_views, head as int, k as int);
                    }
                    let id = pipeline[k].step_id.clone();
                    order.push(id);
                    proof {
                        let nv = views(order@);
                        assert(nv =~= old_views.push(p[k as int].step_id@));
                        assert(step_ids(p)[k as int] == p[k as int].step_id@);
                        assert(direct_dependent(p, old_views[head as int], nv[nv.len() - 1]));
                        assert forall|j: int|
                            1 <= j < nv.len() implies step_ids(p).contains(#[trigger] nv[j]) by {
                            if j < old_views.len() {
                                assert(old_views[j] == nv[j]);
                            }
                        }
                        assert forall|x: Seq<char>|
                            nv.drop_first().contains(x) implies step_ids(p).contains(x) by {
                            let w = choose|w: int| 0 <= w < nv.drop_first().len() && nv.drop_first()[w] == x;
                            assert(nv[w + 1] == x);
                        }
                        assert(nv.drop_first().no_duplicates());
                        crate::models::lemma_distinct_within(nv.drop_first(), step_ids(p));
                        assert forall|j: int| 1 <= j < nv.len() implies exists|i: int|
                            0 <= i < j && direct_dependent(p, #[trigger] nv[i], #[trigger] nv[j]) by {
                            if j < old_views.len() {
                                let i = choose|i: int|
                                    0 <= i < j && direct_dependent(p, #[trigger] old_views[i], #[trigger] old_views[j]);
                                assert(nv[i] == old_views[i]);
                                assert(nv[j] == old_views[j]);
                            } else {
                                assert(nv[head as int] == old_views[head as int]);
                            }
                        }
                        assert forall|x: Seq<char>| old_views.contains(x) implies nv.contains(x) by {
                            let w = choose|w: int| 0 <= w < old_views.len() && old_views[w] == x;
                            assert(nv[w] == x);
                        }
                        assert forall|i: int, k2: int|
                            0 <= i < head && 0 <= k2 < p.len() && #[trigger] p[k2].deps().contains(
                                #[trigger] nv[i],
                            ) implies nv.contains(p[k2].step_id@) by {
                            assert(nv[i] == old_views[i]);
                        }
                        assert(nv.contains(p[k as int].step_id@)) by {
                            assert(nv[nv.len() - 1] == p[k as int].step_id@);
                        }
                    }
                }
                k += 1;
            }
            head += 1;
        }
        let mut r: Vec<String> = Vec::new();
        let mut j: usize = 1;
        while j < order.len()
            invariant
                1 <= j <= order.len(),
                views(r@) =~= views(order@).subrange(1, j as int),
            decreases order.len() - j,
        {
            let ghost old_r = r@;
            r.push(order[j].clone());
            proof {
                assert(views(r@) =~= views(old_r).push(order@[j as int]@));
                assert(views(order@)[j as int] == order@[j as int]@);
            }
            j += 1;
        }
        proof {
            assert(seq![failed_step_id@] + views(r@) =~= views(order@));
        }
        r
    }
}

impl Default for FailurePolicyExecutor {
    fn default() -> Self {
        FailurePolicyExecutor::new()
    }
}

} // verus!

verus! {

/// `path` is a chain of dependencies: each entry after the first is a
/// step that directly depends on the entry before it.
pub open spec fn is_chain(p: Seq<PipelineStep>, path: Seq<Seq<char>>) -> bool {
    forall|k: int| 0 <= k < path.len() - 1 ==> direct_dependent(p, #[trigger] path[k], path[k + 1])
}

/// `b` depends on `a` through one or more dependencies.
pub open spec fn depends_transitively(p: Seq<PipelineStep>, a: Seq<char>, b: Seq<char>) -> bool {
    exists|path: Seq<Seq<char>>|
        #[trigger] is_chain(p, path) && path.len() >= 2 && path[0] == a && path.last() == b
}

proof fn lemma_order_reachable(p: Seq<PipelineStep>, order: Seq<Seq<char>>, j: int) -> (path: Seq<Seq<char>>)
    requires
        rooted(p, order),
        0 <= j < order.len(),
    ensures
        is_chain(p, path),
        path.len() >= 1,
        j > 0 ==> path.len() >= 2,
        path[0] == order[0],
        path.last() == order[j],
    decreases j,
{
    if j == 0 {
        seq![order[0]]
    } else {
        let i = choose|i: int| 0 <= i < j && direct_dependent(p, #[trigger] order[i], #[trigger] order[j]);
        let q = lemma_order_reachable(p, order, i);
        let path = q.push(order[j]);
        assert forall|k: int| 0 <= k < path.len() - 1 implies direct_dependent(p, #[trigger] path[k], path[k + 1]) by {
            if k < q.len() - 1 {
                assert(path[k] == q[k] && path[k + 1] == q[k + 1]);
            } else {
                assert(path[k] == q.last());
            }
        }
        path
    }
}

proof fn lemma_chain_in_order(p: Seq<PipelineStep>, order: Seq<Seq<char>>, path: Seq<Seq<char>>, k: int)
    requires
        order.len() > 0,
        closed_under_dependents(p, order),
        is_chain(p, path),
        path.len() >= 1,
        path[0] == order[0],
        0 <= k < path.len(),
    ensures
        order.contains(path[k]),
    decreases k,
{
    if k == 0 {
        assert(order[0] == path[0]);
    } else {
        lemma_chain_in_order(p, order, path, k - 1);
        assert(direct_dependent(p, path[k - 1], path[k]));
        let i = choose|i: int| 0 <= i < order.len() && order[i] == path[k - 1];
        let s = choose|s: int| 0 <= s < p.len() && #[trigger] p[s].step_id@ == path[k] && p[s].deps().contains(path[k - 1]);
        assert(p[s].deps().contains(order[i]));
    }
}

/// The dependents found for a failed step are exactly the other steps that
/// depend on it through a chain of one or more dependencies.
pub proof fn lemma_dependents_exact(p: Seq<PipelineStep>, failed: Seq<char>, deps: Seq<Seq<char>>)
    requires
        dependents_of(p, failed, deps),
    ensures
        forall|b: Seq<char>| b != failed ==> (deps.contains(b) <==> depends_transitively(p, failed, b)),
        !deps.contains(failed),
{
    let order = seq![failed] + deps;
    assert(order[0] == failed);
    assert forall|b: Seq<char>| b != failed implies (deps.contains(b) <==> depends_transitively(p, failed, b)) by {
        if deps.contains(b) {
            let j = choose|j: int| 0 <= j < deps.len() && deps[j] == b;
            assert(order[j + 1] == b);
            let path = lemma_order_reachable(p, order, j + 1);
            assert(is_chain(p, path) && path.len() >= 2 && path[0] == failed && path.last() == b);
        }
        if depends_transitively(p, failed, b) {
            let path = choose|path: Seq<Seq<char>>|
                #[trigger] is_chain(p, path) && path.len() >= 2 && path[0] == failed && path.last() == b;
            lemma_chain_in_order(p, order, path, path.len() - 1);
            let i = choose|i: int| 0 <= i < order.len() && order[i] == b;
            assert(i != 0);
            assert(deps[i - 1] == b);
        }
    }
    if deps.contains(failed) {
        let j = choose|j: int| 0 <= j < deps.len() && deps[j] == failed;
        assert(order[j + 1] == order[0]);
    }
}

/// A way of finding an entry carries over to another breadth-first list that
/// agrees with the first one before that entry and holds it at `j2`.
proof fn lemma_discovered_transfer(
    p: Seq<PipelineStep>,
    o1: Seq<Seq<char>>,
    o2: Seq<Seq<char>>,
    j: int,
    j2: int,
    h: int,
    k: int,
)
    requires
        discovered(p, o1, j, h, k),
        j <= j2 < o2.len(),
        o2[j2] == o1[j],
        forall|i: int| 0 <= i < j ==> #[trigger] o1[i] == o2[i],
    ensures
        discovered(p, o2, j2, h, k),
{
    assert(o1[h] == o2[h]);
    assert(found_via(p, o2, j2, h, k));
    assert forall|i: int, k2: int| 0 <= i < h implies !#[trigger] found_via(p, o2, j2, i, k2) by {
        assert(o1[i] == o2[i]);
        assert(!found_via(p, o1, j, i, k2));
    }
    assert forall|k2: int| 0 <= k2 < k implies !#[trigger] found_via(p, o2, j2, h, k2) by {
        assert(!found_via(p, o1, j, h, k2));
    }
}

/// Two breadth-first lists with the same first entry and the same entries,
/// each once, that agree before position `j` agree at `j` too.
proof fn lemma_bfs_agree_at(p: Seq<PipelineStep>, o1: Seq<Seq<char>>, o2: Seq<Seq<char>>, j: int)
    requires
        o1.no_duplicates(),
        o2.no_duplicates(),
        breadth_first(p, o1),
        breadth_first(p, o2),
        o1.len() == o2.len(),
        forall|x: Seq<char>| o1.contains(x) <==> o2.contains(x),
        0 < j < o1.len(),
        forall|i: int| 0 <= i < j ==> #[trigger] o1[i] == o2[i],
    ensures
        o1[j] == o2[j],
{
    if o1[j] != o2[j] {
        assert(o2.contains(o1[j])) by {
            assert(o1.contains(o1[j]));
        }
        assert(o1.contains(o2[j])) by {
            assert(o2.contains(o2[j]));
        }
        let j2 = choose|j2: int| 0 <= j2 < o2.len() && o2[j2] == o1[j];
        let j1 = choose|j1: int| 0 <= j1 < o1.len() && o1[j1] == o2[j];
        if j2 < j {
            assert(o1[j2] == o2[j2]);
        }
        if j1 < j {
            assert(o1[j1] == o2[j1]);
        }
        assert(j2 > j && j1 > j);
        assert(was_found(p, o1, j));
        assert(was_found(p, o2, j));
        let (h1, k1) = choose|h: int, k: int| #[trigger] discovered(p, o1, j, h, k);
        let (h2, k2) = choose|h: int, k: int| #[trigger] discovered(p, o2, j, h, k);
        lemma_discovered_transfer(p, o1, o2, j, j2, h1, k1);
        assert forall|i: int| 0 <= i < j implies #[trigger] o2[i] == o1[i] by {
            assert(o1[i] == o2[i]);
        }
        lemma_discovered_transfer(p, o2, o1, j, j1, h2, k2);
        assert(discovered(p, o2, j, h2, k2) && discovered(p, o2, j2, h1, k1));
        assert(discovered(p, o1, j, h1, k1) && discovered(p, o1, j1, h2, k2));
    }
}

proof fn lemma_bfs_agree_before(p: Seq<PipelineStep>, o1: Seq<Seq<char>>, o2: Seq<Seq<char>>, j: int)
    requires
        o1.no_duplicates(),
        o2.no_duplicates(),
        breadth_first(p, o1),
        breadth_first(p, o2),
        o1.len() == o2.len(),
        forall|x: Seq<char>| o1.contains(x) <==> o2.contains(x),
        o1.len() > 0,
        o1[0] == o2[0],
        0 <= j <= o1.len(),
    ensures
        forall|i: int| 0 <= i < j ==> #[trigger] o1[i] == o2[i],
    decreases j,
{
    if j > 1 {
        lemma_bfs_agree_before(p, o1, o2, j - 1);
        lemma_bfs_agree_at(p, o1, o2, j - 1);
    }
}

/// Two lists of dependents of the same failed step hold the same entries.
proof fn lemma_dependents_same_members(p: Seq<PipelineStep>, failed: Seq<char>, d1: Seq<Seq<char>>, d2: Seq<Seq<char>>)
    requires
        dependents_of(p, failed, d1),
        dependents_of(p, failed, d2),
    ensures
        forall|x: Seq<char>| (seq![failed] + d1).contains(x) <==> (seq![failed] + d2).contains(x),
{
    let o1 = seq![failed] + d1;
    let o2 = seq![failed] + d2;
    lemma_dependents_exact(p, failed, d1);
    lemma_dependents_exact(p, failed, d2);
    assert forall|x: Seq<char>| o1.contains(x) <==> o2.contains(x) by {
        if o1.contains(x) && x != failed {
            let i = choose|i: int| 0 <= i < o1.len() && o1[i] == x;
            assert(d1[i - 1] == x);
            assert(d1.contains(x));
            assert(depends_transitively(p, failed, x));
            assert(d2.contains(x));
            let i2 = choose|i2: int| 0 <= i2 < d2.len() && d2[i2] == x;
            assert(o2[i2 + 1] == x);
        }
        if o2.contains(x) && x != failed {
            let i = choose|i: int| 0 <= i < o2.len() && o2[i] == x;
            assert(d2[i - 1] == x);
            assert(d2.contains(x));
            assert(depends_transitively(p, failed, x));
            assert(d1.contains(x));
            let i1 = choose|i1: int| 0 <= i1 < d1.len() && d1[i1] == x;
            assert(o1[i1 + 1] == x);
        }
        assert(o1[0] == failed && o2[0] == failed);
    }
}

/// The dependents of a failed step are determined: only one list meets
/// `dependents_of`, so `get_dependent_steps` and the `Skip` decision of
/// `should_continue` give the same list.
#[verifier::spinoff_prover]
pub proof fn lemma_dependents_unique(p: Seq<PipelineStep>, failed: Seq<char>, d1: Seq<Seq<char>>, d2: Seq<Seq<char>>)
    requires
        dependents_of(p, failed, d1),
        dependents_of(p, failed, d2),
    ensures
        d1 == d2,
{
    broadcast use vstd::seq_lib::seq_to_set_is_finite;

    let o1 = seq![failed] + d1;
    let o2 = seq![failed] + d2;
    lemma_dependents_same_members(p, failed, d1, d2);
    assert(o1.len() == o2.len()) by {
        o1.unique_seq_to_set();
        o2.unique_seq_to_set();
        assert(o1.to_set() =~= o2.to_set());
    }
    assert(o1[0] == o2[0]);
    lemma_bfs_agree_before(p, o1, o2, o1.len() as int);
    assert(o1 =~= o2);
    assert(d1 =~= o1.drop_first());
    assert(d2 =~= o2.drop_first());
}

} // verus!

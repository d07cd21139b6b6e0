//! Dependency graph checks: cycle detection and the steps ready to run.
use crate::models::{step_ids, PipelineStep};
use crate::pipeline::topo::{
    acyclic_order, blocked_outside, counts, deps_among, ids_at, lemma_distinct_indices_cover,
    lemma_order_in_range, lemma_order_maximal, lemma_order_no_duplicates,
    lemma_blocked_step_not_placed, lemma_order_respects_dependencies, placement, placement_of,
};
use crate::text::{append_str, contains_str, views};
use vstd::prelude::*;

verus! {

/// A non-empty set of steps each of which depends on a step of the set:
/// what a dependency cycle leaves behind.
pub open spec fn self_dependent(p: Seq<PipelineStep>, s: Set<int>) -> bool {
    &&& exists|i: int| s.contains(i)
    &&& forall|i: int|
        #[trigger] s.contains(i) ==> 0 <= i < p.len() && exists|j: int|
            s.contains(j) && 0 <= j < p.len() && #[trigger] p[i].deps().contains(p[j].step_id@)
}

/// No two steps share an identifier.
pub open spec fn unique_ids(p: Seq<PipelineStep>) -> bool {
    forall|a: int, b: int|
        0 <= a < p.len() && 0 <= b < p.len() && a != b ==> #[trigger] p[a].step_id@ != #[trigger] p[b].step_id@
}

/// Step `i` has not completed and every dependency has.
pub open spec fn ready_for(p: Seq<PipelineStep>, done: Seq<Seq<char>>, i: int) -> bool {
    &&& !done.contains(p[i].step_id@)
    &&& forall|d: Seq<char>| #[trigger] p[i].deps().contains(d) ==> done.contains(d)
}

/// The message of a cycle error.
pub open spec fn cycle_message() -> Seq<char> {
    "Cycle detected in pipeline dependencies"@
}

/// Validates the dependency graph of pipelines.
pub struct DagValidator;

impl DagValidator {
    pub fn new() -> Self {
        DagValidator
    }

    /// Fails when the dependencies among the steps form a cycle;
    /// dependencies on identifiers that no step carries are not part of the
    /// graph.
    pub fn validate_cycle(&self, pipeline: &[PipelineStep]) -> (r: Result<(), String>)
        ensures
            r is Ok <==> acyclic_order(pipeline@).len() == pipeline@.len(),
            r is Err ==> r->Err_0@ == cycle_message(),
    {
        let order = placement_of(pipeline, true);
        assert(order@.map_values(|x: usize| x as int).len() == order@.len());
        if order.len() == pipeline.len() {
            Ok(())
        } else {
            let mut m = String::new();
            append_str(&mut m, "Cycle detected in pipeline dependencies");
            Err(m)
        }
    }

    /// Indices, in pipeline order, of the steps that have not completed and
    /// whose dependencies have all completed.
    pub fn get_ready_steps(&self, pipeline: &[PipelineStep], completed: &Vec<String>) -> (r: Vec<usize>)
        ensures
            forall|k: int| 0 <= k < r.len() ==> #[trigger] r@[k] < pipeline.len() && ready_for(
                pipeline@,
                views(completed@),
                r@[k] as int,
            ),
            forall|a: int, b: int| 0 <= a < b < r.len() ==> r@[a] < r@[b],
            forall|i: int|
                0 <= i < pipeline.len() && ready_for(pipeline@, views(completed@), i) ==> r@.contains(
                    i as usize,
                ),
    {
        let ghost p = pipeline@;
        let ghost done = views(completed@);
        let mut r: Vec<usize> = Vec::new();
        let mut i: usize = 0;
        while i < pipeline.len()
            invariant
                p == pipeline@,
                done == views(completed@),
                i <= pipeline.len(),
                forall|k: int| 0 <= k < r.len() ==> #[trigger] r@[k] < i && ready_for(p, done, r@[k] as int),
                forall|a: int, b: int| 0 <= a < b < r.len() ==> r@[a] < r@[b],
                forall|j: int| 0 <= j < i && ready_for(p, done, j) ==> r@.contains(j as usize),
            decreases pipeline.len() - i,
        {
            let step = &pipeline[i];
            let finished = contains_str(completed, step.step_id.as_str());
            let mut deps_done = true;
            let mut k: usize = 0;
            while k < step.depends_on.len()
                invariant
                    done == views(completed@),
                    k <= step.depends_on.len(),
                    deps_done == forall|k2: int| 0 <= k2 < k ==> done.contains(#[trigger] step.deps()[k2]),
                decreases step.depends_on.len() - k,
            {
                let c = contains_str(completed, step.depends_on[k].as_str());
                proof {
                    assert(step.deps()[k as int] == step.depends_on@[k as int]@);
                    if c {
                        let w = choose|w: int| 0 <= w < completed@.len() && #[trigger] completed@[w]@ == step.depends_on@[k as int]@;
                        assert(done[w] == completed@[w]@);
                    } else {
                        assert forall|w: int| 0 <= w < done.len() implies done[w] != step.deps()[k as int] by {
                            assert(done[w] == completed@[w]@);
                        }
                    }
                }
                deps_done = deps_done && c;
                k += 1;
            }
            proof {
                if finished {
                    let w = choose|w: int| 0 <= w < completed@.len() && #[trigger] completed@[w]@ == step.step_id@;
                    assert(done[w] == completed@[w]@);
                } else {
                    assert forall|w: int| 0 <= w < done.len() implies done[w] != step.step_id@ by {
                        assert(done[w] == completed@[w]@);
                    }
                }
                if deps_done {
                    assert forall|d: Seq<char>| #[trigger] p[i as int].deps().contains(d) implies done.contains(d) by {
                        let w = choose|w: int| 0 <= w < p[i as int].deps().len() && p[i as int].deps()[w] == d;
                    }
                } else {
                    let w = choose|w: int| 0 <= w < k && !done.contains(#[trigger] step.deps()[w]);
                    assert(p[i as int].deps().contains(p[i as int].deps()[w]));
                }
            }
            if !finished && deps_done {
                let ghost old_r = r@;
                r.push(i);
                proof {
                    assert(r@[r.len() - 1] == i);
                    assert forall|j: int| 0 <= j < i + 1 && ready_for(p, done, j) implies r@.contains(j as usize) by {
                        if j < i {
                            let w = choose|w: int| 0 <= w < old_r.len() && old_r[w] == j as usize;
                            assert(r@[w] == j as usize);
                        } else {
                            assert(r@[r.len() - 1] == j as usize);
                        }
                    }
                }
            } else {
                proof {
                    assert(!ready_for(p, done, i as int));
                }
            }
            i += 1;
        }
        r
    }
}

impl Default for DagValidator {
    fn default() -> Self {
        DagValidator::new()
    }
}

proof fn lemma_placed_not_in_set(p: Seq<PipelineStep>, s: Set<int>, m: int)
    requires
        unique_ids(p),
        0 <= m < acyclic_order(p).len(),
        forall|i: int| #[trigger] s.contains(i) ==> 0 <= i < p.len() && exists|j: int|
            s.contains(j) && 0 <= j < p.len() && #[trigger] p[i].deps().contains(p[j].step_id@),
    ensures
        forall|m2: int| 0 <= m2 <= m ==> !s.contains(#[trigger] acyclic_order(p)[m2]),
    decreases m,
{
    let o = acyclic_order(p);
    if m > 0 {
        lemma_placed_not_in_set(p, s, m - 1);
    }
    lemma_order_respects_dependencies(p, true);
    lemma_order_in_range(p, true);
    if s.contains(o[m]) {
        let j = choose|j: int| s.contains(j) && 0 <= j < p.len() && #[trigger] p[o[m]].deps().contains(p[j].step_id@);
        assert(step_ids(p)[j] == p[j].step_id@);
        assert(counts(p, p[j].step_id@, true));
        assert(deps_among(p, o[m], ids_at(p, o.take(m)), true));
        assert(ids_at(p, o.take(m)).contains(p[j].step_id@));
        let w = choose|w: int| 0 <= w < ids_at(p, o.take(m)).len() && ids_at(p, o.take(m))[w] == p[j].step_id@;
        assert(p[o[w]].step_id@ == p[j].step_id@);
        assert(o[w] == j);
        assert(!s.contains(o[w]));
    }
    assert forall|m2: int| 0 <= m2 <= m implies !s.contains(#[trigger] o[m2]) by {
        if m2 < m {
        }
    }
}

/// The cycle check is exact: it fails exactly when some non-empty set of
/// steps all depend on steps of that same set (for pipelines whose step
/// identifiers are distinct; a failure always shows such a set).
pub proof fn lemma_cycle_check_exact(p: Seq<PipelineStep>)
    ensures
        acyclic_order(p).len() != p.len() ==> exists|s: Set<int>| self_dependent(p, s),
        unique_ids(p) && acyclic_order(p).len() == p.len() ==> forall|s: Set<int>|
            !self_dependent(p, s),
{
    let o = acyclic_order(p);
    lemma_order_no_duplicates(p, true);
    lemma_order_in_range(p, true);
    lemma_order_maximal(p, true);
    if o.len() != p.len() {
        broadcast use vstd::seq_lib::seq_to_set_is_finite;

        o.unique_seq_to_set();
        vstd::set_lib::lemma_int_range(0, p.len() as int);
        assert(o.to_set().subset_of(vstd::set_lib::set_int_range(0, p.len() as int)));
        vstd::set_lib::lemma_len_subset(o.to_set(), vstd::set_lib::set_int_range(0, p.len() as int));
        assert(o.len() < p.len());
        let missing = choose|k: int| 0 <= k < p.len() && !o.contains(k);
        if !(exists|k: int| 0 <= k < p.len() && !o.contains(k)) {
            assert(vstd::set_lib::set_int_range(0, p.len() as int).subset_of(o.to_set()));
            vstd::set_lib::lemma_len_subset(vstd::set_lib::set_int_range(0, p.len() as int), o.to_set());
        }
        let s = Set::new(|i: int| 0 <= i < p.len() && !o.contains(i));
        assert(s.contains(missing));
        assert forall|i: int| #[trigger] s.contains(i) implies 0 <= i < p.len() && exists|j: int|
            s.contains(j) && 0 <= j < p.len() && #[trigger] p[i].deps().contains(p[j].step_id@) by {
            assert(blocked_outside(p, o, true));
            let d = choose|d: Seq<char>|
                #[trigger] p[i].deps().contains(d) && counts(p, d, true) && !ids_at(p, o).contains(d);
            let j = choose|j: int| 0 <= j < step_ids(p).len() && step_ids(p)[j] == d;
            assert(p[j].step_id@ == d);
            if o.contains(j) {
                let w = choose|w: int| 0 <= w < o.len() && o[w] == j;
                assert(ids_at(p, o)[w] == d);
            }
            assert(s.contains(j));
        }
        assert(self_dependent(p, s));
    } else if unique_ids(p) {
        assert forall|s: Set<int>| !self_dependent(p, s) by {
            if self_dependent(p, s) {
                let i = choose|i: int| s.contains(i);
                assert(0 <= i < p.len());
                lemma_distinct_indices_cover(o, p.len() as int, i);
                let w = choose|w: int| 0 <= w < o.len() && o[w] == i;
                lemma_placed_not_in_set(p, s, w);
                assert(!s.contains(o[w]));
            }
        }
    }
}

} // verus!

verus! {

/// A counted dependency of the step at position `m` of a placement is
/// carried by a step placed before it.
proof fn lemma_dependency_placed_before(p: Seq<PipelineStep>, ko: bool, m: int, d: Seq<char>) -> (k: int)
    requires
        0 <= m < placement(p, ko).len(),
        p[placement(p, ko)[m]].deps().contains(d),
        counts(p, d, ko),
    ensures
        0 <= k < m,
        p[placement(p, ko)[k]].step_id@ == d,
{
    let o = placement(p, ko);
    lemma_order_respects_dependencies(p, ko);
    assert(deps_among(p, o[m], ids_at(p, o.take(m)), ko));
    assert(ids_at(p, o.take(m)).contains(d));
    let k = choose|k: int| 0 <= k < ids_at(p, o.take(m)).len() && ids_at(p, o.take(m))[k] == d;
    assert(o.take(m)[k] == o[k]);
    k
}

#[verifier::rlimit(60)]
proof fn lemma_cycle_prefix(p: Seq<PipelineStep>, ko: bool, s: Set<int>, m: int)
    requires
        unique_ids(p),
        self_dependent(p, s),
        0 <= m < placement(p, ko).len(),
    ensures
        forall|m2: int| 0 <= m2 <= m ==> !s.contains(#[trigger] placement(p, ko)[m2]),
    decreases m,
{
    let o = placement(p, ko);
    if m > 0 {
        lemma_cycle_prefix(p, ko, s, m - 1);
    }
    if s.contains(o[m]) {
        assert(false) by {
            lemma_order_in_range(p, ko);
            let i = o[m];
            let j = choose|j: int| s.contains(j) && 0 <= j < p.len() && #[trigger] p[i].deps().contains(p[j].step_id@);
            let d = p[j].step_id@;
            assert(step_ids(p)[j] == d);
            let k = lemma_dependency_placed_before(p, ko, m, d);
            assert(0 <= o[k] < p.len());
            assert(o[k] == j);
            assert(!s.contains(o[k]));
        }
    }
}

/// With distinct step identifiers, no step of a set whose members each
/// depend on a member (a dependency cycle, with what hangs on it) is ever
/// placed, in the execution order or in the order of the cycle check.
pub proof fn lemma_cycle_never_placed(p: Seq<PipelineStep>, ko: bool, s: Set<int>)
    requires
        unique_ids(p),
        self_dependent(p, s),
    ensures
        forall|i: int| s.contains(i) ==> !placement(p, ko).contains(i),
{
    let o = placement(p, ko);
    assert forall|i: int| s.contains(i) implies !o.contains(i) by {
        if o.contains(i) {
            let m = choose|m: int| 0 <= m < o.len() && o[m] == i;
            lemma_cycle_prefix(p, ko, s, m);
        }
    }
}

/// With distinct step identifiers, a step that depends, through a chain of
/// dependencies, on a step that is not placed is not placed either. With
/// `lemma_cycle_never_placed` and `lemma_unknown_dependency_never_placed`:
/// a step on a cycle, or hanging on a cycle or on an unknown identifier,
/// gets no place in the order, so a run reports no result for it.
pub proof fn lemma_chain_from_unplaced(p: Seq<PipelineStep>, ko: bool, path: Seq<int>)
    requires
        unique_ids(p),
        path.len() >= 1,
        forall|k: int| 0 <= k < path.len() ==> 0 <= #[trigger] path[k] < p.len(),
        !placement(p, ko).contains(path[0]),
        forall|k: int|
            0 <= k < path.len() - 1 ==> #[trigger] p[path[k + 1]].deps().contains(p[path[k]].step_id@),
    ensures
        !placement(p, ko).contains(path.last()),
    decreases path.len(),
{
    if path.len() > 1 {
        let q = path.drop_last();
        assert forall|k: int| 0 <= k < q.len() - 1 implies #[trigger] p[q[k + 1]].deps().contains(p[q[k]].step_id@) by {
            assert(q[k] == path[k] && q[k + 1] == path[k + 1]);
            assert(p[path[k + 1]].deps().contains(p[path[k]].step_id@));
        }
        lemma_chain_from_unplaced(p, ko, q);
        let n = path.len() - 1;
        let a = path[n - 1];
        let b = path[n];
        assert(q.last() == a);
        let d = p[a].step_id@;
        assert(p[path[n - 1 + 1]].deps().contains(p[path[n - 1]].step_id@));
        assert(step_ids(p)[a] == d);
        assert(counts(p, d, ko));
        let o = placement(p, ko);
        lemma_order_in_range(p, ko);
        if ids_at(p, o).contains(d) {
            let m = choose|m: int| 0 <= m < ids_at(p, o).len() && ids_at(p, o)[m] == d;
            assert(p[o[m]].step_id@ == p[a].step_id@);
            assert(0 <= o[m] < p.len());
            assert(o[m] == a);
            assert(o.contains(a));
        }
        lemma_blocked_step_not_placed(p, ko, b, d);
    }
}

} // verus!

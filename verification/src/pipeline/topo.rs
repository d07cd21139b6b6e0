//! Placement order of a pipeline: repeatedly the earliest step whose
//! dependencies have all been placed.
//!
//! The execution order counts every dependency, so a step that depends on
//! an identifier no step carries is never placed. Cycle detection counts
//! only dependencies on identifiers that some step carries.
use crate::models::{step_ids, PipelineStep};
use crate::text::{contains_str, str_eq};
use vstd::prelude::*;

verus! {

/// Identifiers of the steps at the given indices.
pub open spec fn ids_at(p: Seq<PipelineStep>, idx: Seq<int>) -> Seq<Seq<char>> {
    idx.map_values(|i: int| p[i].step_id@)
}

/// A dependency that counts: every dependency, or with `known_only` only
/// those that name a step of the pipeline.
pub open spec fn counts(p: Seq<PipelineStep>, d: Seq<char>, known_only: bool) -> bool {
    !known_only || step_ids(p).contains(d)
}

/// Every dependency of step `i` that counts is in `ids`.
pub open spec fn deps_among(p: Seq<PipelineStep>, i: int, ids: Seq<Seq<char>>, known_only: bool) -> bool {
    forall|d: Seq<char>|
        #[trigger] p[i].deps().contains(d) && counts(p, d, known_only) ==> ids.contains(d)
}

/// Step `i` is not placed yet and every dependency that counts names a
/// placed step.
pub open spec fn is_ready(p: Seq<PipelineStep>, placed: Seq<int>, i: int, known_only: bool) -> bool {
    &&& 0 <= i < p.len()
    &&& !placed.contains(i)
    &&& deps_among(p, i, ids_at(p, placed), known_only)
}

/// The earliest ready step at or after `j`, or `p.len()` when there is none.
pub open spec fn first_ready(p: Seq<PipelineStep>, placed: Seq<int>, j: int, known_only: bool) -> int
    decreases p.len() - j,
{
    if j >= p.len() {
        p.len() as int
    } else if j >= 0 && is_ready(p, placed, j, known_only) {
        j
    } else {
        first_ready(p, placed, j + 1, known_only)
    }
}

/// Places up to `fuel` more steps after `placed`, earliest ready step first.
pub open spec fn order_from(p: Seq<PipelineStep>, placed: Seq<int>, fuel: nat, known_only: bool) -> Seq<int>
    decreases fuel,
{
    if fuel == 0 {
        placed
    } else {
        let i = first_ready(p, placed, 0, known_only);
        if i >= p.len() {
            placed
        } else {
            order_from(p, placed.push(i), (fuel - 1) as nat, known_only)
        }
    }
}

/// The placement order of a pipeline, as indices into it.
pub open spec fn placement(p: Seq<PipelineStep>, known_only: bool) -> Seq<int> {
    order_from(p, Seq::empty(), p.len(), known_only)
}

/// The execution order of a pipeline: every dependency counts.
pub open spec fn dependency_order(p: Seq<PipelineStep>) -> Seq<int> {
    placement(p, false)
}

/// The order that ignores dependencies on identifiers no step carries.
pub open spec fn acyclic_order(p: Seq<PipelineStep>) -> Seq<int> {
    placement(p, true)
}

pub proof fn lemma_first_ready_bounds(p: Seq<PipelineStep>, placed: Seq<int>, j: int, ko: bool)
    requires
        0 <= j <= p.len(),
    ensures
        j <= first_ready(p, placed, j, ko) <= p.len(),
        first_ready(p, placed, j, ko) < p.len() ==> is_ready(p, placed, first_ready(p, placed, j, ko), ko),
        forall|k: int| j <= k < first_ready(p, placed, j, ko) ==> !is_ready(p, placed, k, ko),
    decreases p.len() - j,
{
    if j < p.len() && !is_ready(p, placed, j, ko) {
        lemma_first_ready_bounds(p, placed, j + 1, ko);
    }
}

/// Whether dependency `d` counts.
fn dependency_counts(d: &String, pipeline: &[PipelineStep], known_only: bool) -> (r: bool)
    ensures
        r == counts(pipeline@, d@, known_only),
{
    if !known_only {
        return true;
    }
    let mut m: usize = 0;
    while m < pipeline.len()
        invariant
            m <= pipeline.len(),
            forall|m2: int| 0 <= m2 < m ==> #[trigger] step_ids(pipeline@)[m2] != d@,
        decreases pipeline.len() - m,
    {
        if str_eq(pipeline[m].step_id.as_str(), d.as_str()) {
            assert(step_ids(pipeline@)[m as int] == d@);
            return true;
        }
        m += 1;
    }
    false
}

/// Whether every dependency of `step` that counts names one of the steps at `placed`.
fn deps_placed(step: &PipelineStep, pipeline: &[PipelineStep], placed: &Vec<usize>, known_only: bool) -> (r: bool)
    requires
        forall|k: int| 0 <= k < placed.len() ==> placed@[k] < pipeline.len(),
    ensures
        r == forall|d: Seq<char>|
            #[trigger] step.deps().contains(d) && counts(pipeline@, d, known_only) ==> ids_at(
                pipeline@,
                placed@.map_values(|x: usize| x as int),
            ).contains(d),
{
    let ghost ids = ids_at(pipeline@, placed@.map_values(|x: usize| x as int));
    let mut k: usize = 0;
    while k < step.depends_on.len()
        invariant
            k <= step.depends_on.len(),
            ids == ids_at(pipeline@, placed@.map_values(|x: usize| x as int)),
            forall|k2: int| 0 <= k2 < placed.len() ==> placed@[k2] < pipeline.len(),
            forall|k2: int|
                0 <= k2 < k && counts(pipeline@, step.deps()[k2], known_only) ==> ids.contains(
                    #[trigger] step.deps()[k2],
                ),
        decreases step.depends_on.len() - k,
    {
        let d = &step.depends_on[k];
        assert(step.deps()[k as int] == d@);
        if dependency_counts(d, pipeline, known_only) {
            let mut found = false;
            let mut m: usize = 0;
            while m < placed.len()
                invariant
                    m <= placed.len(),
                    ids == ids_at(pipeline@, placed@.map_values(|x: usize| x as int)),
                    forall|k2: int| 0 <= k2 < placed.len() ==> placed@[k2] < pipeline.len(),
                    found ==> ids.contains(d@),
                    !found ==> forall|m2: int| 0 <= m2 < m ==> #[trigger] ids[m2] != d@,
                decreases placed.len() - m,
            {
                if !found && str_eq(pipeline[placed[m]].step_id.as_str(), d.as_str()) {
                    found = true;
                    assert(ids[m as int] == d@);
                }
                m += 1;
            }
            if !found {
                assert(!ids.contains(step.deps()[k as int]));
                assert(step.deps().contains(step.deps()[k as int]));
                return false;
            }
        }
        k += 1;
    }
    assert forall|d: Seq<char>|
        #[trigger] step.deps().contains(d) && counts(pipeline@, d, known_only) implies ids.contains(d) by {
        let w = choose|w: int| 0 <= w < step.deps().len() && step.deps()[w] == d;
    }
    true
}

/// The placement order of `pipeline` as indices into it: at each point the
/// earliest step whose dependencies that count all name steps already placed.
pub fn placement_of(pipeline: &[PipelineStep], known_only: bool) -> (order: Vec<usize>)
    ensures
        order@.map_values(|x: usize| x as int) == placement(pipeline@, known_only),
{
    let ghost p = pipeline@;
    let mut placed: Vec<usize> = Vec::new();
    let mut is_placed: Vec<bool> = Vec::new();
    let mut n: usize = 0;
    while n < pipeline.len()
        invariant
            n <= pipeline.len(),
            is_placed.len() == n,
            forall|k: int| 0 <= k < n ==> !is_placed@[k],
        decreases pipeline.len() - n,
    {
        is_placed.push(false);
        n += 1;
    }
    let mut fuel: usize = pipeline.len();
    assert(placed@.map_values(|x: usize| x as int) =~= Seq::<int>::empty());
    while fuel > 0
        invariant
            p == pipeline@,
            is_placed.len() == pipeline.len(),
            forall|k: int| 0 <= k < placed.len() ==> placed@[k] < pipeline.len(),
            forall|k: int|
                0 <= k < pipeline.len() ==> (is_placed@[k] <==> placed@.map_values(
                    |x: usize| x as int,
                ).contains(k)),
            order_from(p, placed@.map_values(|x: usize| x as int), fuel as nat, known_only)
                == placement(p, known_only),
        decreases fuel,
    {
        let ghost pl = placed@.map_values(|x: usize| x as int);
        let mut i: usize = 0;
        let mut found = false;
        while i < pipeline.len()
            invariant
                p == pipeline@,
                pl == placed@.map_values(|x: usize| x as int),
                is_placed.len() == pipeline.len(),
                forall|k: int| 0 <= k < placed.len() ==> placed@[k] < pipeline.len(),
                forall|k: int| 0 <= k < pipeline.len() ==> (is_placed@[k] <==> pl.contains(k)),
                i <= pipeline.len(),
                first_ready(p, pl, 0, known_only) == first_ready(p, pl, i as int, known_only),
                found ==> i < pipeline.len() && is_ready(p, pl, i as int, known_only),
            ensures
                found ==> i < pipeline.len() && is_ready(p, pl, i as int, known_only),
                !found ==> i == pipeline.len(),
                first_ready(p, pl, 0, known_only) == first_ready(p, pl, i as int, known_only),
            decreases pipeline.len() - i + (if found {
                0int
            } else {
                1int
            }),
        {
            if !is_placed[i] && deps_placed(&pipeline[i], pipeline, &placed, known_only) {
                found = true;
                break;
            }
            i += 1;
        }
        proof {
            lemma_first_ready_bounds(p, pl, i as int, known_only);
        }
        if !found {
            assert(first_ready(p, pl, 0, known_only) >= p.len());
            return placed;
        }
        assert(first_ready(p, pl, i as int, known_only) == i);
        placed.push(i);
        is_placed.set(i, true);
        proof {
            let npl = placed@.map_values(|x: usize| x as int);
            assert(npl =~= pl.push(i as int));
            assert forall|k: int| 0 <= k < pipeline.len() implies (is_placed@[k] <==> npl.contains(
                k,
            )) by {
                if k == i {
                    assert(npl[npl.len() - 1] == k);
                } else {
                    if pl.contains(k) {
                        let w = choose|w: int| 0 <= w < pl.len() && pl[w] == k;
                        assert(npl[w] == k);
                    }
                    if npl.contains(k) {
                        let w = choose|w: int| 0 <= w < npl.len() && npl[w] == k;
                        assert(w < pl.len());
                        assert(pl[w] == k);
                    }
                }
            }
        }
        fuel -= 1;
    }
    placed
}

pub proof fn lemma_order_from_in_range(p: Seq<PipelineStep>, placed: Seq<int>, fuel: nat, ko: bool)
    requires
        forall|k: int| 0 <= k < placed.len() ==> 0 <= #[trigger] placed[k] < p.len(),
    ensures
        forall|k: int|
            0 <= k < order_from(p, placed, fuel, ko).len() ==> 0 <= #[trigger] order_from(
                p,
                placed,
                fuel,
                ko,
            )[k] < p.len(),
    decreases fuel,
{
    if fuel > 0 {
        let i = first_ready(p, placed, 0, ko);
        lemma_first_ready_bounds(p, placed, 0, ko);
        if i < p.len() {
            let np = placed.push(i);
            assert forall|k: int| 0 <= k < np.len() implies 0 <= #[trigger] np[k] < p.len() by {
                if k < placed.len() {
                    assert(np[k] == placed[k]);
                }
            }
            lemma_order_from_in_range(p, np, (fuel - 1) as nat, ko);
            assert(order_from(p, placed, fuel, ko) == order_from(p, np, (fuel - 1) as nat, ko));
        } else {
            assert(order_from(p, placed, fuel, ko) == placed);
        }
    } else {
        assert(order_from(p, placed, fuel, ko) == placed);
    }
}

/// Every index of a placement order points into the pipeline.
pub proof fn lemma_order_in_range(p: Seq<PipelineStep>, ko: bool)
    ensures
        forall|k: int|
            0 <= k < placement(p, ko).len() ==> 0 <= #[trigger] placement(p, ko)[k] < p.len(),
{
    lemma_order_from_in_range(p, Seq::empty(), p.len(), ko);
}

/// Each entry of `o` from position `from` on is the earliest step that was
/// ready once the entries before it were placed.
pub open spec fn chosen_earliest(p: Seq<PipelineStep>, o: Seq<int>, from: int, ko: bool) -> bool {
    forall|m: int|
        from <= m < o.len() ==> #[trigger] o[m] == first_ready(p, o.take(m), 0, ko) && o[m] < p.len()
}

proof fn lemma_order_from_shape(p: Seq<PipelineStep>, placed: Seq<int>, fuel: nat, ko: bool)
    ensures
        order_from(p, placed, fuel, ko).len() >= placed.len(),
        order_from(p, placed, fuel, ko).take(placed.len() as int) == placed,
        chosen_earliest(p, order_from(p, placed, fuel, ko), placed.len() as int, ko),
    decreases fuel,
{
    let o = order_from(p, placed, fuel, ko);
    if fuel == 0 {
        assert(o.take(placed.len() as int) =~= placed);
    } else {
        let i = first_ready(p, placed, 0, ko);
        lemma_first_ready_bounds(p, placed, 0, ko);
        if i >= p.len() {
            assert(o.take(placed.len() as int) =~= placed);
        } else {
            let np = placed.push(i);
            lemma_order_from_shape(p, np, (fuel - 1) as nat, ko);
            assert(o == order_from(p, np, (fuel - 1) as nat, ko));
            assert(o.take(np.len() as int) == np);
            assert(o.take(placed.len() as int) =~= placed) by {
                assert forall|k: int| 0 <= k < placed.len() implies o.take(placed.len() as int)[k]
                    == placed[k] by {
                    assert(o.take(np.len() as int)[k] == np[k]);
                }
            }
            assert forall|m: int| placed.len() <= m < o.len() implies #[trigger] o[m]
                == first_ready(p, o.take(m), 0, ko) && o[m] < p.len() by {
                if m == placed.len() {
                    assert(o.take(m) =~= placed);
                    assert(o[m] == o.take(np.len() as int)[m]);
                }
            }
        }
    }
}

/// Every dependency that counts of a placed step names a step placed before it.
pub proof fn lemma_order_respects_dependencies(p: Seq<PipelineStep>, ko: bool)
    ensures
        forall|j: int|
            0 <= j < placement(p, ko).len() ==> deps_among(
                p,
                #[trigger] placement(p, ko)[j],
                ids_at(p, placement(p, ko).take(j)),
                ko,
            ),
{
    let o = placement(p, ko);
    lemma_order_from_shape(p, Seq::empty(), p.len(), ko);
    assert forall|j: int| 0 <= j < o.len() implies deps_among(p, #[trigger] o[j], ids_at(p, o.take(j)), ko) by {
        lemma_first_ready_bounds(p, o.take(j), 0, ko);
        assert(o[j] == first_ready(p, o.take(j), 0, ko));
        assert(is_ready(p, o.take(j), o[j], ko));
    }
}

/// No step appears twice in a placement order.
pub proof fn lemma_order_no_duplicates(p: Seq<PipelineStep>, ko: bool)
    ensures
        placement(p, ko).no_duplicates(),
{
    let o = placement(p, ko);
    lemma_order_from_shape(p, Seq::empty(), p.len(), ko);
    assert forall|a: int, b: int| 0 <= a < o.len() && 0 <= b < o.len() && a != b implies o[a]
        != o[b] by {
        let (lo, hi) = if a < b {
            (a, b)
        } else {
            (b, a)
        };
        lemma_first_ready_bounds(p, o.take(hi), 0, ko);
        assert(o[hi] == first_ready(p, o.take(hi), 0, ko));
        assert(is_ready(p, o.take(hi), o[hi], ko));
        assert(o.take(hi)[lo] == o[lo]);
    }
}

/// A step earlier in the pipeline whose dependencies were all placed when
/// the step at position `m` was placed comes before position `m`.
pub open spec fn keeps_pipeline_order(p: Seq<PipelineStep>, o: Seq<int>, ko: bool) -> bool {
    forall|m: int, i: int|
        #![trigger o[m], p[i]]
        0 <= m < o.len() && 0 <= i < o[m] && deps_among(p, i, ids_at(p, o.take(m)), ko)
            ==> o.take(m).contains(i)
}

/// Among the steps whose dependencies are met, a placement order takes them
/// in pipeline order.
pub proof fn lemma_order_keeps_pipeline_order(p: Seq<PipelineStep>, ko: bool)
    ensures
        keeps_pipeline_order(p, placement(p, ko), ko),
{
    let o = placement(p, ko);
    lemma_order_from_shape(p, Seq::empty(), p.len(), ko);
    assert forall|m: int, i: int|
        (0 <= m < o.len() && 0 <= i < o[m] && deps_among(p, i, ids_at(p, o.take(m)), ko)) implies #[trigger] o.take(
        m,
    ).contains(i) by {
        lemma_first_ready_bounds(p, o.take(m), 0, ko);
        assert(o[m] == first_ready(p, o.take(m), 0, ko));
        assert(!is_ready(p, o.take(m), i, ko));
    }
    assert(keeps_pipeline_order(p, o, ko));
}

pub proof fn lemma_distinct_indices_cover(s: Seq<int>, n: int, k: int)
    requires
        s.no_duplicates(),
        s.len() >= n,
        forall|j: int| 0 <= j < s.len() ==> 0 <= #[trigger] s[j] < n,
        0 <= k < n,
    ensures
        s.contains(k),
{
    broadcast use vstd::seq_lib::seq_to_set_is_finite;

    if !s.contains(k) {
        s.unique_seq_to_set();
        vstd::set_lib::lemma_int_range(0, n);
        let r = vstd::set_lib::set_int_range(0, n).remove(k);
        assert(s.to_set().subset_of(r));
        vstd::set_lib::lemma_len_subset(s.to_set(), r);
    }
}

proof fn lemma_order_from_maximal(p: Seq<PipelineStep>, placed: Seq<int>, fuel: nat, ko: bool)
    requires
        placed.len() + fuel >= p.len(),
        placed.no_duplicates(),
        forall|j: int| 0 <= j < placed.len() ==> 0 <= #[trigger] placed[j] < p.len(),
    ensures
        forall|i: int| !is_ready(p, order_from(p, placed, fuel, ko), i, ko),
    decreases fuel,
{
    let o = order_from(p, placed, fuel, ko);
    if fuel == 0 {
        assert(o == placed);
        assert forall|i: int| !is_ready(p, o, i, ko) by {
            if 0 <= i < p.len() {
                lemma_distinct_indices_cover(placed, p.len() as int, i);
            }
        }
    } else {
        let i = first_ready(p, placed, 0, ko);
        lemma_first_ready_bounds(p, placed, 0, ko);
        if i >= p.len() {
            assert(o == placed);
            assert forall|k: int| !is_ready(p, o, k, ko) by {
                if 0 <= k < p.len() {
                    assert(!is_ready(p, placed, k, ko));
                }
            }
        } else {
            let np = placed.push(i);
            assert(np.no_duplicates()) by {
                assert forall|a: int, b: int|
                    0 <= a < np.len() && 0 <= b < np.len() && a != b implies np[a] != np[b] by {
                    if a < placed.len() && b < placed.len() {
                        assert(np[a] == placed[a] && np[b] == placed[b]);
                    } else if a < placed.len() {
                        assert(np[a] == placed[a]);
                    } else if b < placed.len() {
                        assert(np[b] == placed[b]);
                    }
                }
            }
            assert forall|j: int| 0 <= j < np.len() implies 0 <= #[trigger] np[j] < p.len() by {
                if j < placed.len() {
                    assert(np[j] == placed[j]);
                }
            }
            lemma_order_from_maximal(p, np, (fuel - 1) as nat, ko);
            assert(o == order_from(p, np, (fuel - 1) as nat, ko));
        }
    }
}

/// Every step left out of `o` has a dependency that counts and names no
/// step of `o`.
pub open spec fn blocked_outside(p: Seq<PipelineStep>, o: Seq<int>, ko: bool) -> bool {
    forall|i: int|
        0 <= i < p.len() && !#[trigger] o.contains(i) ==> exists|d: Seq<char>|
            #[trigger] p[i].deps().contains(d) && counts(p, d, ko) && !ids_at(p, o).contains(d)
}

/// A placement order stops only where every remaining step is blocked.
pub proof fn lemma_order_maximal(p: Seq<PipelineStep>, ko: bool)
    ensures
        blocked_outside(p, placement(p, ko), ko),
        forall|i: int| !is_ready(p, placement(p, ko), i, ko),
{
    lemma_order_from_maximal(p, Seq::empty(), p.len(), ko);
    let o = placement(p, ko);
    assert forall|i: int| 0 <= i < p.len() && !#[trigger] o.contains(i) implies exists|d: Seq<char>|
        #[trigger] p[i].deps().contains(d) && counts(p, d, ko) && !ids_at(p, o).contains(d) by {
        assert(!is_ready(p, o, i, ko));
        let d = choose|d: Seq<char>|
            !(p[i].deps().contains(d) && counts(p, d, ko) ==> ids_at(p, o).contains(d));
        assert(p[i].deps().contains(d) && counts(p, d, ko) && !ids_at(p, o).contains(d));
    }
}

} // verus!

verus! {

/// A step with a dependency that counts and that no placed step carries is
/// not placed; in particular a step depending on one that is not placed
/// (and whose identifier no placed step shares) is not placed either.
pub proof fn lemma_blocked_step_not_placed(p: Seq<PipelineStep>, ko: bool, i: int, d: Seq<char>)
    requires
        p[i].deps().contains(d),
        counts(p, d, ko),
        !ids_at(p, placement(p, ko)).contains(d),
    ensures
        !placement(p, ko).contains(i),
{
    let o = placement(p, ko);
    lemma_order_respects_dependencies(p, ko);
    if o.contains(i) {
        let j = choose|j: int| 0 <= j < o.len() && o[j] == i;
        assert(deps_among(p, o[j], ids_at(p, o.take(j)), ko));
        assert(ids_at(p, o.take(j)).contains(d));
        let m = choose|m: int| 0 <= m < ids_at(p, o.take(j)).len() && ids_at(p, o.take(j))[m] == d;
        assert(o.take(j)[m] == o[m]);
        assert(ids_at(p, o)[m] == d);
    }
}

/// A step that depends on an identifier no step of the pipeline carries is
/// never in the execution order.
pub proof fn lemma_unknown_dependency_never_placed(p: Seq<PipelineStep>, i: int, d: Seq<char>)
    requires
        0 <= i < p.len(),
        p[i].deps().contains(d),
        !step_ids(p).contains(d),
    ensures
        !dependency_order(p).contains(i),
{
    let o = dependency_order(p);
    lemma_order_in_range(p, false);
    if ids_at(p, o).contains(d) {
        let m = choose|m: int| 0 <= m < ids_at(p, o).len() && ids_at(p, o)[m] == d;
        assert(step_ids(p)[o[m]] == d);
    }
    lemma_blocked_step_not_placed(p, false, i, d);
}

/// Every dependency of every step names a step of the pipeline.
pub open spec fn dependencies_known(p: Seq<PipelineStep>) -> bool {
    forall|i: int, d: Seq<char>| 0 <= i < p.len() && #[trigger] p[i].deps().contains(d) ==> step_ids(p).contains(d)
}

proof fn lemma_first_ready_known(p: Seq<PipelineStep>, placed: Seq<int>, j: int)
    requires
        dependencies_known(p),
    ensures
        first_ready(p, placed, j, false) == first_ready(p, placed, j, true),
    decreases p.len() - j,
{
    if j >= 0 && j < p.len() {
        assert(is_ready(p, placed, j, false) == is_ready(p, placed, j, true)) by {
            assert forall|d: Seq<char>| #[trigger] p[j].deps().contains(d) implies counts(p, d, false) == counts(p, d, true) by {
            }
        }
    }
    if j < p.len() {
        lemma_first_ready_known(p, placed, j + 1);
    }
}

proof fn lemma_order_from_known(p: Seq<PipelineStep>, placed: Seq<int>, fuel: nat)
    requires
        dependencies_known(p),
    ensures
        order_from(p, placed, fuel, false) == order_from(p, placed, fuel, true),
    decreases fuel,
{
    if fuel > 0 {
        lemma_first_ready_known(p, placed, 0);
        let i = first_ready(p, placed, 0, false);
        if i < p.len() {
            lemma_order_from_known(p, placed.push(i), (fuel - 1) as nat);
        }
    }
}

/// When every dependency names a step and the dependencies form no cycle
/// (the cycle check passes), the execution order is a permutation of the
/// pipeline: each step exactly once, dependencies first.
pub proof fn lemma_order_is_permutation(p: Seq<PipelineStep>)
    requires
        dependencies_known(p),
        acyclic_order(p).len() == p.len(),
    ensures
        dependency_order(p).len() == p.len(),
        dependency_order(p).no_duplicates(),
        forall|i: int| 0 <= i < p.len() ==> dependency_order(p).contains(i),
        forall|k: int| 0 <= k < p.len() ==> 0 <= #[trigger] dependency_order(p)[k] < p.len(),
{
    lemma_order_from_known(p, Seq::empty(), p.len());
    lemma_order_no_duplicates(p, false);
    lemma_order_in_range(p, false);
    assert forall|i: int| 0 <= i < p.len() implies dependency_order(p).contains(i) by {
        lemma_distinct_indices_cover(dependency_order(p), p.len() as int, i);
    }
}

} // verus!

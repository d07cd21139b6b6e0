//! Parallel pipeline execution in batches: every step whose dependencies
//! have completed runs in the next batch; results end up in step order.
use crate::models::{step_ids, PipelineStep};
use crate::pipeline::dag::{cycle_message, ready_for, unique_ids, DagValidator};
use crate::pipeline::topo::{
    acyclic_order, counts, dependencies_known, dependency_order, deps_among, ids_at,
    lemma_order_is_permutation, lemma_order_respects_dependencies,
};
use crate::text::{append_str, contains_str, decimal, str_eq, u64_to_string, views};
use vstd::prelude::*;

verus! {

/// What the caller does next in a parallel run.
#[derive(Debug, Clone)]
pub enum BatchStep {
    /// Run these steps (indices into the pipeline, in pipeline order)
    /// concurrently and report each one that completes.
    Run(Vec<usize>),
    /// Every step has completed.
    Done,
    /// No step can run although some have not completed.
    Stuck(String),
}

/// The message for a run that cannot go on.
pub open spec fn stuck_message(completed: nat, total: nat) -> Seq<char> {
    "Pipeline stuck: "@ + decimal(completed) + " completed out of "@ + decimal(total) + " steps"@
}

/// Whether any step is ready.
pub open spec fn any_ready(p: Seq<PipelineStep>, done: Seq<Seq<char>>) -> bool {
    exists|i: int| 0 <= i < p.len() && ready_for(p, done, i)
}

/// `r` lists, in increasing order, exactly the ready steps.
pub open spec fn ready_list(p: Seq<PipelineStep>, done: Seq<Seq<char>>, r: Seq<usize>) -> bool {
    &&& forall|k: int| 0 <= k < r.len() ==> #[trigger] r[k] < p.len() && ready_for(p, done, r[k] as int)
    &&& forall|a: int, b: int| 0 <= a < b < r.len() ==> r[a] < r[b]
    &&& forall|i: int| 0 <= i < p.len() && ready_for(p, done, i) ==> r.contains(i as usize)
}

/// Runs pipelines in parallel batches.
pub struct ParallelEngine {
    max_parallelism: usize,
    dag_validator: DagValidator,
}

/// A parallel run in progress: the identifiers of the completed steps.
pub struct ParallelRun {
    completed: Vec<String>,
}

impl ParallelRun {
    /// Identifiers of the completed steps.
    pub closed spec fn done(&self) -> Seq<Seq<char>> {
        views(self.completed@)
    }

    /// The completed identifiers are distinct and name steps of `p`.
    pub open spec fn wf(&self, p: Seq<PipelineStep>) -> bool {
        &&& self.done().no_duplicates()
        &&& forall|x: Seq<char>| self.done().contains(x) ==> step_ids(p).contains(x)
    }

    /// The next batch, or the end of the run.
    pub fn next_batch(&self, pipeline: &[PipelineStep]) -> (b: BatchStep)
        ensures
            match b {
                BatchStep::Run(r) => any_ready(pipeline@, self.done()) && ready_list(
                    pipeline@,
                    self.done(),
                    r@,
                ),
                BatchStep::Done => !any_ready(pipeline@, self.done()) && self.done().len()
                    == pipeline@.len(),
                BatchStep::Stuck(m) => !any_ready(pipeline@, self.done()) && self.done().len()
                    != pipeline@.len() && m@ == stuck_message(
                    self.done().len(),
                    pipeline@.len(),
                ),
            },
    {
        let dag = DagValidator::new();
        let ready = dag.get_ready_steps(pipeline, &self.completed);
        if ready.len() == 0 {
            proof {
                assert forall|i: int| 0 <= i < pipeline@.len() implies !ready_for(pipeline@, self.done(), i) by {
                    if ready_for(pipeline@, self.done(), i) {
                        assert(ready@.contains(i as usize));
                    }
                }
            }
            if self.completed.len() == pipeline.len() {
                BatchStep::Done
            } else {
                let mut m = String::new();
                append_str(&mut m, "Pipeline stuck: ");
                let c = u64_to_string(self.completed.len() as u64);
                append_str(&mut m, c.as_str());
                append_str(&mut m, " completed out of ");
                let t = u64_to_string(pipeline.len() as u64);
                append_str(&mut m, t.as_str());
                append_str(&mut m, " steps");
                BatchStep::Stuck(m)
            }
        } else {
            assert(ready_for(pipeline@, self.done(), ready@[0] as int));
            BatchStep::Run(ready)
        }
    }

    /// Records that the step at `index` completed.
    pub fn record_completed(&mut self, pipeline: &[PipelineStep], index: usize)
        requires
            old(self).wf(pipeline@),
            index < pipeline.len(),
        ensures
            final(self).wf(pipeline@),
            final(self).done().to_set() == old(self).done().to_set().insert(pipeline@[index as int].step_id@),
    {
        let ghost before = self.done();
        let id = &pipeline[index].step_id;
        let present = contains_str(&self.completed, id.as_str());
        if present {
            proof {
                let w = choose|w: int| 0 <= w < self.completed@.len() && #[trigger] self.completed@[w]@ == id@;
                assert(before[w] == id@);
                assert(before.to_set() =~= before.to_set().insert(id@));
            }
        } else {
            self.completed.push(id.clone());
            proof {
                let after = self.done();
                assert(after =~= before.push(id@));
                assert forall|w: int| 0 <= w < before.len() implies before[w] != id@ by {
                    assert(before[w] == self.completed@[w]@);
                }
                assert(after.no_duplicates());
                assert(step_ids(pipeline@)[index as int] == id@);
                assert forall|x: Seq<char>| after.contains(x) implies step_ids(pipeline@).contains(x) by {
                    let w = choose|w: int| 0 <= w < after.len() && after[w] == x;
                    if w < before.len() {
                        assert(before[w] == x);
                    }
                }
                before.lemma_push_to_set_commute(id@);
                assert(after.to_set() =~= before.to_set().insert(id@));
            }
        }
    }
}

impl ParallelEngine {
    pub closed spec fn parallelism(&self) -> usize {
        self.max_parallelism
    }

    pub fn new(max_parallelism: usize) -> (e: Self)
        ensures
            e.parallelism() == max_parallelism,
    {
        ParallelEngine { max_parallelism, dag_validator: DagValidator::new() }
    }

    /// How many steps of a batch may run at once.
    pub fn max_parallelism(&self) -> (n: usize)
        ensures
            n == self.parallelism(),
    {
        self.max_parallelism
    }

    /// Starts a run: fails when the dependencies form a cycle.
    pub fn start(&self, pipeline: &[PipelineStep]) -> (r: Result<ParallelRun, String>)
        ensures
            r is Ok <==> acyclic_order(pipeline@).len() == pipeline@.len(),
            r is Ok ==> r->Ok_0.wf(pipeline@) && r->Ok_0.done().len() == 0,
            r is Err ==> r->Err_0@ == cycle_message(),
    {
        match self.dag_validator.validate_cycle(pipeline) {
            Ok(()) => {
                let run = ParallelRun { completed: Vec::new() };
                assert(run.done() =~= Seq::<Seq<char>>::empty());
                Ok(run)
            },
            Err(e) => Err(e),
        }
    }
}

/// A run that is done has completed every step (when identifiers are distinct).
pub proof fn lemma_done_means_all_completed(p: Seq<PipelineStep>, run: ParallelRun)
    requires
        run.wf(p),
        unique_ids(p),
        run.done().len() == p.len(),
    ensures
        forall|i: int| 0 <= i < p.len() ==> run.done().contains(#[trigger] p[i].step_id@),
{
    broadcast use vstd::seq_lib::seq_to_set_is_finite;

    let done = run.done();
    let ids = step_ids(p);
    assert forall|i: int| 0 <= i < p.len() implies done.contains(#[trigger] p[i].step_id@) by {
        let x = p[i].step_id@;
        if !done.contains(x) {
            done.unique_seq_to_set();
            assert(ids.no_duplicates()) by {
                assert forall|a: int, b: int| 0 <= a < ids.len() && 0 <= b < ids.len() && a != b implies ids[a] != ids[b] by {
                    assert(ids[a] == p[a].step_id@ && ids[b] == p[b].step_id@);
                }
            }
            ids.unique_seq_to_set();
            assert(ids[i] == x);
            let rest = ids.to_set().remove(x);
            assert(done.to_set().subset_of(rest));
            vstd::set_lib::lemma_len_subset(done.to_set(), rest);
        }
    }
}

/// Order number of the last step with identifier `id`, or `u32::MAX`
/// when no step has it.
pub open spec fn order_key(p: Seq<PipelineStep>, id: Seq<char>) -> u32
    decreases p.len(),
{
    if p.len() == 0 {
        u32::MAX
    } else if p.last().step_id@ == id {
        p.last().order
    } else {
        order_key(p.drop_last(), id)
    }
}

/// Result `a` sorts strictly before result `b`: lower key, or equal key and
/// earlier position.
pub open spec fn sorts_before(keys: Seq<u32>, a: usize, b: usize) -> bool {
    keys[a as int] < keys[b as int] || (keys[a as int] == keys[b as int] && a < b)
}

/// Order number of the last step carrying `id`.
fn key_of(pipeline: &[PipelineStep], id: &str) -> (k: u32)
    ensures
        k == order_key(pipeline@, id@),
{
    let mut i = pipeline.len();
    assert(pipeline@.take(pipeline.len() as int) =~= pipeline@);
    while i > 0
        invariant
            i <= pipeline.len(),
            order_key(pipeline@, id@) == order_key(pipeline@.take(i as int), id@),
        decreases i,
    {
        let ghost q = pipeline@.take(i as int);
        assert(q.drop_last() =~= pipeline@.take(i - 1));
        assert(q.last() == pipeline@[i - 1]);
        if str_eq(pipeline[i - 1].step_id.as_str(), id) {
            return pipeline[i - 1].order;
        }
        i -= 1;
    }
    u32::MAX
}

/// The positions of `result_ids` sorted by the order number of their step,
/// keeping the given order among equal numbers (a stable sort); results
/// whose identifier no step carries go last.
pub fn order_results(pipeline: &[PipelineStep], result_ids: &Vec<String>) -> (r: Vec<usize>)
    ensures
        r.len() == result_ids.len(),
        forall|k: int| 0 <= k < r.len() ==> #[trigger] r@[k] < result_ids.len(),
        forall|a: int, b: int|
            0 <= a < b < r.len() ==> sorts_before(
                result_ids@.map_values(|s: String| order_key(pipeline@, s@)),
                r@[a],
                r@[b],
            ),
{
    let ghost keys_spec = result_ids@.map_values(|s: String| order_key(pipeline@, s@));
    let mut keys: Vec<u32> = Vec::new();
    let mut j: usize = 0;
    while j < result_ids.len()
        invariant
            j <= result_ids.len(),
            keys@ =~= keys_spec.take(j as int),
            keys_spec == result_ids@.map_values(|s: String| order_key(pipeline@, s@)),
        decreases result_ids.len() - j,
    {
        let k = key_of(pipeline, result_ids[j].as_str());
        keys.push(k);
        j += 1;
    }
    assert(keys@ =~= keys_spec);
    let mut r: Vec<usize> = Vec::new();
    let mut i: usize = 0;
    while i < result_ids.len()
        invariant
            i <= result_ids.len(),
            keys@ == keys_spec,
            keys.len() == result_ids.len(),
            r.len() == i,
            forall|k: int| 0 <= k < r.len() ==> #[trigger] r@[k] < i,
            forall|a: int, b: int| 0 <= a < b < r.len() ==> sorts_before(keys_spec, r@[a], r@[b]),
        decreases result_ids.len() - i,
    {
        let ki = keys[i];
        let mut pos: usize = 0;
        while pos < r.len() && keys[r[pos]] <= ki
            invariant
                pos <= r.len(),
                keys@ == keys_spec,
                keys.len() == result_ids.len(),
                forall|k: int| 0 <= k < r.len() ==> #[trigger] r@[k] < i,
                i < keys.len(),
                ki == keys_spec[i as int],
                forall|k: int| 0 <= k < pos ==> keys_spec[#[trigger] r@[k] as int] <= ki,
            decreases r.len() - pos,
        {
            pos += 1;
        }
        let ghost old_r = r@;
        proof {
            assert forall|k: int| pos <= k < old_r.len() implies keys_spec[#[trigger] old_r[k] as int] > ki by {
                assert(keys_spec[old_r[pos as int] as int] > ki);
                if k > pos {
                    assert(sorts_before(keys_spec, old_r[pos as int], old_r[k]));
                }
            }
        }
        r.insert(pos, i);
        proof {
            old_r.insert_ensures(pos as int, i);
            assert forall|k: int| 0 <= k < r.len() implies #[trigger] r@[k] < i + 1 by {
                if k < pos {
                    assert(r@[k] == old_r[k]);
                } else if k > pos {
                    assert(r@[k] == old_r[k - 1]);
                }
            }
            assert forall|a: int, b: int| 0 <= a < b < r.len() implies sorts_before(keys_spec, r@[a], r@[b]) by {
                if b < pos {
                    assert(r@[a] == old_r[a] && r@[b] == old_r[b]);
                } else if b == pos {
                    assert(r@[a] == old_r[a]);
                } else if a < pos {
                    assert(r@[a] == old_r[a] && r@[b] == old_r[b - 1]);
                } else if a == pos {
                    assert(r@[b] == old_r[b - 1]);
                } else {
                    assert(r@[a] == old_r[a - 1] && r@[b] == old_r[b - 1]);
                }
            }
        }
        i += 1;
    }
    r
}

} // verus!

verus! {

/// A batch holds distinct steps of the pipeline, none of which has
/// completed: no step runs twice.
pub proof fn lemma_batch_runs_new_steps(p: Seq<PipelineStep>, done: Seq<Seq<char>>, r: Seq<usize>)
    requires
        ready_list(p, done, r),
    ensures
        r.no_duplicates(),
        forall|k: int| 0 <= k < r.len() ==> #[trigger] r[k] < p.len() && !done.contains(p[r[k] as int].step_id@),
{
    assert forall|a: int, b: int| 0 <= a < r.len() && 0 <= b < r.len() && a != b implies r[a] != r[b] by {
        if a < b {
            assert(r[a] < r[b]);
        } else {
            assert(r[b] < r[a]);
        }
    }
}

/// A step that depends on an identifier no step carries is never ready, so
/// it never runs while the run holds only identifiers of steps.
pub proof fn lemma_unknown_dependency_never_ready(p: Seq<PipelineStep>, done: Seq<Seq<char>>, i: int, d: Seq<char>)
    requires
        forall|x: Seq<char>| done.contains(x) ==> step_ids(p).contains(x),
        p[i].deps().contains(d),
        !step_ids(p).contains(d),
    ensures
        !ready_for(p, done, i),
{
}

} // verus!

verus! {

/// Identifiers of the ready steps among the first `j`, in pipeline order:
/// the steps of the batch `next_batch` gives for `done`.
pub open spec fn batch_ids(p: Seq<PipelineStep>, done: Seq<Seq<char>>, j: int) -> Seq<Seq<char>>
    decreases j,
{
    if j <= 0 {
        Seq::empty()
    } else if j - 1 < p.len() && ready_for(p, done, j - 1) {
        batch_ids(p, done, j - 1).push(p[j - 1].step_id@)
    } else {
        batch_ids(p, done, j - 1)
    }
}

/// The identifiers completed after `rounds` batches of a parallel run in
/// which every batch runs and records all of its steps.
pub open spec fn parallel_done(p: Seq<PipelineStep>, rounds: nat) -> Seq<Seq<char>>
    decreases rounds,
{
    if rounds == 0 {
        Seq::empty()
    } else {
        let prev = parallel_done(p, (rounds - 1) as nat);
        prev + batch_ids(p, prev, p.len() as int)
    }
}

/// Every step of the pipeline has completed.
pub open spec fn all_completed(p: Seq<PipelineStep>, done: Seq<Seq<char>>) -> bool {
    forall|i: int| 0 <= i < p.len() ==> done.contains(#[trigger] p[i].step_id@)
}

proof fn lemma_batch_ids(p: Seq<PipelineStep>, done: Seq<Seq<char>>, j: int)
    requires
        0 <= j <= p.len(),
    ensures
        forall|x: Seq<char>|
            batch_ids(p, done, j).contains(x) <==> exists|i: int|
                0 <= i < j && ready_for(p, done, i) && #[trigger] p[i].step_id@ == x,
        unique_ids(p) ==> batch_ids(p, done, j).no_duplicates(),
    decreases j,
{
    broadcast use vstd::seq_lib::lemma_seq_contains_after_push;

    if j > 0 {
        lemma_batch_ids(p, done, j - 1);
        let prev = batch_ids(p, done, j - 1);
        assert forall|x: Seq<char>|
            batch_ids(p, done, j).contains(x) <==> exists|i: int|
                0 <= i < j && ready_for(p, done, i) && #[trigger] p[i].step_id@ == x by {
            if ready_for(p, done, j - 1) && x == p[j - 1].step_id@ {
                assert(0 <= j - 1 < j && ready_for(p, done, j - 1) && p[j - 1].step_id@ == x);
            }
            if exists|i: int| 0 <= i < j && ready_for(p, done, i) && #[trigger] p[i].step_id@ == x {
                let i = choose|i: int| 0 <= i < j && ready_for(p, done, i) && #[trigger] p[i].step_id@ == x;
                if i < j - 1 {
                    assert(prev.contains(x));
                }
            }
        }
        if unique_ids(p) && ready_for(p, done, j - 1) {
            if prev.contains(p[j - 1].step_id@) {
                let i = choose|i: int| 0 <= i < j - 1 && ready_for(p, done, i) && #[trigger] p[i].step_id@
                    == p[j - 1].step_id@;
                assert(p[i].step_id@ != p[j - 1].step_id@);
            }
            assert forall|a: int, b: int|
                0 <= a < batch_ids(p, done, j).len() && 0 <= b < batch_ids(p, done, j).len() && a != b implies batch_ids(
                p,
                done,
                j,
            )[a] != batch_ids(p, done, j)[b] by {
                let q = batch_ids(p, done, j);
                if a < prev.len() && b < prev.len() {
                    assert(q[a] == prev[a] && q[b] == prev[b]);
                } else if a < prev.len() {
                    assert(q[a] == prev[a]);
                    assert(prev.contains(prev[a]));
                } else if b < prev.len() {
                    assert(q[b] == prev[b]);
                    assert(prev.contains(prev[b]));
                }
            }
        }
    }
}

/// The completed identifiers of a parallel run name steps of the pipeline,
/// and with distinct step identifiers each appears once: no step runs twice.
pub proof fn lemma_parallel_each_step_once(p: Seq<PipelineStep>, rounds: nat)
    ensures
        forall|x: Seq<char>| parallel_done(p, rounds).contains(x) ==> step_ids(p).contains(x),
        unique_ids(p) ==> parallel_done(p, rounds).no_duplicates(),
    decreases rounds,
{
    if rounds > 0 {
        let prev = parallel_done(p, (rounds - 1) as nat);
        lemma_parallel_each_step_once(p, (rounds - 1) as nat);
        let b = batch_ids(p, prev, p.len() as int);
        lemma_batch_ids(p, prev, p.len() as int);
        let all = prev + b;
        assert forall|x: Seq<char>| all.contains(x) implies step_ids(p).contains(x) by {
            let k = choose|k: int| 0 <= k < all.len() && all[k] == x;
            if k < prev.len() {
                assert(prev[k] == x);
            } else {
                assert(b[k - prev.len()] == x);
                assert(b.contains(x));
                let i = choose|i: int| 0 <= i < p.len() && ready_for(p, prev, i) && #[trigger] p[i].step_id@ == x;
                assert(step_ids(p)[i] == x);
            }
        }
        if unique_ids(p) {
            assert forall|a: int, c: int| 0 <= a < all.len() && 0 <= c < all.len() && a != c implies all[a] != all[c] by {
                if a < prev.len() && c >= prev.len() {
                    assert(all[a] == prev[a]);
                    assert(b[c - prev.len()] == all[c]);
                    assert(b.contains(all[c]));
                    let i = choose|i: int| 0 <= i < p.len() && ready_for(p, prev, i) && #[trigger] p[i].step_id@ == all[c];
                    assert(prev.contains(prev[a]));
                } else if c < prev.len() && a >= prev.len() {
                    assert(all[c] == prev[c]);
                    assert(b[a - prev.len()] == all[a]);
                    assert(b.contains(all[a]));
                    let i = choose|i: int| 0 <= i < p.len() && ready_for(p, prev, i) && #[trigger] p[i].step_id@ == all[a];
                    assert(prev.contains(prev[c]));
                } else if a < prev.len() {
                    assert(all[a] == prev[a] && all[c] == prev[c]);
                } else {
                    assert(all[a] == b[a - prev.len()] && all[c] == b[c - prev.len()]);
                }
            }
        }
    }
}

/// With distinct step identifiers, a step that depends on an identifier no
/// step carries never runs in a parallel run.
pub proof fn lemma_parallel_unknown_dependency_never_runs(p: Seq<PipelineStep>, rounds: nat, i: int, d: Seq<char>)
    requires
        unique_ids(p),
        0 <= i < p.len(),
        p[i].deps().contains(d),
        !step_ids(p).contains(d),
    ensures
        !parallel_done(p, rounds).contains(p[i].step_id@),
    decreases rounds,
{
    if rounds > 0 {
        let prev = parallel_done(p, (rounds - 1) as nat);
        lemma_parallel_unknown_dependency_never_runs(p, (rounds - 1) as nat, i, d);
        lemma_parallel_each_step_once(p, (rounds - 1) as nat);
        let b = batch_ids(p, prev, p.len() as int);
        lemma_batch_ids(p, prev, p.len() as int);
        if (prev + b).contains(p[i].step_id@) {
            let k = choose|k: int| 0 <= k < (prev + b).len() && (prev + b)[k] == p[i].step_id@;
            if k < prev.len() {
                assert(prev[k] == p[i].step_id@);
            } else {
                assert(b[k - prev.len()] == p[i].step_id@);
                assert(b.contains(p[i].step_id@));
                let i2 = choose|i2: int| 0 <= i2 < p.len() && ready_for(p, prev, i2) && #[trigger] p[i2].step_id@
                    == p[i].step_id@;
                assert(i2 == i);
                assert(prev.contains(d));
            }
        }
    }
}

proof fn lemma_some_ready_from(p: Seq<PipelineStep>, done: Seq<Seq<char>>, k: int)
    requires
        dependencies_known(p),
        acyclic_order(p).len() == p.len(),
        unique_ids(p),
        0 <= k <= p.len(),
        forall|k2: int| 0 <= k2 < k ==> done.contains(p[#[trigger] dependency_order(p)[k2]].step_id@),
        !all_completed(p, done),
    ensures
        exists|i: int| 0 <= i < p.len() && ready_for(p, done, i),
    decreases p.len() - k,
{
    let o = dependency_order(p);
    lemma_order_is_permutation(p);
    if k == p.len() {
        assert forall|i: int| 0 <= i < p.len() implies done.contains(#[trigger] p[i].step_id@) by {
            assert(o.contains(i));
            let m = choose|m: int| 0 <= m < o.len() && o[m] == i;
            assert(done.contains(p[o[m]].step_id@));
        }
    } else if done.contains(p[o[k]].step_id@) {
        assert forall|k2: int| 0 <= k2 < k + 1 implies done.contains(p[#[trigger] o[k2]].step_id@) by {
            if k2 < k {
                assert(done.contains(p[o[k2]].step_id@));
            }
        }
        lemma_some_ready_from(p, done, k + 1);
    } else {
        let i = o[k];
        lemma_order_respects_dependencies(p, false);
        assert(deps_among(p, o[k], ids_at(p, o.take(k)), false));
        assert forall|d: Seq<char>| #[trigger] p[i].deps().contains(d) implies done.contains(d) by {
            assert(counts(p, d, false));
            assert(ids_at(p, o.take(k)).contains(d));
            let m = choose|m: int| 0 <= m < ids_at(p, o.take(k)).len() && ids_at(p, o.take(k))[m] == d;
            assert(o.take(k)[m] == o[m]);
            assert(done.contains(p[o[m]].step_id@));
        }
        assert(ready_for(p, done, i));
    }
}

proof fn lemma_parallel_grows(p: Seq<PipelineStep>, rounds: nat)
    requires
        dependencies_known(p),
        acyclic_order(p).len() == p.len(),
        unique_ids(p),
    ensures
        all_completed(p, parallel_done(p, rounds)) || parallel_done(p, rounds).len() >= rounds,
    decreases rounds,
{
    if rounds > 0 {
        let prev = parallel_done(p, (rounds - 1) as nat);
        lemma_parallel_grows(p, (rounds - 1) as nat);
        let b = batch_ids(p, prev, p.len() as int);
        lemma_batch_ids(p, prev, p.len() as int);
        let all = prev + b;
        if all_completed(p, prev) {
            assert forall|i: int| 0 <= i < p.len() implies all.contains(#[trigger] p[i].step_id@) by {
                let m = choose|m: int| 0 <= m < prev.len() && prev[m] == p[i].step_id@;
                assert(all[m] == prev[m]);
            }
        } else {
            lemma_some_ready_from(p, prev, 0);
            let i = choose|i: int| 0 <= i < p.len() && ready_for(p, prev, i);
            assert(b.contains(p[i].step_id@));
        }
    }
}

/// With distinct step identifiers that all name steps and no dependency
/// cycle, a parallel run completes every step, each once, within as many
/// batches as there are steps; the run then ends with `Done`.
pub proof fn lemma_parallel_completes(p: Seq<PipelineStep>)
    requires
        dependencies_known(p),
        acyclic_order(p).len() == p.len(),
        unique_ids(p),
    ensures
        all_completed(p, parallel_done(p, p.len())),
        parallel_done(p, p.len()).len() == p.len(),
        parallel_done(p, p.len()).no_duplicates(),
{
    broadcast use vstd::seq_lib::seq_to_set_is_finite;

    let done = parallel_done(p, p.len());
    let ids = step_ids(p);
    lemma_parallel_grows(p, p.len());
    lemma_parallel_each_step_once(p, p.len());
    done.unique_seq_to_set();
    assert(ids.no_duplicates()) by {
        assert forall|a: int, b: int| 0 <= a < ids.len() && 0 <= b < ids.len() && a != b implies ids[a] != ids[b] by {
            assert(ids[a] == p[a].step_id@ && ids[b] == p[b].step_id@);
        }
    }
    ids.unique_seq_to_set();
    assert(done.to_set().subset_of(ids.to_set()));
    vstd::set_lib::lemma_len_subset(done.to_set(), ids.to_set());
    if !all_completed(p, done) {
        vstd::set_lib::lemma_subset_equality(done.to_set(), ids.to_set());
        assert forall|i: int| 0 <= i < p.len() implies done.contains(#[trigger] p[i].step_id@) by {
            assert(ids[i] == p[i].step_id@);
            assert(ids.to_set().contains(ids[i]));
        }
    }
    assert(ids.to_set().subset_of(done.to_set())) by {
        assert forall|x: Seq<char>| ids.to_set().contains(x) implies done.to_set().contains(x) by {
            let i = choose|i: int| 0 <= i < ids.len() && ids[i] == x;
            assert(done.contains(p[i].step_id@));
        }
    }
    vstd::set_lib::lemma_len_subset(ids.to_set(), done.to_set());
}

/// The steps of a `Run` batch that `next_batch` gives are those the model
/// `batch_ids` runs: the same identifiers.
pub proof fn lemma_batch_matches_ready_list(p: Seq<PipelineStep>, done: Seq<Seq<char>>, r: Seq<usize>)
    requires
        ready_list(p, done, r),
        p.len() <= usize::MAX,
    ensures
        forall|x: Seq<char>|
            batch_ids(p, done, p.len() as int).contains(x) <==> exists|k: int|
                0 <= k < r.len() && #[trigger] p[r[k] as int].step_id@ == x,
{
    lemma_batch_ids(p, done, p.len() as int);
    assert forall|x: Seq<char>|
        batch_ids(p, done, p.len() as int).contains(x) <==> exists|k: int|
            0 <= k < r.len() && #[trigger] p[r[k] as int].step_id@ == x by {
        if batch_ids(p, done, p.len() as int).contains(x) {
            let i = choose|i: int| 0 <= i < p.len() && ready_for(p, done, i) && #[trigger] p[i].step_id@ == x;
            assert(r.contains(i as usize));
            let k = choose|k: int| 0 <= k < r.len() && r[k] == i as usize;
            assert(p[r[k] as int].step_id@ == x);
        }
        if exists|k: int| 0 <= k < r.len() && #[trigger] p[r[k] as int].step_id@ == x {
            let k = choose|k: int| 0 <= k < r.len() && #[trigger] p[r[k] as int].step_id@ == x;
            assert(r[k] < p.len() && ready_for(p, done, r[k] as int));
        }
    }
}

} // verus!

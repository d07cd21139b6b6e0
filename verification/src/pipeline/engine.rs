//! Sequential pipeline execution as a state machine: the library decides,
//! for each step in dependency order, whether it runs, is skipped, or is
//! refused by its own security policy, and whether a failed step runs
//! again under its retry policy; the caller runs the step and reports its
//! status back.
use crate::executor::{executor_for, ExecutorType};
use crate::models::{ErrorInfo, PipelineStep, StepResult, StepType, TaskManifest, TaskStatus};
use crate::security::policy::{
    policy_error_text, policy_permits, policy_refusal, validate_step, PolicyError,
};
use crate::models::step_ids;
use crate::pipeline::dag::unique_ids;
use crate::pipeline::topo::{
    counts, dependency_order, deps_among, ids_at, lemma_order_in_range, lemma_order_no_duplicates,
    lemma_order_respects_dependencies, placement_of,
};
use crate::text::{append_str, contains_str, str_eq, views};
use vstd::prelude::*;

verus! {

/// Why a step was not run.
#[derive(Debug, Clone, Copy, PartialEq, Eq, Structural)]
pub enum SkipReason {
    /// A dependency has not been run.
    DependencyNotCompleted,
    /// A dependency ran and did not succeed.
    UpstreamFailed,
}

impl SkipReason {
    /// The reason recorded in the skipped result.
    pub fn text(&self) -> (s: String)
        ensures
            s@ == reason_text(*self),
    {
        let mut s = String::new();
        match self {
            SkipReason::DependencyNotCompleted => append_str(
                &mut s,
                "Skipped due to dependency failure",
            ),
            SkipReason::UpstreamFailed => append_str(&mut s, "Skipped because upstream step failed"),
        }
        s
    }
}

/// Text of a skip reason.
pub open spec fn reason_text(r: SkipReason) -> Seq<char> {
    match r {
        SkipReason::DependencyNotCompleted => "Skipped due to dependency failure"@,
        SkipReason::UpstreamFailed => "Skipped because upstream step failed"@,
    }
}

/// What the caller has to do next.
#[derive(Debug, Clone, PartialEq, Eq)]
pub enum StepAction {
    /// Run the step at this index of the pipeline and report its status.
    Execute(usize),
    /// The step at this index was skipped; its result is recorded.
    Skip(usize, SkipReason),
    /// The step at this index breaks its own security policy and is not
    /// run; it counts as failed.
    Refuse(usize, PolicyError),
    /// Nothing more runs.
    Finished,
}

/// A decision of a run, without the details of a refusal.
pub enum RunMove {
    Execute(usize),
    Skip(usize, SkipReason),
    Refuse(usize),
    Finished,
}

/// The decision an action stands for.
pub open spec fn move_of(a: StepAction) -> RunMove {
    match a {
        StepAction::Execute(i) => RunMove::Execute(i),
        StepAction::Skip(i, r) => RunMove::Skip(i, r),
        StepAction::Refuse(i, _) => RunMove::Refuse(i),
        StepAction::Finished => RunMove::Finished,
    }
}

/// Abstract state of a run.
pub struct RunView {
    /// Pipeline indices in execution order.
    pub order: Seq<int>,
    /// Number of entries of `order` handled so far.
    pub position: int,
    /// Identifiers of the steps that were handled: run to their last status, or refused.
    pub completed: Seq<Seq<char>>,
    /// Identifier and status of every result, in result order.
    pub outcomes: Seq<(Seq<char>, TaskStatus)>,
    /// Index of the step being run, if any.
    pub pending: Option<int>,
    /// Index of a failed step that is to run again, if any.
    pub again: Option<int>,
    /// How many times the current step has been run again.
    pub retries: int,
    /// A required step failed.
    pub stopped: bool,
}

/// Status of the first result for `id` at or after position `k`.
pub open spec fn first_status_from(o: Seq<(Seq<char>, TaskStatus)>, id: Seq<char>, k: int) -> Option<
    TaskStatus,
>
    decreases o.len() - k,
{
    if k >= o.len() || k < 0 {
        None
    } else if o[k].0 == id {
        Some(o[k].1)
    } else {
        first_status_from(o, id, k + 1)
    }
}

/// Status of the first result for `id`.
pub open spec fn first_status(o: Seq<(Seq<char>, TaskStatus)>, id: Seq<char>) -> Option<TaskStatus> {
    first_status_from(o, id, 0)
}

/// Every dependency of step `i` has been run.
pub open spec fn dependencies_completed(p: Seq<PipelineStep>, i: int, completed: Seq<Seq<char>>) -> bool {
    forall|d: Seq<char>| #[trigger] p[i].deps().contains(d) ==> completed.contains(d)
}

/// Step `i` runs whatever happened upstream, or no dependency has a
/// first result other than success.
pub open spec fn upstream_succeeded(p: Seq<PipelineStep>, i: int, o: Seq<(Seq<char>, TaskStatus)>) -> bool {
    p[i].always_run || forall|d: Seq<char>|
        #[trigger] p[i].deps().contains(d) ==> match first_status(o, d) {
            Some(st) => st == TaskStatus::Success,
            None => true,
        }
}

/// The state of a run before any step.
pub open spec fn initial_run(order: Seq<int>) -> RunView {
    RunView {
        order,
        position: 0,
        completed: Seq::empty(),
        outcomes: Seq::empty(),
        pending: None,
        again: None,
        retries: 0,
        stopped: false,
    }
}

/// Whether a step that ran `retries` times again may run once more.
pub open spec fn can_retry(step: PipelineStep, retries: int) -> bool {
    match step.retry_policy {
        Some(rp) => retries < rp.max_retries,
        None => false,
    }
}

/// The next decision of a run and the state after it. A failed step with
/// retries left runs again first. After a required step failed, steps are
/// still checked and reported as skipped, but the run ends at the first
/// step that would be executed. A step that breaks its own security policy
/// is refused: it is not executed, it counts as handled (completed) and its
/// result as failed.
pub open spec fn next_step(p: Seq<PipelineStep>, s: RunView) -> (RunView, RunMove) {
    if s.again is Some {
        (RunView { pending: s.again, again: None, ..s }, RunMove::Execute(s.again->0 as usize))
    } else if s.position >= s.order.len() {
        (s, RunMove::Finished)
    } else {
        let i = s.order[s.position];
        let id = p[i].step_id@;
        if !dependencies_completed(p, i, s.completed) {
            (
                RunView {
                    position: s.position + 1,
                    outcomes: s.outcomes.push((id, TaskStatus::Skipped)),
                    ..s
                },
                RunMove::Skip(i as usize, SkipReason::DependencyNotCompleted),
            )
        } else if !upstream_succeeded(p, i, s.outcomes) {
            (
                RunView {
                    position: s.position + 1,
                    outcomes: s.outcomes.push((id, TaskStatus::Skipped)),
                    ..s
                },
                RunMove::Skip(i as usize, SkipReason::UpstreamFailed),
            )
        } else if s.stopped {
            (s, RunMove::Finished)
        } else if !policy_permits(p[i]) {
            (
                RunView {
                    position: s.position + 1,
                    completed: s.completed.push(id),
                    outcomes: s.outcomes.push((id, TaskStatus::Failed)),
                    stopped: p[i].must_pass,
                    ..s
                },
                RunMove::Refuse(i as usize),
            )
        } else {
            (
                RunView { position: s.position + 1, pending: Some(i), retries: 0, ..s },
                RunMove::Execute(i as usize),
            )
        }
    }
}

/// Whether the status reported for the running step is its last one: a
/// success, or a failure with no retry left.
pub open spec fn is_final(p: Seq<PipelineStep>, s: RunView, status: TaskStatus) -> bool {
    status == TaskStatus::Success || !can_retry(p[s.pending->0], s.retries)
}

/// The state after the running step reported `status`: a failure with
/// retries left makes the step run again; otherwise the status is recorded.
pub open spec fn after_result(p: Seq<PipelineStep>, s: RunView, status: TaskStatus) -> RunView {
    let i = s.pending->0;
    let id = p[i].step_id@;
    if !is_final(p, s, status) {
        RunView { pending: None, again: Some(i), retries: s.retries + 1, ..s }
    } else {
        RunView {
            completed: s.completed.push(id),
            outcomes: s.outcomes.push((id, status)),
            pending: None,
            stopped: s.stopped || (status != TaskStatus::Success && p[i].must_pass),
            ..s
        }
    }
}

/// A run of a pipeline in progress.
pub struct PipelineRun {
    order: Vec<usize>,
    position: usize,
    completed: Vec<String>,
    outcomes: Vec<(String, TaskStatus)>,
    pending: Option<usize>,
    again: Option<usize>,
    retries: u32,
    stopped: bool,
}

impl View for PipelineRun {
    type V = RunView;

    closed spec fn view(&self) -> RunView {
        RunView {
            order: self.order@.map_values(|x: usize| x as int),
            position: self.position as int,
            completed: views(self.completed@),
            outcomes: self.outcomes@.map_values(|o: (String, TaskStatus)| (o.0@, o.1)),
            pending: match self.pending {
                Some(i) => Some(i as int),
                None => None,
            },
            again: match self.again {
                Some(i) => Some(i as int),
                None => None,
            },
            retries: self.retries as int,
            stopped: self.stopped,
        }
    }
}

/// The order of a run points into `p` and its position is within the order.
pub open spec fn run_wf(p: Seq<PipelineStep>, s: RunView) -> bool {
    &&& 0 <= s.position <= s.order.len()
    &&& forall|k: int| 0 <= k < s.order.len() ==> 0 <= #[trigger] s.order[k] < p.len()
    &&& s.pending is Some ==> 0 <= s.pending->0 < p.len()
    &&& s.again is Some ==> 0 <= s.again->0 < p.len()
    &&& !(s.pending is Some && s.again is Some)
    &&& 0 <= s.retries <= u32::MAX
}

/// Whether the first result for `id` is a success (or there is none).
fn first_result_ok(outcomes: &Vec<(String, TaskStatus)>, id: &str) -> (r: bool)
    ensures
        r == match first_status(outcomes@.map_values(|o: (String, TaskStatus)| (o.0@, o.1)), id@) {
            Some(st) => st == TaskStatus::Success,
            None => true,
        },
{
    let ghost o = outcomes@.map_values(|o: (String, TaskStatus)| (o.0@, o.1));
    let mut k: usize = 0;
    while k < outcomes.len()
        invariant
            k <= outcomes.len(),
            o == outcomes@.map_values(|o: (String, TaskStatus)| (o.0@, o.1)),
            first_status_from(o, id@, 0) == first_status_from(o, id@, k as int),
        decreases outcomes.len() - k,
    {
        assert(o[k as int] == (outcomes@[k as int].0@, outcomes@[k as int].1));
        if str_eq(outcomes[k].0.as_str(), id) {
            return outcomes[k].1 == TaskStatus::Success;
        }
        k += 1;
    }
    true
}

impl PipelineRun {
    /// Well-formedness of the run for pipeline `p`.
    pub open spec fn wf(&self, p: Seq<PipelineStep>) -> bool {
        run_wf(p, self@)
    }

    /// Decides what happens next: a failed step with retries left runs
    /// again, otherwise the next step in order is run, skipped or refused.
    /// A skipped or refused step's result is recorded at once; a step to run
    /// stays pending until `record_result`. A refusal carries the error of
    /// checking the step against its own security policy.
    pub fn next_action(&mut self, pipeline: &[PipelineStep]) -> (a: StepAction)
        requires
            old(self).wf(pipeline@),
            old(self)@.pending is None,
        ensures
            final(self).wf(pipeline@),
            (final(self)@, move_of(a)) == next_step(pipeline@, old(self)@),
            a matches StepAction::Refuse(i, e) ==> policy_refusal(pipeline@[i as int], e),
    {
        let ghost p = pipeline@;
        let ghost s = self@;
        if let Some(i) = self.again {
            self.pending = Some(i);
            self.again = None;
            return StepAction::Execute(i);
        }
        if self.position >= self.order.len() {
            return StepAction::Finished;
        }
        let i = self.order[self.position];
        assert(s.order[s.position] == i as int);
        let step = &pipeline[i];
        let mut all_completed = true;
        let mut upstream_ok = true;
        let mut k: usize = 0;
        while k < step.depends_on.len()
            invariant
                p == pipeline@,
                s == self@,
                step == p[i as int],
                k <= step.depends_on.len(),
                all_completed == forall|k2: int|
                    0 <= k2 < k ==> s.completed.contains(#[trigger] p[i as int].deps()[k2]),
                upstream_ok == forall|k2: int|
                    0 <= k2 < k ==> match first_status(s.outcomes, #[trigger] p[i as int].deps()[k2]) {
                        Some(st) => st == TaskStatus::Success,
                        None => true,
                    },
            decreases step.depends_on.len() - k,
        {
            let d = &step.depends_on[k];
            assert(p[i as int].deps()[k as int] == d@);
            let c = contains_str(&self.completed, d.as_str());
            proof {
                if c {
                    let w = choose|w: int| 0 <= w < self.completed@.len() && #[trigger] self.completed@[w]@ == d@;
                    assert(s.completed[w] == d@);
                } else {
                    assert forall|w: int| 0 <= w < s.completed.len() implies s.completed[w] != d@ by {
                        assert(s.completed[w] == self.completed@[w]@);
                    }
                }
            }
            all_completed = all_completed && c;
            let ok = first_result_ok(&self.outcomes, d.as_str());
            upstream_ok = upstream_ok && ok;
            k += 1;
        }
        proof {
            assert(all_completed == dependencies_completed(p, i as int, s.completed)) by {
                if all_completed {
                    assert forall|d: Seq<char>| #[trigger] p[i as int].deps().contains(d) implies s.completed.contains(d) by {
                        let w = choose|w: int| 0 <= w < p[i as int].deps().len() && p[i as int].deps()[w] == d;
                    }
                } else {
                    let w = choose|w: int| 0 <= w < k && !s.completed.contains(#[trigger] p[i as int].deps()[w]);
                    assert(p[i as int].deps().contains(p[i as int].deps()[w]));
                }
            }
            assert(upstream_ok || step.always_run <==> upstream_succeeded(p, i as int, s.outcomes)) by {
                if !upstream_ok && !step.always_run {
                    let w = choose|w: int| 0 <= w < k && !(match first_status(s.outcomes, #[trigger] p[i as int].deps()[w]) {
                        Some(st) => st == TaskStatus::Success,
                        None => true,
                    });
                    assert(p[i as int].deps().contains(p[i as int].deps()[w]));
                }
                if upstream_ok {
                    assert forall|d: Seq<char>| #[trigger] p[i as int].deps().contains(d) implies (match first_status(s.outcomes, d) {
                        Some(st) => st == TaskStatus::Success,
                        None => true,
                    }) by {
                        let w = choose|w: int| 0 <= w < p[i as int].deps().len() && p[i as int].deps()[w] == d;
                    }
                }
            }
        }
        if all_completed && (upstream_ok || step.always_run) && self.stopped {
            return StepAction::Finished;
        }
        if all_completed && (upstream_ok || step.always_run) {
            if let Err(e) = validate_step(step) {
                self.position = self.position + 1;
                self.completed.push(step.step_id.clone());
                self.outcomes.push((step.step_id.clone(), TaskStatus::Failed));
                self.stopped = step.must_pass;
                assert(self@.completed =~= s.completed.push(p[i as int].step_id@));
                assert(self@.outcomes =~= s.outcomes.push((p[i as int].step_id@, TaskStatus::Failed)));
                return StepAction::Refuse(i, e);
            }
        }
        self.position = self.position + 1;
        if !all_completed {
            self.outcomes.push((step.step_id.clone(), TaskStatus::Skipped));
            assert(self@.outcomes =~= s.outcomes.push((p[i as int].step_id@, TaskStatus::Skipped)));
            return StepAction::Skip(i, SkipReason::DependencyNotCompleted);
        }
        if !(upstream_ok || step.always_run) {
            self.outcomes.push((step.step_id.clone(), TaskStatus::Skipped));
            assert(self@.outcomes =~= s.outcomes.push((p[i as int].step_id@, TaskStatus::Skipped)));
            return StepAction::Skip(i, SkipReason::UpstreamFailed);
        }
        self.pending = Some(i);
        self.retries = 0;
        StepAction::Execute(i)
    }

    /// The result of the pending step as reported: `r` with the number of
    /// times the step has been run again after failing.
    pub fn with_retry_count(&self, r: StepResult) -> (out: StepResult)
        ensures
            out == (StepResult { retry_count: self@.retries as u32, ..r }),
            out.retry_count == self@.retries,
    {
        StepResult { retry_count: self.retries, ..r }
    }

    /// How many times the pending step has been run again after failing.
    pub fn retries(&self) -> (n: u32)
        ensures
            n == self@.retries,
    {
        self.retries
    }

    /// Records the status of the step that `next_action` asked to run, and
    /// tells whether it is the step's last one (`false`: the step failed
    /// and runs again).
    pub fn record_result(&mut self, pipeline: &[PipelineStep], status: TaskStatus) -> (last: bool)
        requires
            old(self).wf(pipeline@),
            old(self)@.pending is Some,
        ensures
            final(self).wf(pipeline@),
            final(self)@ == after_result(pipeline@, old(self)@, status),
            last == is_final(pipeline@, old(self)@, status),
    {
        let ghost s = self@;
        let i = match self.pending {
            Some(i) => i,
            None => 0,
        };
        let step = &pipeline[i];
        if status != TaskStatus::Success {
            if let Some(rp) = &step.retry_policy {
                if self.retries < rp.max_retries {
                    self.pending = None;
                    self.again = Some(i);
                    self.retries = self.retries + 1;
                    return false;
                }
            }
        }
        self.completed.push(step.step_id.clone());
        self.outcomes.push((step.step_id.clone(), status));
        self.pending = None;
        self.stopped = self.stopped || (status != TaskStatus::Success && step.must_pass);
        proof {
            assert(self@.completed =~= s.completed.push(pipeline@[i as int].step_id@));
            assert(self@.outcomes =~= s.outcomes.push((pipeline@[i as int].step_id@, status)));
        }
        true
    }
}

/// Runs task pipelines one step at a time.
pub struct PipelineEngine;

impl PipelineEngine {
    pub fn new() -> Self {
        PipelineEngine
    }

    /// The execution order of a pipeline (indices into it).
    pub fn topological_sort(&self, pipeline: &[PipelineStep]) -> (order: Vec<usize>)
        ensures
            order@.map_values(|x: usize| x as int) == dependency_order(pipeline@),
    {
        placement_of(pipeline, false)
    }

    /// The executor for a step's type.
    pub fn get_executor(&self, step: &PipelineStep) -> (e: ExecutorType)
        ensures
            match step.step_type {
                StepType::Python => e is Python,
                StepType::Binary => e is Binary,
                StepType::Shell => e is Shell,
                StepType::Api => e is Api,
            },
    {
        executor_for(step)
    }

    /// Starts a run of the manifest's pipeline.
    pub fn start(&self, manifest: &TaskManifest) -> (run: PipelineRun)
        ensures
            run.wf(manifest.pipeline@),
            run@ == initial_run(dependency_order(manifest.pipeline@)),
    {
        let order = self.topological_sort(manifest.pipeline.as_slice());
        proof {
            lemma_order_in_range(manifest.pipeline@, false);
        }
        let run = PipelineRun {
            order,
            position: 0,
            completed: Vec::new(),
            outcomes: Vec::new(),
            pending: None,
            again: None,
            retries: 0,
            stopped: false,
        };
        proof {
            assert(run@.completed =~= Seq::<Seq<char>>::empty());
            assert(run@.outcomes =~= Seq::<(Seq<char>, TaskStatus)>::empty());
        }
        run
    }
}

impl Default for PipelineEngine {
    fn default() -> Self {
        PipelineEngine::new()
    }
}

/// The result recorded for a skipped step.
pub fn skipped_result(step: &PipelineStep, reason: SkipReason) -> (r: StepResult)
    ensures
        r.step_id@ == step.step_id@,
        r.status == TaskStatus::Skipped,
        r.reason is Some && r.reason->0@ == reason_text(reason),
        r.started_at is None,
        r.completed_at is None,
        r.exit_code is None,
        r.signal is None,
        r.log_path is None,
        r.log_url is None,
        r.stdout_lines is None,
        r.stderr_lines is None,
        r.artifact_urls@.len() == 0,
        r.retry_count == 0,
        r.error is None,
{
    StepResult {
        step_id: step.step_id.clone(),
        status: TaskStatus::Skipped,
        started_at: None,
        completed_at: None,
        exit_code: None,
        signal: None,
        log_path: None,
        log_url: None,
        stdout_lines: None,
        stderr_lines: None,
        artifact_urls: Vec::new(),
        retry_count: 0,
        error: None,
        reason: Some(reason.text()),
    }
}

/// The result recorded for a step refused by its own security policy: a
/// failure whose error is a `PolicyViolation` with the refusal's message.
pub fn refused_result(step: &PipelineStep, error: &PolicyError) -> (r: StepResult)
    ensures
        r.step_id@ == step.step_id@,
        r.status == TaskStatus::Failed,
        r.reason is Some && r.reason->0@ == "Refused by security policy"@,
        r.started_at is None,
        r.completed_at is None,
        r.exit_code is None,
        r.signal is None,
        r.log_path is None,
        r.log_url is None,
        r.stdout_lines is None,
        r.stderr_lines is None,
        r.artifact_urls@.len() == 0,
        r.retry_count == 0,
        r.error is Some,
        r.error->0.error_type@ == "PolicyViolation"@,
        r.error->0.message@ == policy_error_text(*error),
        r.error->0.stack_trace is None,
{
    let mut error_type = String::new();
    append_str(&mut error_type, "PolicyViolation");
    let mut reason = String::new();
    append_str(&mut reason, "Refused by security policy");
    StepResult {
        step_id: step.step_id.clone(),
        status: TaskStatus::Failed,
        started_at: None,
        completed_at: None,
        exit_code: None,
        signal: None,
        log_path: None,
        log_url: None,
        stdout_lines: None,
        stderr_lines: None,
        artifact_urls: Vec::new(),
        retry_count: 0,
        error: Some(
            ErrorInfo {
                error_type,
                message: error.message(),
                stack_trace: None,
                context: std::collections::HashMap::new(),
            },
        ),
        reason: Some(reason),
    }
}

} // verus!

verus! {

/// A step is run only when every dependency has been run, no dependency
/// has a first result other than success (unless it is marked to always
/// run), the run is not stopped and the step passes its own security
/// policy; a skip or a refusal names the check that failed.
pub proof fn lemma_decision_reasons(p: Seq<PipelineStep>, s: RunView)
    requires
        run_wf(p, s),
        s.again is None,
        p.len() <= usize::MAX,
    ensures
        match next_step(p, s).1 {
            RunMove::Execute(i) => i as int == s.order[s.position] && dependencies_completed(
                p,
                i as int,
                s.completed,
            ) && upstream_succeeded(p, i as int, s.outcomes) && !s.stopped && policy_permits(
                p[i as int],
            ),
            RunMove::Skip(i, SkipReason::DependencyNotCompleted) => i as int
                == s.order[s.position] && !dependencies_completed(p, i as int, s.completed),
            RunMove::Skip(i, SkipReason::UpstreamFailed) => i as int == s.order[s.position]
                && dependencies_completed(p, i as int, s.completed) && !upstream_succeeded(
                p,
                i as int,
                s.outcomes,
            ),
            RunMove::Refuse(i) => i as int == s.order[s.position] && dependencies_completed(
                p,
                i as int,
                s.completed,
            ) && upstream_succeeded(p, i as int, s.outcomes) && !s.stopped && !policy_permits(
                p[i as int],
            ),
            RunMove::Finished => s.position >= s.order.len() || (s.stopped && dependencies_completed(
                p,
                s.order[s.position],
                s.completed,
            ) && upstream_succeeded(p, s.order[s.position], s.outcomes)),
        },
{
}

/// A step that breaks its own security policy is never executed: when it
/// comes up it is refused and recorded as failed.
pub proof fn lemma_forbidden_step_not_executed(p: Seq<PipelineStep>, s: RunView)
    requires
        run_wf(p, s),
        s.again is None,
        s.position < s.order.len(),
        !policy_permits(p[s.order[s.position]]),
    ensures
        !(next_step(p, s).1 is Execute),
        next_step(p, s).1 is Refuse ==> next_step(p, s).0.outcomes == s.outcomes.push(
            (p[s.order[s.position]].step_id@, TaskStatus::Failed),
        ),
{
}

/// A step that fails with retries left runs again at once, and each run
/// again uses up one retry: a step runs at most once more than its
/// `max_retries`. No result is recorded for the failed run.
pub proof fn lemma_failed_step_runs_again(p: Seq<PipelineStep>, s: RunView, status: TaskStatus)
    requires
        s.pending is Some,
        s.again is None,
        0 <= s.pending->0 < p.len(),
        status != TaskStatus::Success,
        can_retry(p[s.pending->0], s.retries),
    ensures
        next_step(p, after_result(p, s, status)).1 == RunMove::Execute(s.pending->0 as usize),
        next_step(p, after_result(p, s, status)).0 == (RunView { retries: s.retries + 1, ..s }),
        s.retries + 1 <= p[s.pending->0].retry_policy->0.max_retries,
{
}

/// Once a step that must pass reports its last status and it is not a
/// success, the run is stopped.
pub proof fn lemma_required_failure_stops(p: Seq<PipelineStep>, s: RunView, status: TaskStatus)
    requires
        s.pending is Some,
        0 <= s.pending->0 < p.len(),
        status != TaskStatus::Success,
        !can_retry(p[s.pending->0], s.retries),
        p[s.pending->0].must_pass,
    ensures
        after_result(p, s, status).stopped,
{
}

/// A stopped run executes no further step and stays stopped: each decision
/// is a skip or the end, and the end leaves the state as it was.
pub proof fn lemma_stopped_run_executes_nothing(p: Seq<PipelineStep>, s: RunView)
    requires
        s.stopped,
        s.again is None,
    ensures
        !(next_step(p, s).1 is Execute),
        !(next_step(p, s).1 is Refuse),
        next_step(p, s).0.stopped,
        next_step(p, s).1 is Finished ==> next_step(p, s).0 == s,
{
}

/// A step one of whose dependencies has a first result other than success
/// is skipped, unless it is marked to always run.
pub proof fn lemma_failed_dependency_skips(p: Seq<PipelineStep>, s: RunView, d: Seq<char>)
    requires
        run_wf(p, s),
        s.again is None,
        s.position < s.order.len(),
        p[s.order[s.position]].deps().contains(d),
        first_status(s.outcomes, d) is Some,
        first_status(s.outcomes, d)->0 != TaskStatus::Success,
        !p[s.order[s.position]].always_run,
    ensures
        next_step(p, s).1 is Skip,
        next_step(p, s).0.outcomes == s.outcomes.push(
            (p[s.order[s.position]].step_id@, TaskStatus::Skipped),
        ),
{
}

/// One result per handled entry of the order, in that order, each carrying
/// the identifier of its step; the step being run, or about to run again,
/// is the last handled entry.
pub open spec fn results_follow_order(p: Seq<PipelineStep>, s: RunView) -> bool {
    &&& s.outcomes.len() + (if s.pending is Some || s.again is Some { 1int } else { 0int }) == s.position
    &&& forall|k: int| 0 <= k < s.outcomes.len() ==> #[trigger] s.outcomes[k].0 == p[s.order[k]].step_id@
    &&& s.pending is Some ==> s.position >= 1 && s.pending->0 == s.order[s.position - 1]
    &&& s.again is Some ==> s.position >= 1 && s.again->0 == s.order[s.position - 1]
}

/// The results of a run follow the execution order, one per handled step:
/// true at the start, kept by every decision and by every reported status.
pub proof fn lemma_results_follow_order(p: Seq<PipelineStep>, s: RunView, status: TaskStatus)
    requires
        run_wf(p, s),
    ensures
        results_follow_order(p, initial_run(s.order)),
        results_follow_order(p, s) && s.pending is None ==> results_follow_order(p, next_step(p, s).0),
        results_follow_order(p, s) && s.pending is Some ==> results_follow_order(p, after_result(p, s, status)),
{
    if results_follow_order(p, s) && s.pending is None {
        let t = next_step(p, s).0;
        assert forall|k: int| 0 <= k < t.outcomes.len() implies #[trigger] t.outcomes[k].0 == p[t.order[k]].step_id@ by {
            if k < s.outcomes.len() {
                assert(t.outcomes[k] == s.outcomes[k]);
            }
        }
    }
    if results_follow_order(p, s) && s.pending is Some {
        let t = after_result(p, s, status);
        assert forall|k: int| 0 <= k < t.outcomes.len() implies #[trigger] t.outcomes[k].0 == p[t.order[k]].step_id@ by {
            if k < s.outcomes.len() {
                assert(t.outcomes[k] == s.outcomes[k]);
            }
        }
    }
}

/// In a run of the execution order whose results follow it, with distinct
/// step identifiers, the results name distinct steps of the pipeline and
/// every dependency's result comes before the result of its dependent.
pub proof fn lemma_run_results_sound(p: Seq<PipelineStep>, s: RunView)
    requires
        run_wf(p, s),
        results_follow_order(p, s),
        s.order == dependency_order(p),
        unique_ids(p),
    ensures
        forall|a: int, b: int|
            0 <= a < b < s.outcomes.len() ==> #[trigger] s.outcomes[a].0 != #[trigger] s.outcomes[b].0,
        forall|k: int| 0 <= k < s.outcomes.len() ==> step_ids(p).contains(#[trigger] s.outcomes[k].0),
        forall|a: int, b: int|
            0 <= a < s.outcomes.len() && 0 <= b < s.outcomes.len() && #[trigger] p[s.order[b]].deps().contains(
                #[trigger] s.outcomes[a].0,
            ) ==> a < b,
{
    let o = s.order;
    lemma_order_no_duplicates(p, false);
    lemma_order_in_range(p, false);
    lemma_order_respects_dependencies(p, false);
    assert forall|a: int, b: int| 0 <= a < b < s.outcomes.len() implies #[trigger] s.outcomes[a].0 != #[trigger] s.outcomes[b].0 by {
        assert(s.outcomes[a].0 == p[o[a]].step_id@);
        assert(s.outcomes[b].0 == p[o[b]].step_id@);
        assert(o[a] != o[b]);
    }
    assert forall|k: int| 0 <= k < s.outcomes.len() implies step_ids(p).contains(#[trigger] s.outcomes[k].0) by {
        assert(s.outcomes[k].0 == p[o[k]].step_id@);
        assert(step_ids(p)[o[k]] == p[o[k]].step_id@);
    }
    assert forall|a: int, b: int|
        0 <= a < s.outcomes.len() && 0 <= b < s.outcomes.len() && #[trigger] p[s.order[b]].deps().contains(
            #[trigger] s.outcomes[a].0,
        ) implies a < b by {
        let d = s.outcomes[a].0;
        assert(d == p[o[a]].step_id@);
        assert(deps_among(p, o[b], ids_at(p, o.take(b)), false));
        assert(counts(p, d, false));
        assert(ids_at(p, o.take(b)).contains(d));
        let m = choose|m: int| 0 <= m < ids_at(p, o.take(b)).len() && ids_at(p, o.take(b))[m] == d;
        assert(o.take(b)[m] == o[m]);
        assert(p[o[m]].step_id@ == p[o[a]].step_id@);
        assert(o[m] == o[a]);
    }
}

/// One event of a run: the caller asks for the next decision (`None`) or
/// reports the status of the step being run (`Some`). An event that does not
/// fit the state (a status with no step running, a decision while a step
/// runs) changes nothing.
pub open spec fn apply_event(p: Seq<PipelineStep>, s: RunView, ev: Option<TaskStatus>) -> RunView {
    match ev {
        None => if s.pending is None {
            next_step(p, s).0
        } else {
            s
        },
        Some(st) => if s.pending is Some {
            after_result(p, s, st)
        } else {
            s
        },
    }
}

/// The state of a run of `p` after the events `evs`, from its start.
pub open spec fn run_state(p: Seq<PipelineStep>, evs: Seq<Option<TaskStatus>>) -> RunView
    decreases evs.len(),
{
    if evs.len() == 0 {
        initial_run(dependency_order(p))
    } else {
        apply_event(p, run_state(p, evs.drop_last()), evs.last())
    }
}

/// What holds of every state a run reaches.
pub open spec fn run_invariant(p: Seq<PipelineStep>, s: RunView) -> bool {
    &&& run_wf(p, s)
    &&& results_follow_order(p, s)
    &&& s.order == dependency_order(p)
    &&& s.pending matches Some(i) ==> policy_permits(p[i]) && (s.retries == 0 || (
        p[i].retry_policy is Some && s.retries <= p[i].retry_policy->0.max_retries))
    &&& s.again matches Some(i) ==> policy_permits(p[i]) && p[i].retry_policy is Some && 1
        <= s.retries <= p[i].retry_policy->0.max_retries
    &&& forall|k: int|
        0 <= k < s.outcomes.len() && !policy_permits(#[trigger] p[s.order[k]]) ==> s.outcomes[k].1
            != TaskStatus::Success
}

proof fn lemma_invariant_step(p: Seq<PipelineStep>, s: RunView, ev: Option<TaskStatus>)
    requires
        run_invariant(p, s),
    ensures
        run_invariant(p, apply_event(p, s, ev)),
{
    let t = apply_event(p, s, ev);
    match ev {
        None => {
            if s.pending is None {
                lemma_results_follow_order(p, s, TaskStatus::Success);
                assert forall|k: int|
                    0 <= k < t.outcomes.len() && !policy_permits(#[trigger] p[t.order[k]]) implies t.outcomes[k].1
                        != TaskStatus::Success by {
                    if k < s.outcomes.len() {
                        assert(t.outcomes[k] == s.outcomes[k]);
                    }
                }
            }
        },
        Some(st) => {
            if s.pending is Some {
                lemma_results_follow_order(p, s, st);
                assert forall|k: int|
                    0 <= k < t.outcomes.len() && !policy_permits(#[trigger] p[t.order[k]]) implies t.outcomes[k].1
                        != TaskStatus::Success by {
                    if k < s.outcomes.len() {
                        assert(t.outcomes[k] == s.outcomes[k]);
                    }
                }
            }
        },
    }
}

/// Every state a run reaches meets the run invariant.
pub proof fn lemma_run_invariant(p: Seq<PipelineStep>, evs: Seq<Option<TaskStatus>>)
    requires
        p.len() <= usize::MAX,
    ensures
        run_invariant(p, run_state(p, evs)),
    decreases evs.len(),
{
    if evs.len() == 0 {
        lemma_order_in_range(p, false);
        lemma_results_follow_order(p, initial_run(dependency_order(p)), TaskStatus::Success);
    } else {
        lemma_run_invariant(p, evs.drop_last());
        lemma_invariant_step(p, run_state(p, evs.drop_last()), evs.last());
    }
}

/// Over a whole run, whatever statuses the steps report: no step that
/// breaks its own security policy is ever executed and none has a
/// successful result; a step runs again only after failing, at most
/// `max_retries` times; and, with distinct step identifiers, the results
/// name distinct steps of the pipeline, each dependency's result first.
pub proof fn lemma_whole_run(p: Seq<PipelineStep>, evs: Seq<Option<TaskStatus>>)
    requires
        p.len() <= usize::MAX,
    ensures
        ({
            let s = run_state(p, evs);
            &&& s.pending is None ==> (next_step(p, s).1 matches RunMove::Execute(i) ==> policy_permits(
                p[i as int],
            ))
            &&& s.pending matches Some(i) ==> policy_permits(p[i])
            &&& s.outcomes.len() <= p.len()
            &&& forall|k: int|
                0 <= k < s.outcomes.len() && !policy_permits(#[trigger] p[s.order[k]]) ==> s.outcomes[k].1
                    != TaskStatus::Success
            &&& s.pending matches Some(i) ==> s.retries == 0 || (p[i].retry_policy is Some && s.retries
                <= p[i].retry_policy->0.max_retries)
            &&& unique_ids(p) ==> {
                &&& forall|a: int, b: int|
                    0 <= a < b < s.outcomes.len() ==> #[trigger] s.outcomes[a].0 != #[trigger] s.outcomes[b].0
                &&& forall|k: int|
                    0 <= k < s.outcomes.len() ==> step_ids(p).contains(#[trigger] s.outcomes[k].0)
                &&& forall|a: int, b: int|
                    0 <= a < s.outcomes.len() && 0 <= b < s.outcomes.len()
                        && #[trigger] p[s.order[b]].deps().contains(#[trigger] s.outcomes[a].0) ==> a < b
            }
        }),
{
    lemma_run_invariant(p, evs);
    let s = run_state(p, evs);
    assert(s.order.len() <= p.len()) by {
        broadcast use vstd::seq_lib::seq_to_set_is_finite;

        let o = s.order;
        lemma_order_no_duplicates(p, false);
        lemma_order_in_range(p, false);
        o.unique_seq_to_set();
        vstd::set_lib::lemma_int_range(0, p.len() as int);
        assert(o.to_set().subset_of(vstd::set_lib::set_int_range(0, p.len() as int)));
        vstd::set_lib::lemma_len_subset(o.to_set(), vstd::set_lib::set_int_range(0, p.len() as int));
    }
    if unique_ids(p) {
        lemma_run_results_sound(p, s);
    }
}

} // verus!

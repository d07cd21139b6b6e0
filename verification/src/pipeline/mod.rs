//! Pipeline scheduling: ordering, failure handling, parallel batches and device locks.
pub mod dag;
pub mod engine;
pub mod failure_policy;
pub mod parallel;
pub mod resource_lock;
pub mod topo;

pub use crate::models::FailurePolicy;
pub use failure_policy::{Decision, FailurePolicyExecutor};
pub use dag::DagValidator;
pub use engine::{PipelineEngine, PipelineRun, SkipReason, StepAction};
pub use parallel::{BatchStep, ParallelEngine, ParallelRun};
pub use resource_lock::ResourceLockManager;

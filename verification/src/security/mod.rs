//! Security checks applied to pipeline steps before they run.
pub mod policy;

pub use policy::{PolicyError, PolicyValidator};

//! Verified core of an edge test runner: task models, pipeline scheduling,
//! failure handling, device locks, security checks and result assembly.
//!
//! Process spawning, HTTP traffic, clocks and configuration files are handled
//! by the program around this library; everything here is pure logic with
//! proved contracts.

pub mod api;
pub mod config;
pub mod executor;
pub mod heartbeat;
pub mod models;
pub mod pipeline;
pub mod security;
pub mod system;
pub mod tasks;
pub mod text;

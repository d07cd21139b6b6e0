//! Communication with the server.
pub mod client;

pub use client::ApiClient;

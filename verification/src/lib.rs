//! Uptime and content-integrity monitoring: the verified core.
//!
//! The library holds the rules of the monitor: how a DNS query is built and
//! how its answer is read, how an HTTP response is split, checked and hashed,
//! how URL payloads and configuration are validated, and what a check, a job
//! or an incident becomes at each step of the pipeline.

pub mod config;
pub mod engine;
pub mod error;
pub mod extract;
pub mod http;
pub mod ids;
pub mod response;
pub mod secrets;
pub mod text;

//! A verified fetch-orchestration engine for bulk, per-record HTTP POST
//! submission: a local rate limiter, a dynamic throttle resolver driven by
//! the server's rate-limit headers, a two-tier response cache keyed by
//! request fingerprints, a bounded retry state machine, and response
//! post-processing through a JSON selector or formatter.
//!
//! The engine itself never performs I/O: the caller sends each request and
//! hands the outcome back, so every decision — validate, classify,
//! throttle, retry, settle, cache — is verified for every outcome the
//! network could produce.
pub mod cache;
pub mod codec;
pub mod collab;
pub mod config;
pub mod fetch;
pub mod form;
pub mod headers;
pub mod limiter;
pub mod orchestrator;
pub mod process;
pub mod response;
pub mod throttle;
pub mod text;

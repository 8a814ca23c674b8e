//! Generation engine for LLM-driven load-test script generation.
//!
//! The library takes ordered work items (API operations or end-to-end
//! scenario outlines), groups them into batches, gates every outbound
//! completion request through a fixed-window rate limiter, parses the
//! replies into structured artifacts, and aggregates per-item results so
//! that the final collection follows the original submission order while
//! artifacts stream out in completion order.

pub mod strutil;
pub mod filename;
pub mod model;
pub mod batch;
pub mod limiter;
pub mod aggregate;
pub mod plan;
pub mod retry;
pub mod sink;
pub mod json;
pub mod planio;
pub mod config;
pub mod openapi;
pub mod prompt;
pub mod reply;

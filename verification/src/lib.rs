//! Credential detection for request headers, and the bookkeeping behind the
//! per-rank worker load metrics publisher.

pub mod text;
pub mod sensitive;
pub mod metrics;
pub mod debounce;

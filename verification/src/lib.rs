//! Adaptive relay scheduler.
//!
//! Ranks a pool of relay endpoints by live telemetry (latency, success rate,
//! administrator-configured trust, vendor bias, in-flight load) and dispatches
//! weighted-round-robin selections. Selections are checked out through handles
//! and returned so that concurrent callers spread load.
//!
//! All scores are fixed-point numbers: an `i64` counts millionths, so
//! `1_000_000` stands for a weight of one.

pub mod api;
pub mod duration;
pub mod errors;
pub mod handle;
pub mod kvmap;
pub mod latch;
pub mod laws;
pub mod records;
pub mod relay;
pub mod selector;
pub mod seqs;
pub mod statistics;
pub mod strings;
pub mod urlsort;
pub mod variant;
pub mod weights;

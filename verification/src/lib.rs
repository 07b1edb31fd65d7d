//! Resolves an ordered list of catalog tracks to downloadable resources and
//! fetches them through a bounded-concurrency worker pipeline with failure
//! requeueing. The pipeline core (work queues, retry budget, progress and
//! result aggregation) is verified; network, process and terminal I/O live in
//! the surrounding application code.

pub mod catalog;
pub mod counting;
pub mod fetch;
pub mod orchestrator;
pub mod pipeline;
pub mod report;
pub mod strscan;
pub mod textutil;
pub mod token;
pub mod ytauth;
pub mod ytsearch;

pub use textutil::join;
pub use textutil::IterExt;

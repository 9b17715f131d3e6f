//! Document jobs, snapshots and the runtime that commits them.
pub mod engine;
pub mod input;
pub mod keyed;
pub mod materialization;
pub mod job_entry;
pub mod metrics;
pub mod projection;
pub mod protocol;
pub mod reads;
pub mod runtime;
pub mod snapshot;
pub mod stream_state;
pub mod value_edit;

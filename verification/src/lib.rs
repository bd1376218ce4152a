//! Coordinator logic for logging trainee training records through a portal
//! worker: the automation state machine, the retry/stop policy, the batch
//! engine's decisions, the durable checkpoint and the recovery gate.

pub mod state;
pub mod queue;
pub mod report;
pub mod text;
pub mod checkpoint;
pub mod protocol;
pub mod decision;
pub mod engine;
pub mod store;
pub mod recovery;
pub mod job;

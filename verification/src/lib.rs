//! The scan engine's core: candidate ranking, the session state machine and
//! restartable progress snapshots.

pub mod crypto;
pub mod persist;
pub mod scanner;
pub mod scoring;
pub mod wire;

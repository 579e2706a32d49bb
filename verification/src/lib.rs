//! Deterministic schedulers of transactions that adapt to contention.
//!
//! Accounts that are written get hot, and cool down from generation to
//! generation ([`heat`]). A transaction that writes hot accounts is put off,
//! waits for a backoff that doubles with every retry, and is given up after a
//! bounded number of retries.
//!
//! [`HybridScheduler`] is the scheduler itself, on plain data: [`hybrid`] holds
//! the code, [`model`] what it means, [`effects`] what each operation does, and
//! [`laws`] and [`heat_laws`] what else follows.
//!
//! [`rift_hybrid_scheduler`] and [`rift_scheduler`] take the same ideas to the
//! banking stage of a validator, where transactions live in a container, their
//! accounts are locked for worker threads, and batches are sent to these. They
//! decide, and leave the doing to their caller. What each step does is told in
//! [`rift_effects`], [`rift_hybrid_effects`] and [`rift_scheduler_effects`], and
//! what holds of whole passes in [`rift_hybrid_laws`] and
//! [`rift_scheduler_laws`]; [`outside`] lists what is taken for granted of other
//! crates.
pub mod effects;
pub mod heat;
pub mod heat_laws;
pub mod hybrid;
pub mod laws;
pub mod model;
pub mod outside;
pub mod rift;
pub mod rift_effects;
pub mod rift_hybrid_effects;
pub mod rift_hybrid_laws;
pub mod rift_hybrid_scheduler;
pub mod rift_scheduler;
pub mod rift_scheduler_effects;
pub mod rift_scheduler_laws;
pub mod types;

pub use crate::hybrid::HybridScheduler;
pub use crate::types::{
    AccountId, SchedulerConfig, SchedulerMetrics, SchedulingSummary, Transaction,
};

//! The data that callers exchange with a [`HybridScheduler`](crate::HybridScheduler).
use vstd::prelude::*;

use crate::heat::written;

verus! {

/// Identifies an account.
#[derive(Clone, Copy, Debug, PartialEq, Eq, Hash, Structural)]
pub struct AccountId(pub u64);

/// A transaction: what it costs, and which accounts it reads and writes.
#[derive(Debug)]
pub struct Transaction {
    pub id: usize,
    pub cost: u64,
    pub account_keys: Vec<AccountId>,
    /// `writable[i]` tells whether the account `account_keys[i]` is written.
    pub writable: Vec<bool>,
}

/// Mathematical model of a [`Transaction`].
#[verifier::ext_equal]
pub struct TransactionView {
    pub id: usize,
    pub cost: u64,
    pub account_keys: Seq<AccountId>,
    pub writable: Seq<bool>,
}

impl View for Transaction {
    type V = TransactionView;

    open spec fn view(&self) -> TransactionView {
        TransactionView {
            id: self.id,
            cost: self.cost,
            account_keys: self.account_keys@,
            writable: self.writable@,
        }
    }
}

impl TransactionView {
    /// The numbers of the accounts.
    pub open spec fn numbers(self) -> Seq<u64> {
        self.account_keys.map_values(|account: AccountId| account.0)
    }

    /// The numbers of the accounts that the transaction writes, in order. An
    /// account that it names twice occurs twice.
    pub open spec fn writes(self) -> Seq<u64> {
        written(self.numbers(), self.writable)
    }
}

impl Transaction {
    /// Builds a transaction. Every account needs its flag.
    pub fn new(
        id: usize,
        cost: u64,
        account_keys: Vec<AccountId>,
        writable: Vec<bool>,
    ) -> (tx: Self)
        requires
            account_keys@.len() == writable@.len(),
        ensures
            tx.id == id,
            tx.cost == cost,
            tx.account_keys == account_keys,
            tx.writable == writable,
    {
        Transaction { id, cost, account_keys, writable }
    }
}

impl Clone for Transaction {
    fn clone(&self) -> (copy: Self)
        ensures
            copy@ == self@,
    {
        let mut account_keys: Vec<AccountId> = Vec::new();
        for i in 0..self.account_keys.len()
            invariant
                account_keys@ == self.account_keys@.take(i as int),
        {
            account_keys.push(self.account_keys[i]);
        }
        let mut writable: Vec<bool> = Vec::new();
        for i in 0..self.writable.len()
            invariant
                writable@ == self.writable@.take(i as int),
        {
            writable.push(self.writable[i]);
        }
        Transaction { id: self.id, cost: self.cost, account_keys, writable }
    }
}

/// Counters that a scheduler keeps from pass to pass.
#[derive(Clone, Copy, Debug, PartialEq, Eq, Structural)]
pub struct SchedulerMetrics {
    /// Passes made so far.
    pub scheduler_passes: u64,
    /// Transactions scheduled so far.
    pub scheduled_txs: u64,
    /// Transactions that wait for another attempt.
    pub deferred_txs: u64,
    /// Transactions given up so far.
    pub dropped_txs: u64,
    /// Attempts that met contended accounts so far.
    pub lock_conflicts: u64,
    /// Accounts that are hot.
    pub hot_accounts: u64,
}

impl Default for SchedulerMetrics {
    fn default() -> (metrics: Self)
        ensures
            metrics == (SchedulerMetrics {
                scheduler_passes: 0,
                scheduled_txs: 0,
                deferred_txs: 0,
                dropped_txs: 0,
                lock_conflicts: 0,
                hot_accounts: 0,
            }),
    {
        SchedulerMetrics {
            scheduler_passes: 0,
            scheduled_txs: 0,
            deferred_txs: 0,
            dropped_txs: 0,
            lock_conflicts: 0,
            hot_accounts: 0,
        }
    }
}

/// Parameters of a scheduler.
#[derive(Clone, Copy, Debug, PartialEq, Eq, Structural)]
pub struct SchedulerConfig {
    /// Conflict score from which on a transaction is not scheduled.
    pub conflict_threshold: u32,
    /// Generations without a write after which a hot account is forgotten.
    pub max_generation_age: u32,
    /// Controls how fast a hot account's heat decays per generation of age.
    /// Each generation of age right-shifts the stored heat by this amount
    /// (e.g. shift=1 halves heat per generation of age). shift=0 disables
    /// decay entirely (heat is only reduced by removal once an account's
    /// age exceeds `max_generation_age`).
    pub hotspot_decay_shift: u32,
    /// Number of retries after which a transaction is given up.
    pub max_retry_count: u8,
    /// Room that is made for hot accounts at the start.
    pub hotspot_capacity: usize,
    /// Heat that a write adds to an account.
    pub initial_heat: u16,
    /// Ceiling of the heat of an account.
    pub max_account_heat: u16,
}

impl SchedulerConfig {
    /// The parameters that are used where none are given.
    pub open spec fn standard() -> SchedulerConfig {
        SchedulerConfig {
            conflict_threshold: 1,
            max_generation_age: 16,
            hotspot_decay_shift: 1,
            max_retry_count: 6,
            hotspot_capacity: 4096,
            initial_heat: 2,
            max_account_heat: 255,
        }
    }
}

impl Default for SchedulerConfig {
    fn default() -> (config: Self)
        ensures
            config == Self::standard(),
    {
        SchedulerConfig {
            conflict_threshold: 1,
            max_generation_age: 16,
            hotspot_decay_shift: 1,
            max_retry_count: 6,
            hotspot_capacity: 4096,
            initial_heat: 2,
            max_account_heat: 255,
        }
    }
}

/// What one scheduling pass did.
#[derive(Clone, Copy, Debug, PartialEq, Eq, Structural)]
pub struct SchedulingSummary {
    /// Transactions scheduled.
    pub scheduled: usize,
    /// Transactions put off.
    pub deferred: usize,
    /// Transactions given up.
    pub dropped: usize,
    /// Transactions looked at.
    pub scanned: usize,
    /// Generation of the pass.
    pub generation: u32,
}

impl Default for SchedulingSummary {
    fn default() -> (summary: Self)
        ensures
            summary == (SchedulingSummary {
                scheduled: 0,
                deferred: 0,
                dropped: 0,
                scanned: 0,
                generation: 0,
            }),
    {
        SchedulingSummary { scheduled: 0, deferred: 0, dropped: 0, scanned: 0, generation: 0 }
    }
}

} // verus!

//! Mathematical model of a scheduling pass.
//!
//! A pass looks at a sequence of [`Job`]s: first the deferred transactions
//! whose backoff has elapsed, then the fresh ones. Each job meets a
//! [`Verdict`], and the pass carries on in the state that the verdict leaves.
use vstd::arithmetic::power2::pow2;
use vstd::prelude::*;

use crate::heat::{generation_after, least, score, Cooling, Heating, HotAccountMeta};
use crate::types::{SchedulerConfig, SchedulerMetrics, SchedulingSummary, TransactionView};

verus! {

/// A transaction that waits for another attempt.
#[verifier::ext_equal]
pub struct DeferredView {
    pub tx: TransactionView,
    /// Attempts that have failed so far.
    pub retry_count: u8,
    /// Generation from which on the transaction is tried again.
    pub ready_generation: u32,
}

/// A transaction to be tried, and how often it has been tried before.
#[verifier::ext_equal]
pub struct Job {
    pub tx: TransactionView,
    pub retry_count: u8,
}

/// What is decided of a job.
pub enum Verdict {
    /// It is scheduled.
    Schedule,
    /// It is put off for this number of generations.
    Defer(u32),
    /// It is given up.
    Drop,
}

/// The largest exponent of the backoff.
pub const MAX_BACKOFF_EXPONENT: u32 = 8;

/// Generations that a contended transaction waits after `retry_count` failed
/// retries: one at first, then twice as long each time, and never longer than
/// two to the power of [`MAX_BACKOFF_EXPONENT`].
pub open spec fn backoff(retry_count: u8) -> u32 {
    pow2(least(retry_count as int, MAX_BACKOFF_EXPONENT as int) as nat) as u32
}

/// Computes [`backoff`].
pub fn backoff_generations(retry_count: u8) -> (delay: u32)
    ensures
        delay == backoff(retry_count),
{
    let exponent: u32 = if (retry_count as u32) < MAX_BACKOFF_EXPONENT {
        retry_count as u32
    } else {
        MAX_BACKOFF_EXPONENT
    };
    proof {
        vstd::arithmetic::power2::lemma2_to64();
        vstd::bits::lemma_u32_shl_is_mul(1, exponent);
    }
    1u32 << exponent
}

impl SchedulerConfig {
    /// How writes heat accounts.
    pub open spec fn heating(self) -> Heating {
        Heating { gain: self.initial_heat, cap: self.max_account_heat }
    }

    /// How accounts cool.
    pub open spec fn cooling(self) -> Cooling {
        Cooling { max_age: self.max_generation_age, shift: self.hotspot_decay_shift }
    }

    /// Whether the accounts that `tx` writes are too hot for it.
    pub open spec fn contended(self, hotspots: Map<u64, HotAccountMeta>, tx: TransactionView) -> bool {
        score(hotspots, tx.writes()) >= self.conflict_threshold
    }

    /// What is decided of `job` when `budget` is left. Contention is looked at
    /// first, and does not depend on what the transaction costs.
    pub open spec fn verdict(
        self,
        hotspots: Map<u64, HotAccountMeta>,
        budget: u64,
        job: Job,
    ) -> Verdict {
        let contended = self.contended(hotspots, job.tx);
        if !contended && job.tx.cost <= budget {
            Verdict::Schedule
        } else if job.retry_count >= self.max_retry_count {
            Verdict::Drop
        } else if contended {
            Verdict::Defer(backoff(job.retry_count))
        } else {
            Verdict::Defer(1)
        }
    }
}

/// How far a pass has come.
#[verifier::ext_equal]
pub struct PassState {
    pub hotspots: Map<u64, HotAccountMeta>,
    /// Budget that is left.
    pub budget: u64,
    /// Transactions scheduled, in order.
    pub admitted: Seq<TransactionView>,
    /// Transactions put off, in order.
    pub postponed: Seq<DeferredView>,
    /// Transactions given up, in order.
    pub discarded: Seq<TransactionView>,
    /// Jobs that met contended accounts.
    pub conflicts: nat,
}

impl PassState {
    /// The state before the first job.
    pub open spec fn start(hotspots: Map<u64, HotAccountMeta>, budget: u64) -> PassState {
        PassState {
            hotspots,
            budget,
            admitted: Seq::empty(),
            postponed: Seq::empty(),
            discarded: Seq::empty(),
            conflicts: 0,
        }
    }

    /// The state after `job` was tried in `generation`.
    pub open spec fn attempt(self, config: SchedulerConfig, generation: u32, job: Job) -> PassState {
        let conflicts = if config.contended(self.hotspots, job.tx) {
            self.conflicts + 1
        } else {
            self.conflicts
        };
        match config.verdict(self.hotspots, self.budget, job) {
            Verdict::Schedule => PassState {
                hotspots: config.heating().mark(self.hotspots, job.tx.writes(), generation),
                budget: (self.budget - job.tx.cost) as u64,
                admitted: self.admitted.push(job.tx),
                conflicts,
                ..self
            },
            Verdict::Defer(delay) => PassState {
                postponed: self.postponed.push(
                    DeferredView {
                        tx: job.tx,
                        retry_count: (job.retry_count + 1) as u8,
                        ready_generation: generation_after(generation, delay),
                    },
                ),
                conflicts,
                ..self
            },
            Verdict::Drop => PassState {
                discarded: self.discarded.push(job.tx),
                conflicts,
                ..self
            },
        }
    }

    /// The state after `jobs` were tried in `generation`, one after the other.
    pub open spec fn attempt_all(
        self,
        config: SchedulerConfig,
        generation: u32,
        jobs: Seq<Job>,
    ) -> PassState
        decreases jobs.len(),
    {
        if jobs.len() == 0 {
            self
        } else {
            self.attempt_all(config, generation, jobs.drop_last()).attempt(
                config,
                generation,
                jobs.last(),
            )
        }
    }
}

/// Mathematical model of a scheduler between two passes.
#[verifier::ext_equal]
pub struct SchedulerModel {
    pub generation: u32,
    pub hotspots: Map<u64, HotAccountMeta>,
    pub deferred: Seq<DeferredView>,
    pub metrics: SchedulerMetrics,
    pub config: SchedulerConfig,
}

/// The deferred transactions that are tried in `generation`.
pub open spec fn ready_in(deferred: Seq<DeferredView>, generation: u32) -> Seq<DeferredView> {
    deferred.filter(|d: DeferredView| d.ready_generation <= generation)
}

/// The deferred transactions that go on waiting in `generation`.
pub open spec fn waiting_in(deferred: Seq<DeferredView>, generation: u32) -> Seq<DeferredView> {
    deferred.filter(|d: DeferredView| d.ready_generation > generation)
}

/// The jobs that deferred transactions make.
pub open spec fn retries(ready: Seq<DeferredView>) -> Seq<Job> {
    ready.map_values(|d: DeferredView| Job { tx: d.tx, retry_count: d.retry_count })
}

/// The jobs that fresh transactions make.
pub open spec fn first_attempts(txs: Seq<TransactionView>) -> Seq<Job> {
    txs.map_values(|tx: TransactionView| Job { tx, retry_count: 0 })
}

impl SchedulerModel {
    /// A scheduler that has made no pass yet.
    pub open spec fn initial(config: SchedulerConfig) -> SchedulerModel {
        SchedulerModel {
            generation: 0,
            hotspots: Map::empty(),
            deferred: Seq::empty(),
            metrics: SchedulerMetrics {
                scheduler_passes: 0,
                scheduled_txs: 0,
                deferred_txs: 0,
                dropped_txs: 0,
                lock_conflicts: 0,
                hot_accounts: 0,
            },
            config,
        }
    }

    /// The generation of the next pass.
    pub open spec fn next_generation(self) -> u32 {
        generation_after(self.generation, 1)
    }

    /// The hot accounts that remain when the next pass starts.
    pub open spec fn cooled_hotspots(self) -> Map<u64, HotAccountMeta> {
        self.config.cooling().cool(self.hotspots, self.next_generation())
    }

    /// The deferred transactions that the next pass tries again.
    pub open spec fn ready(self) -> Seq<DeferredView> {
        ready_in(self.deferred, self.next_generation())
    }

    /// The deferred transactions that the next pass leaves alone.
    pub open spec fn waiting(self) -> Seq<DeferredView> {
        waiting_in(self.deferred, self.next_generation())
    }

    /// The jobs of the next pass, given the fresh transactions.
    pub open spec fn jobs(self, txs: Seq<TransactionView>) -> Seq<Job> {
        retries(self.ready()) + first_attempts(txs)
    }

    /// The state in which the next pass ends.
    pub open spec fn pass(self, txs: Seq<TransactionView>, budget: u64) -> PassState {
        PassState::start(self.cooled_hotspots(), budget).attempt_all(
            self.config,
            self.next_generation(),
            self.jobs(txs),
        )
    }

    /// Whether all counters still fit their types after the next pass.
    pub open spec fn counters_fit(self, txs: Seq<TransactionView>, budget: u64) -> bool {
        let end = self.pass(txs, budget);
        &&& self.metrics.scheduler_passes < u64::MAX
        &&& self.metrics.scheduled_txs + end.admitted.len() <= u64::MAX
        &&& self.metrics.dropped_txs + end.discarded.len() <= u64::MAX
        &&& self.metrics.lock_conflicts + end.conflicts <= u64::MAX
        &&& self.jobs(txs).len() <= usize::MAX
    }

    /// The scheduler after the next pass.
    pub open spec fn after_pass(self, txs: Seq<TransactionView>, budget: u64) -> SchedulerModel {
        let end = self.pass(txs, budget);
        let deferred = self.waiting() + end.postponed;
        SchedulerModel {
            generation: self.next_generation(),
            hotspots: end.hotspots,
            deferred,
            metrics: SchedulerMetrics {
                scheduler_passes: (self.metrics.scheduler_passes + 1) as u64,
                scheduled_txs: (self.metrics.scheduled_txs + end.admitted.len()) as u64,
                deferred_txs: deferred.len() as u64,
                dropped_txs: (self.metrics.dropped_txs + end.discarded.len()) as u64,
                lock_conflicts: (self.metrics.lock_conflicts + end.conflicts) as u64,
                hot_accounts: end.hotspots.len() as u64,
            },
            config: self.config,
        }
    }

    /// What the next pass reports.
    pub open spec fn summary(self, txs: Seq<TransactionView>, budget: u64) -> SchedulingSummary {
        let end = self.pass(txs, budget);
        SchedulingSummary {
            scheduled: end.admitted.len() as usize,
            deferred: end.postponed.len() as usize,
            dropped: end.discarded.len() as usize,
            scanned: self.jobs(txs).len() as usize,
            generation: self.next_generation(),
        }
    }
}

/// Every job ends up in exactly one of the three lists of a pass, and counts
/// at most once as a conflict.
pub proof fn lemma_attempt_all_counts(
    start: PassState,
    config: SchedulerConfig,
    generation: u32,
    jobs: Seq<Job>,
)
    ensures
        ({
            let end = start.attempt_all(config, generation, jobs);
            &&& end.admitted.len() + end.postponed.len() + end.discarded.len()
                == start.admitted.len() + start.postponed.len() + start.discarded.len() + jobs.len()
            &&& start.admitted.len() <= end.admitted.len()
            &&& start.postponed.len() <= end.postponed.len()
            &&& start.discarded.len() <= end.discarded.len()
            &&& start.conflicts <= end.conflicts <= start.conflicts + jobs.len()
            &&& end.budget <= start.budget
        }),
    decreases jobs.len(),
{
    if jobs.len() > 0 {
        lemma_attempt_all_counts(start, config, generation, jobs.drop_last());
    }
}

/// A sequence of jobs may be tried in two portions.
proof fn lemma_attempt_all_splits(
    start: PassState,
    config: SchedulerConfig,
    generation: u32,
    first: Seq<Job>,
    second: Seq<Job>,
)
    ensures
        start.attempt_all(config, generation, first + second) == start.attempt_all(
            config,
            generation,
            first,
        ).attempt_all(config, generation, second),
    decreases second.len(),
{
    if second.len() == 0 {
        assert(first + second == first);
    } else {
        lemma_attempt_all_splits(start, config, generation, first, second.drop_last());
        assert((first + second).drop_last() == first + second.drop_last());
    }
}

/// What has been counted after the first `n` jobs does not exceed what has
/// been counted after all of them.
pub proof fn lemma_attempt_all_grows(
    start: PassState,
    config: SchedulerConfig,
    generation: u32,
    jobs: Seq<Job>,
    n: int,
)
    requires
        0 <= n <= jobs.len(),
    ensures
        ({
            let part = start.attempt_all(config, generation, jobs.take(n));
            let end = start.attempt_all(config, generation, jobs);
            &&& part.admitted.len() <= end.admitted.len()
            &&& part.discarded.len() <= end.discarded.len()
            &&& part.conflicts <= end.conflicts
        }),
{
    assert(jobs == jobs.take(n) + jobs.skip(n));
    lemma_attempt_all_splits(start, config, generation, jobs.take(n), jobs.skip(n));
    lemma_attempt_all_counts(
        start.attempt_all(config, generation, jobs.take(n)),
        config,
        generation,
        jobs.skip(n),
    );
}

/// What passes a filter is in the sequence, and satisfies the condition.
pub proof fn lemma_filter_comes_from<T>(queue: Seq<T>, wanted: spec_fn(T) -> bool, entry: T)
    requires
        queue.filter(wanted).contains(entry),
    ensures
        queue.contains(entry),
        wanted(entry),
    decreases queue.len(),
{
    reveal(Seq::filter);
    if queue.len() > 0 {
        let shorter = queue.drop_last();
        let i = choose|i: int| 0 <= i < queue.filter(wanted).len() && queue.filter(wanted)[i] == entry;
        if i < shorter.filter(wanted).len() {
            assert(shorter.filter(wanted)[i] == entry);
            lemma_filter_comes_from(shorter, wanted, entry);
            let j = choose|j: int| 0 <= j < shorter.len() && shorter[j] == entry;
            assert(queue[j] == entry);
        } else {
            assert(queue[queue.len() - 1] == entry);
        }
    }
}

} // verus!

//! A scheduler for the banking stage that fills batches thread by thread, and
//! filters out transactions on accounts that recently had lock conflicts.
//!
//! A pass goes like this: [`RiftScheduler::begin_pass`] opens it, unless there
//! is nothing to spend or no thread to spend it on. Its first request is
//! [`Request::CheckRound`]. Every [`Request`] is answered by the method that
//! its documentation names, until [`Request::SendLast`] is answered by
//! [`RiftScheduler::finish`].
//!
//! Not every pass gets there. While something can be spent, a thread is open,
//! more may be looked at and entries are deferred, a pass makes one round after
//! the other, even if the queue is empty and no entry is ready. Such a round
//! changes nothing, so the pass goes on until something comes into the queue.
use agave_scheduling_utils::thread_aware_account_locks::ThreadSet;
use vstd::prelude::*;

use crate::heat::{
    generation_after, writes_at, written_among, Fading, HotAccountMeta, Upkeep,
};
use crate::model::{backoff, backoff_generations};
use crate::outside::{
    no_records, records, table_get, table_len, table_retain, table_with_capacity, threads_any,
    threads_in, threads_is_empty, threads_remove, AccountKey, HotTable,
};
use crate::rift::{
    heating, mark_writes, spent, tallied, FootprintView, RiftSchedulerConfig, TransactionFootprint,
    TransactionPriorityId, CONFLICT_THRESHOLD, MAX_GENERATION_AGE,
};

verus! {

/// Bits of heat that a score takes off an account that is not up to date.
pub const HOT_ACCOUNT_DECAY_SHIFT: u32 = 1;

/// Bits of heat that a cleanup takes off an account, at most.
pub const MAX_CLEANUP_BITS: u32 = 4;

/// Parts in a full batch, for the fill ratio.
pub const FILL_RATIO_PARTS: u64 = 1_000_000;

/// How a score reads the heat of an account.
pub open spec fn reading() -> Fading {
    Fading { max_age: MAX_GENERATION_AGE, max_bits: HOT_ACCOUNT_DECAY_SHIFT }
}

/// How a cleanup treats the heat of an account.
pub open spec fn fading() -> Fading {
    Fading { max_age: MAX_GENERATION_AGE, max_bits: MAX_CLEANUP_BITS }
}

/// Counters that a scheduler keeps from pass to pass. They wrap.
#[derive(Clone, Copy, Debug, PartialEq, Eq, Structural)]
pub struct SchedulerMetrics {
    pub scheduled_txs: u64,
    pub lock_conflicts: u64,
    pub unschedulable_threads: u64,
    pub deferred_retries: u64,
    pub scheduler_passes: u64,
    pub total_schedule_time_ns: u64,
    pub total_scanned: u64,
    pub total_batches_sent: u64,
    pub total_batch_fill_ratio_ppm: u64,
}

impl SchedulerMetrics {
    /// Counters of a scheduler that has made no pass yet.
    pub open spec fn zero() -> SchedulerMetrics {
        SchedulerMetrics {
            scheduled_txs: 0,
            lock_conflicts: 0,
            unschedulable_threads: 0,
            deferred_retries: 0,
            scheduler_passes: 0,
            total_schedule_time_ns: 0,
            total_scanned: 0,
            total_batches_sent: 0,
            total_batch_fill_ratio_ppm: 0,
        }
    }
}

impl Default for SchedulerMetrics {
    fn default() -> (metrics: Self)
        ensures
            metrics == Self::zero(),
    {
        SchedulerMetrics {
            scheduled_txs: 0,
            lock_conflicts: 0,
            unschedulable_threads: 0,
            deferred_retries: 0,
            scheduler_passes: 0,
            total_schedule_time_ns: 0,
            total_scanned: 0,
            total_batches_sent: 0,
            total_batch_fill_ratio_ppm: 0,
        }
    }
}

/// A transaction that waits for another attempt.
#[derive(Clone, Copy, Debug, PartialEq, Eq, Structural)]
pub struct DeferredTx {
    pub id: TransactionPriorityId,
    /// Attempts that have failed so far.
    pub retry_count: u8,
    /// Generation from which on the transaction is tried again.
    pub ready_generation: u32,
}

impl DeferredTx {
    /// The entry after one more failed attempt in `generation`, to be tried
    /// again after `delay` generations. More than 255 attempts are not told
    /// apart.
    pub open spec fn postponed(self, generation: u32, delay: u32) -> DeferredTx {
        DeferredTx {
            id: self.id,
            retry_count: (if self.retry_count < u8::MAX {
                self.retry_count + 1
            } else {
                self.retry_count as int
            }) as u8,
            ready_generation: generation_after(generation, delay),
        }
    }

    /// The first attempt of a transaction.
    pub open spec fn fresh(id: TransactionPriorityId, generation: u32) -> DeferredTx {
        DeferredTx { id, retry_count: 0, ready_generation: generation }
    }
}

/// Number of entries at the start of `todo` that are not ready in `generation`.
pub open spec fn unready_prefix(todo: Seq<DeferredTx>, generation: u32) -> nat
    decreases todo.len(),
{
    if todo.len() == 0 || todo[0].ready_generation <= generation {
        0
    } else {
        1 + unready_prefix(todo.drop_first(), generation)
    }
}

/// Sum of the heats that a score reads off `keys`.
pub open spec fn total_reading(
    table: Map<AccountKey, HotAccountMeta>,
    keys: Seq<AccountKey>,
    generation: u32,
) -> nat
    decreases keys.len(),
{
    if keys.len() == 0 {
        0
    } else {
        let rest = total_reading(table, keys.drop_last(), generation);
        if table.contains_key(keys.last()) {
            rest + reading().left(table[keys.last()], generation) as nat
        } else {
            rest
        }
    }
}

/// Sum of the numbers in `parts`.
pub open spec fn total(parts: Seq<u64>) -> nat
    decreases parts.len(),
{
    if parts.len() == 0 {
        0
    } else {
        total(parts.drop_last()) + parts.last() as nat
    }
}

/// Compute units that a thread may have on their way.
pub open spec fn share(config: RiftSchedulerConfig, num_threads: nat) -> int {
    config.target_scheduled_cus as int / num_threads as int
}

/// The threads that have less on their way than they may.
pub open spec fn open_threads(config: RiftSchedulerConfig, cus_in_flight: Seq<u64>) -> Set<usize> {
    Set::new(
        |t: usize|
            t < cus_in_flight.len() && cus_in_flight[t as int] < share(config, cus_in_flight.len()),
    )
}

/// Mathematical model of a [`RiftScheduler`].
#[verifier::ext_equal]
pub struct RiftModel {
    pub deferred: Seq<DeferredTx>,
    pub next_deferred: Seq<DeferredTx>,
    pub hotspots: Map<AccountKey, HotAccountMeta>,
    pub generation: u32,
    pub metrics: SchedulerMetrics,
    pub config: RiftSchedulerConfig,
}

impl RiftModel {
    /// A scheduler that has made no pass yet.
    pub open spec fn initial(config: RiftSchedulerConfig) -> RiftModel {
        RiftModel {
            deferred: Seq::empty(),
            next_deferred: Seq::empty(),
            hotspots: no_records(),
            generation: 0,
            metrics: SchedulerMetrics::zero(),
            config,
        }
    }

    /// The conflict score of a transaction.
    pub open spec fn conflict_score(self, tx: FootprintView) -> nat {
        total_reading(self.hotspots, tx.writes(), self.generation)
    }

    /// The scheduler after a cleanup, which only takes place when there are
    /// twice as many hot accounts as room was made for.
    pub open spec fn cleaned(self) -> RiftModel {
        if self.hotspots.len() < self.config.hotspot_capacity * 2 {
            self
        } else {
            RiftModel {
                hotspots: Upkeep::Fade(fading()).applied(self.hotspots, self.generation),
                ..self
            }
        }
    }

    /// The scheduler when a pass has begun.
    pub open spec fn begun(self) -> RiftModel {
        (RiftModel {
            generation: generation_after(self.generation, 1),
            metrics: SchedulerMetrics {
                scheduler_passes: tallied(self.metrics.scheduler_passes, 1),
                ..self.metrics
            },
            ..self
        }).cleaned()
    }

    /// The scheduler after its accounts were heated by `tx`.
    pub open spec fn marking(self, tx: FootprintView) -> RiftModel {
        RiftModel {
            hotspots: heating().mark(self.hotspots, tx.writes(), self.generation),
            ..self
        }
    }

    /// The scheduler after a job was put off for `delay` generations.
    pub open spec fn deferring(self, job: DeferredTx, delay: u32) -> RiftModel {
        RiftModel {
            next_deferred: self.next_deferred.push(job.postponed(self.generation, delay)),
            ..self
        }
    }

    /// Whether a job is put off before its accounts are locked: they are too
    /// hot, and it has retries left.
    pub open spec fn screens_out(self, job: DeferredTx, tx: FootprintView) -> bool {
        &&& self.conflict_score(tx) >= CONFLICT_THRESHOLD
        &&& job.retry_count < self.config.max_retry_count
    }

    /// The scheduler after a job was put off before its accounts were locked.
    pub open spec fn screened_out(self, job: DeferredTx) -> RiftModel {
        (RiftModel {
            metrics: SchedulerMetrics {
                deferred_retries: tallied(self.metrics.deferred_retries, 1),
                ..self.metrics
            },
            ..self
        }).deferring(job, backoff(job.retry_count))
    }

    /// The scheduler after it turned out that the locks of a job conflict.
    pub open spec fn conflicted(self, job: DeferredTx, tx: FootprintView) -> RiftModel {
        (RiftModel {
            metrics: SchedulerMetrics {
                lock_conflicts: tallied(self.metrics.lock_conflicts, 1),
                ..self.metrics
            },
            ..self
        }).marking(tx).deferring(job, backoff(job.retry_count))
    }

    /// The scheduler after it turned out that no thread can take a job.
    pub open spec fn without_thread(self, job: DeferredTx) -> RiftModel {
        (RiftModel {
            metrics: SchedulerMetrics {
                unschedulable_threads: tallied(self.metrics.unschedulable_threads, 1),
                ..self.metrics
            },
            ..self
        }).deferring(job, 1)
    }

    /// The scheduler after a transaction was added to a batch, which then
    /// holds `batch_len` transactions.
    pub open spec fn added(self, batch_len: usize) -> RiftModel {
        RiftModel {
            metrics: SchedulerMetrics {
                total_batch_fill_ratio_ppm: tallied(
                    self.metrics.total_batch_fill_ratio_ppm,
                    (batch_len * FILL_RATIO_PARTS
                        / self.config.target_transactions_per_batch as int) as u64,
                ),
                ..self.metrics
            },
            ..self
        }
    }

    /// The scheduler between two rounds of a pass.
    pub open spec fn swapped(self) -> RiftModel {
        RiftModel { deferred: self.next_deferred, next_deferred: self.deferred, ..self }
    }

    /// The scheduler after a pass, which hands back what it still holds.
    pub open spec fn finished(self, pass: PassModel, elapsed_ns: u64) -> RiftModel {
        RiftModel {
            deferred: Seq::empty(),
            metrics: SchedulerMetrics {
                total_batches_sent: tallied(
                    self.metrics.total_batches_sent,
                    pass.num_sent as u64,
                ),
                total_scanned: tallied(self.metrics.total_scanned, pass.scanned as u64),
                scheduled_txs: tallied(self.metrics.scheduled_txs, pass.num_scheduled as u64),
                total_schedule_time_ns: tallied(self.metrics.total_schedule_time_ns, elapsed_ns),
                ..self.metrics
            },
            ..self
        }
    }
}

/// A pass that is under way.
pub struct RiftPass {
    round: Vec<DeferredTx>,
    next: usize,
    schedulable_threads: ThreadSet,
    num_threads: usize,
    remaining_budget: u64,
    num_scheduled: usize,
    num_sent: usize,
    num_unschedulable_threads: usize,
    scanned: usize,
    starting_queue_size: usize,
    starting_buffer_size: usize,
}

/// Mathematical model of a [`RiftPass`].
#[verifier::ext_equal]
pub struct PassModel {
    /// Entries that have not been looked at in this round.
    pub todo: Seq<DeferredTx>,
    /// Threads that can take more.
    pub threads: Set<usize>,
    pub num_threads: usize,
    pub remaining_budget: u64,
    pub num_scheduled: usize,
    pub num_sent: usize,
    pub num_unschedulable_threads: usize,
    pub scanned: usize,
    pub starting_queue_size: usize,
    pub starting_buffer_size: usize,
}

impl View for RiftPass {
    type V = PassModel;

    closed spec fn view(&self) -> PassModel {
        PassModel {
            todo: self.round@.skip(self.next as int),
            threads: threads_in(self.schedulable_threads),
            num_threads: self.num_threads,
            remaining_budget: self.remaining_budget,
            num_scheduled: self.num_scheduled,
            num_sent: self.num_sent,
            num_unschedulable_threads: self.num_unschedulable_threads,
            scanned: self.scanned,
            starting_queue_size: self.starting_queue_size,
            starting_buffer_size: self.starting_buffer_size,
        }
    }
}

impl RiftPass {
    /// The pass has not gone beyond its round, and has a thread.
    pub closed spec fn wf(&self) -> bool {
        &&& self.next <= self.round@.len()
        &&& 0 < self.num_threads <= 64
    }
}

impl PassModel {
    /// A pass before its first round.
    pub open spec fn start(
        threads: Set<usize>,
        num_threads: usize,
        budget: u64,
        queue_size: usize,
        buffer_size: usize,
    ) -> PassModel {
        PassModel {
            todo: Seq::empty(),
            threads,
            num_threads,
            remaining_budget: budget,
            num_scheduled: 0,
            num_sent: 0,
            num_unschedulable_threads: 0,
            scanned: 0,
            starting_queue_size: queue_size,
            starting_buffer_size: buffer_size,
        }
    }

    /// Number of entries that are put back unseen before the next one is
    /// tried: all, if the pass may not look at any more.
    pub open spec fn passed_over(self, scheduler: RiftModel) -> nat {
        if self.scanned >= scheduler.config.max_scanned_transactions_per_scheduling_pass {
            self.todo.len()
        } else {
            unready_prefix(self.todo, scheduler.generation)
        }
    }

    /// The scheduler after the pass has looked for its next entry to retry.
    pub open spec fn retrying(self, scheduler: RiftModel) -> RiftModel {
        RiftModel {
            next_deferred: scheduler.next_deferred + self.todo.take(
                self.passed_over(scheduler) as int,
            ),
            ..scheduler
        }
    }

    /// The pass after it has looked for its next entry to retry.
    pub open spec fn retried(self, scheduler: RiftModel) -> PassModel {
        let k = self.passed_over(scheduler) as int;
        if k < self.todo.len() {
            PassModel {
                todo: self.todo.skip(k + 1),
                scanned: (self.scanned + 1) as usize,
                ..self
            }
        } else {
            PassModel { todo: Seq::empty(), ..self }
        }
    }

    /// Whether the pass makes another round.
    pub open spec fn makes_round(self, scheduler: RiftModel, queue_is_empty: bool) -> bool {
        &&& self.remaining_budget > 0
        &&& self.scanned < scheduler.config.max_scanned_transactions_per_scheduling_pass
        &&& self.threads != Set::<usize>::empty()
        &&& (!queue_is_empty || scheduler.deferred.len() > 0)
    }

    /// Whether the pass takes another fresh transaction.
    pub open spec fn takes_fresh(self, scheduler: RiftModel, queue_is_empty: bool) -> bool {
        &&& self.scanned < scheduler.config.max_scanned_transactions_per_scheduling_pass
        &&& !queue_is_empty
        &&& self.threads != Set::<usize>::empty()
    }

    /// The pass after it has taken a fresh transaction.
    pub open spec fn scanning(self) -> PassModel {
        PassModel { scanned: (self.scanned + 1) as usize, ..self }
    }

    /// The pass after batches were sent.
    pub open spec fn sent(self, batches: usize) -> PassModel {
        PassModel { num_sent: (self.num_sent + batches) as usize, ..self }
    }

    /// The pass after no thread could take a transaction.
    pub open spec fn without_thread(self) -> PassModel {
        PassModel {
            num_unschedulable_threads: (self.num_unschedulable_threads + 1) as usize,
            ..self
        }
    }

    /// The pass after a transaction was added to its batch.
    pub open spec fn added(self, cost: u64) -> PassModel {
        PassModel {
            num_scheduled: (if self.num_scheduled < usize::MAX {
                self.num_scheduled + 1
            } else {
                self.num_scheduled as int
            }) as usize,
            remaining_budget: spent(self.remaining_budget, cost),
            ..self
        }
    }

    /// The pass after it was told that `thread_id` has `load` compute units on
    /// their way: the thread takes no more if these are its share.
    pub open spec fn weighed(
        self,
        config: RiftSchedulerConfig,
        thread_id: usize,
        load: int,
    ) -> PassModel {
        if load >= share(config, self.num_threads as nat) {
            PassModel { threads: self.threads.remove(thread_id), ..self }
        } else {
            self
        }
    }
}

/// Where a transaction that is tried comes from.
#[derive(Clone, Copy, Debug, PartialEq, Eq, Structural)]
pub enum Origin {
    /// It had been deferred.
    Retry,
    /// It comes from the queue of the container.
    Fresh,
}

/// A transaction that a pass tries.
#[derive(Clone, Copy, Debug, PartialEq, Eq, Structural)]
pub struct Attempt {
    pub job: DeferredTx,
    pub origin: Origin,
}

/// A transaction whose accounts are to be locked.
pub struct Trial {
    pub attempt: Attempt,
    pub tx: TransactionFootprint,
    /// The threads that may take it.
    pub threads: ThreadSet,
}

/// A transaction that a thread takes.
#[derive(Clone, Copy, Debug, PartialEq, Eq, Structural)]
pub struct Placement {
    pub attempt: Attempt,
    pub thread_id: usize,
    pub cost: u64,
    /// Size of the serialized transaction in bytes.
    pub transaction_bytes: u64,
}

/// What a pass asks for.
pub enum Request {
    /// Tell whether the queue is empty. Answer: [`RiftScheduler::round_checked`].
    CheckRound,
    /// Tell whether the queue is empty. Answer: [`RiftScheduler::fresh_checked`].
    CheckFresh,
    /// Take a transaction from the queue. Answer: [`RiftScheduler::popped`].
    Pop,
    /// Look up the transaction. Answer: [`RiftScheduler::found`] or
    /// [`RiftScheduler::missing`].
    LookUp(Attempt),
    /// Lock the accounts of the transaction for one of the threads. Answer:
    /// [`RiftScheduler::scheduled`], [`RiftScheduler::conflicted`] or
    /// [`RiftScheduler::without_thread`].
    TrySchedule(Trial),
    /// Send the batches. Answer: [`RiftScheduler::sent_before`].
    SendThenAdd(Placement),
    /// Add the transaction to the batch of its thread. Answer:
    /// [`RiftScheduler::added`].
    AddToBatch(Placement),
    /// Send the batches. Answer: [`RiftScheduler::sent_after`].
    SendThenWeigh(Placement),
    /// Tell how many compute units the thread has on their way. Answer:
    /// [`RiftScheduler::weighed`].
    Weigh(Placement),
    /// Send the batches. Answer: [`RiftScheduler::finish`].
    SendLast,
}

impl Request {
    /// Whether this is the request of a pass that looks for its next entry to
    /// retry.
    pub open spec fn is_next_retry_of(self, pass: PassModel, scheduler: RiftModel) -> bool {
        let k = pass.passed_over(scheduler) as int;
        if k < pass.todo.len() {
            self == Request::LookUp(Attempt { job: pass.todo[k], origin: Origin::Retry })
        } else {
            self is CheckFresh
        }
    }

    /// Whether this asks for the accounts of a transaction to be locked.
    pub open spec fn tries(self, attempt: Attempt, tx: FootprintView, pass: PassModel) -> bool {
        &&& self matches Request::TrySchedule(trial)
        &&& trial.attempt == attempt
        &&& trial.tx@ == tx
        &&& threads_in(trial.threads) == pass.threads
    }
}

/// How a pass goes on after it is done with a transaction: `before` and `pass`
/// become `after` and `next`, and `request` is made.
pub open spec fn carries_on(
    origin: Origin,
    before: RiftModel,
    pass: PassModel,
    after: RiftModel,
    next: PassModel,
    request: Request,
) -> bool {
    match origin {
        Origin::Retry => {
            &&& after == pass.retrying(before)
            &&& next == pass.retried(before)
            &&& request.is_next_retry_of(pass, before)
        },
        Origin::Fresh => {
            &&& after == before
            &&& next == pass
            &&& request is CheckFresh
        },
    }
}

/// What a pass reports.
#[derive(Clone, Copy, Debug, PartialEq, Eq, Structural)]
pub struct SchedulingSummary {
    pub starting_queue_size: usize,
    pub starting_buffer_size: usize,
    pub num_scheduled: usize,
    pub num_unschedulable_conflicts: usize,
    pub num_unschedulable_threads: usize,
}

impl SchedulingSummary {
    /// The report of a pass that did nothing.
    pub open spec fn idle(queue_size: usize, buffer_size: usize) -> SchedulingSummary {
        SchedulingSummary {
            starting_queue_size: queue_size,
            starting_buffer_size: buffer_size,
            num_scheduled: 0,
            num_unschedulable_conflicts: 0,
            num_unschedulable_threads: 0,
        }
    }
}

/// A scheduler for the banking stage.
pub struct RiftScheduler {
    pub deferred: Vec<DeferredTx>,
    pub next_deferred: Vec<DeferredTx>,
    pub hotspot_accounts: HotTable,
    pub current_generation: u32,
    pub metrics: SchedulerMetrics,
    pub config: RiftSchedulerConfig,
}

impl View for RiftScheduler {
    type V = RiftModel;

    open spec fn view(&self) -> RiftModel {
        RiftModel {
            deferred: self.deferred@,
            next_deferred: self.next_deferred@,
            hotspots: records(self.hotspot_accounts),
            generation: self.current_generation,
            metrics: self.metrics,
            config: self.config,
        }
    }
}

impl RiftScheduler {
    /// A scheduler that has made no pass yet. An entry has to hold more than
    /// what every entry holds.
    pub fn new(config: RiftSchedulerConfig, entry_overhead_bytes: u64) -> (scheduler: Self)
        requires
            config.target_entry_bytes_per_batch > entry_overhead_bytes,
            config.can_be_reserved(),
        ensures
            scheduler@ == RiftModel::initial(config),
    {
        let cap: usize = config.max_scanned_transactions_per_scheduling_pass;
        RiftScheduler {
            deferred: Vec::with_capacity(cap),
            next_deferred: Vec::with_capacity(cap),
            hotspot_accounts: table_with_capacity(config.hotspot_capacity),
            current_generation: 0,
            metrics: SchedulerMetrics::default(),
            config,
        }
    }

    /// Conflict score for a transaction: the heat of the accounts it writes,
    /// each read off as it is in the current generation.
    pub fn tx_conflict_score(&self, tx: &TransactionFootprint) -> (r: u32)
        requires
            self@.conflict_score(tx@) <= u32::MAX,
        ensures
            r == self@.conflict_score(tx@),
    {
        self.checked_conflict_score(tx).unwrap()
    }

    /// Conflict score for a transaction, if it fits its type.
    pub fn checked_conflict_score(&self, tx: &TransactionFootprint) -> (r: Option<u32>)
        ensures
            r == (if self@.conflict_score(tx@) <= u32::MAX {
                Some(self@.conflict_score(tx@) as u32)
            } else {
                None
            }),
    {
        let rule = Fading { max_age: MAX_GENERATION_AGE, max_bits: HOT_ACCOUNT_DECAY_SHIFT };
        let mut sum: u32 = 0;
        for i in 0..tx.account_keys.len()
            invariant
                rule == reading(),
                sum == total_reading(
                    self@.hotspots,
                    written_among(tx@.account_keys, tx@.writable, i as nat),
                    self@.generation,
                ),
        {
            if writes_at(&tx.writable, i) {
                let key: AccountKey = tx.account_keys[i];
                let heat: u32 = match table_get(&self.hotspot_accounts, &key) {
                    Some(meta) => rule.heat_left(meta, self.current_generation) as u32,
                    None => 0,
                };
                proof {
                    let earlier = written_among(tx@.account_keys, tx@.writable, i as nat);
                    assert(earlier.push(key).drop_last() == earlier);
                    lemma_reading_of_prefix(
                        self@.hotspots,
                        tx@.account_keys,
                        tx@.writable,
                        (i + 1) as nat,
                        self@.generation,
                    );
                }
                match sum.checked_add(heat) {
                    Some(more) => {
                        sum = more;
                    },
                    None => {
                        return None;
                    },
                }
            }
        }
        Some(sum)
    }

    /// Heats the accounts that `tx` writes.
    pub fn mark_hot_accounts(&mut self, tx: &TransactionFootprint)
        ensures
            final(self)@ == old(self)@.marking(tx@),
    {
        mark_writes(&mut self.hotspot_accounts, tx, self.current_generation);
    }

    /// Generations that a transaction waits before its next retry.
    pub fn retry_backoff_generations(&self, retry_count: u8) -> (delay: u32)
        ensures
            delay == backoff(retry_count),
    {
        backoff_generations(retry_count)
    }

    /// Takes heat off the accounts and drops those that are cold or too old,
    /// if there are twice as many as room was made for.
    pub fn cleanup_hotspots(&mut self)
        requires
            old(self)@.config.hotspot_capacity * 2 <= usize::MAX,
        ensures
            final(self)@ == old(self)@.cleaned(),
    {
        if table_len(&self.hotspot_accounts) < self.config.hotspot_capacity * 2 {
            return;
        }
        let rule = Upkeep::Fade(
            Fading { max_age: MAX_GENERATION_AGE, max_bits: MAX_CLEANUP_BITS },
        );
        table_retain(&mut self.hotspot_accounts, &rule, self.current_generation);
    }

    /// Puts a job off for `delay` generations.
    fn put_off(&mut self, job: DeferredTx, delay: u32)
        ensures
            final(self)@ == old(self)@.deferring(job, delay),
    {
        self.next_deferred.push(
            DeferredTx {
                id: job.id,
                retry_count: job.retry_count.saturating_add(1),
                ready_generation: self.current_generation.wrapping_add(delay),
            },
        );
    }

    /// Opens a pass, unless there is nothing to spend or no thread to spend it
    /// on. The compute units on their way, by thread, are taken off the
    /// budget.
    pub fn begin_pass(
        &mut self,
        budget: u64,
        cus_in_flight: &[u64],
        starting_queue_size: usize,
        starting_buffer_size: usize,
    ) -> (opened: Result<RiftPass, SchedulingSummary>)
        requires
            0 < cus_in_flight@.len() <= 64,
            total(cus_in_flight@) <= u64::MAX,
            old(self)@.config.hotspot_capacity * 2 <= usize::MAX,
        ensures
            final(self)@ == old(self)@.begun(),
            ({
                let left = spent(budget, total(cus_in_flight@) as u64);
                let threads = open_threads(old(self)@.config, cus_in_flight@);
                match opened {
                    Ok(pass) => {
                        &&& left > 0
                        &&& threads != Set::<usize>::empty()
                        &&& pass.wf()
                        &&& pass@ == PassModel::start(
                            threads,
                            cus_in_flight@.len() as usize,
                            left,
                            starting_queue_size,
                            starting_buffer_size,
                        )
                    },
                    Err(summary) => {
                        &&& left == 0 || threads == Set::<usize>::empty()
                        &&& summary == SchedulingSummary::idle(
                            starting_queue_size,
                            starting_buffer_size,
                        )
                    },
                }
            }),
    {
        self.metrics.scheduler_passes = self.metrics.scheduler_passes.wrapping_add(1);
        self.current_generation = self.current_generation.wrapping_add(1);
        self.cleanup_hotspots();

        let remaining_budget: u64 = budget.saturating_sub(sum_of(cus_in_flight));
        let num_threads: usize = cus_in_flight.len();
        let target_cu_per_thread: u64 = self.config.target_scheduled_cus / num_threads as u64;
        let mut schedulable_threads: ThreadSet = threads_any(num_threads);
        for thread_id in 0..num_threads
            invariant
                num_threads == cus_in_flight@.len(),
                num_threads <= 64,
                target_cu_per_thread == share(self@.config, num_threads as nat),
                threads_in(schedulable_threads) == Set::new(
                    |t: usize|
                        t < num_threads && (t < thread_id ==> cus_in_flight@[t as int]
                            < target_cu_per_thread),
                ),
        {
            if cus_in_flight[thread_id] >= target_cu_per_thread {
                threads_remove(&mut schedulable_threads, thread_id);
            }
        }
        assert(threads_in(schedulable_threads) == open_threads(self@.config, cus_in_flight@));

        if threads_is_empty(&schedulable_threads) || remaining_budget == 0 {
            return Err(
                SchedulingSummary {
                    starting_queue_size,
                    starting_buffer_size,
                    num_scheduled: 0,
                    num_unschedulable_conflicts: 0,
                    num_unschedulable_threads: 0,
                },
            );
        }
        let pass = RiftPass {
            round: Vec::new(),
            next: 0,
            schedulable_threads,
            num_threads,
            remaining_budget,
            num_scheduled: 0,
            num_sent: 0,
            num_unschedulable_threads: 0,
            scanned: 0,
            starting_queue_size,
            starting_buffer_size,
        };
        assert(pass@.todo == Seq::<DeferredTx>::empty());
        Ok(pass)
    }

    /// Puts the entries back that are not to be tried, up to the next one that
    /// is.
    fn next_retry(&mut self, pass: &mut RiftPass) -> (request: Request)
        requires
            old(pass).wf(),
        ensures
            final(self)@ == old(pass)@.retrying(old(self)@),
            final(pass).wf(),
            final(pass)@ == old(pass)@.retried(old(self)@),
            request.is_next_retry_of(old(pass)@, old(self)@),
    {
        let max_scan: usize = self.config.max_scanned_transactions_per_scheduling_pass;
        let ghost todo = pass@.todo;
        let ghost mut seen: nat = 0;
        while pass.next < pass.round.len()
            invariant
                pass.wf(),
                pass.round == old(pass).round,
                pass.next == old(pass).next + seen,
                todo == old(pass)@.todo,
                seen <= todo.len(),
                pass@ == (PassModel { todo: todo.skip(seen as int), ..old(pass)@ }),
                max_scan == self@.config.max_scanned_transactions_per_scheduling_pass,
                self@ == (RiftModel {
                    next_deferred: old(self)@.next_deferred + todo.take(seen as int),
                    ..old(self)@
                }),
                pass.scanned >= max_scan || unready_prefix(todo, self@.generation) == seen
                    + unready_prefix(todo.skip(seen as int), self@.generation),
            decreases pass.round@.len() - pass.next,
        {
            let entry: DeferredTx = pass.round[pass.next];
            assert(entry == todo[seen as int]);
            assert(todo.skip(seen as int).drop_first() == todo.skip((seen + 1) as int));
            pass.next = pass.next + 1;
            if pass.scanned < max_scan && entry.ready_generation <= self.current_generation {
                pass.scanned = pass.scanned + 1;
                assert(pass@.todo == todo.skip((seen + 1) as int));
                return Request::LookUp(Attempt { job: entry, origin: Origin::Retry });
            }
            self.next_deferred.push(entry);
            proof {
                assert(todo.take(seen as int).push(entry) == todo.take((seen + 1) as int));
                seen = seen + 1;
                assert(pass@.todo == todo.skip(seen as int));
            }
        }
        assert(seen == todo.len());
        assert(todo.take(seen as int) == todo);
        Request::CheckFresh
    }

    /// Goes on after a transaction is done with.
    fn carry_on(&mut self, pass: &mut RiftPass, origin: Origin) -> (request: Request)
        requires
            old(pass).wf(),
        ensures
            final(pass).wf(),
            carries_on(
                origin,
                old(self)@,
                old(pass)@,
                final(self)@,
                final(pass)@,
                request,
            ),
    {
        match origin {
            Origin::Retry => self.next_retry(pass),
            Origin::Fresh => Request::CheckFresh,
        }
    }

    /// Ends a round: what was put off in it comes first in the next one.
    fn end_round(&mut self) -> (request: Request)
        ensures
            final(self)@ == old(self)@.swapped(),
            request is CheckRound,
    {
        std::mem::swap(&mut self.deferred, &mut self.next_deferred);
        Request::CheckRound
    }

    /// Begins another round if there is something to spend, a thread to spend
    /// it on, and something to look at.
    pub fn round_checked(&mut self, pass: &mut RiftPass, queue_is_empty: bool) -> (request: Request)
        requires
            old(pass).wf(),
        ensures
            final(pass).wf(),
            if old(pass)@.makes_round(old(self)@, queue_is_empty) {
                let drained = RiftModel { deferred: Seq::empty(), ..old(self)@ };
                let round = PassModel { todo: old(self)@.deferred, ..old(pass)@ };
                &&& final(self)@ == round.retrying(drained)
                &&& final(pass)@ == round.retried(drained)
                &&& request.is_next_retry_of(round, drained)
            } else {
                &&& final(self)@ == old(self)@
                &&& final(pass)@ == old(pass)@
                &&& request is SendLast
            },
    {
        if pass.remaining_budget > 0 && pass.scanned
            < self.config.max_scanned_transactions_per_scheduling_pass && !threads_is_empty(
            &pass.schedulable_threads,
        ) && (!queue_is_empty || self.deferred.len() > 0) {
            let mut round: Vec<DeferredTx> = Vec::new();
            std::mem::swap(&mut round, &mut self.deferred);
            pass.round = round;
            pass.next = 0;
            proof {
                assert(pass@.todo == old(self)@.deferred);
                assert(pass@ == (PassModel { todo: old(self)@.deferred, ..old(pass)@ }));
                assert(self@ == (RiftModel { deferred: Seq::empty(), ..old(self)@ }));
            }
            self.next_retry(pass)
        } else {
            Request::SendLast
        }
    }

    /// Takes a fresh transaction if the pass may look at another one, and ends
    /// the round otherwise.
    pub fn fresh_checked(&mut self, pass: &RiftPass, queue_is_empty: bool) -> (request: Request)
        ensures
            if pass@.takes_fresh(old(self)@, queue_is_empty) {
                &&& final(self)@ == old(self)@
                &&& request is Pop
            } else {
                &&& final(self)@ == old(self)@.swapped()
                &&& request is CheckRound
            },
    {
        if pass.scanned < self.config.max_scanned_transactions_per_scheduling_pass
            && !queue_is_empty && !threads_is_empty(&pass.schedulable_threads) {
            Request::Pop
        } else {
            self.end_round()
        }
    }

    /// This came from the queue. If it was nothing, the round ends.
    pub fn popped(&mut self, pass: &mut RiftPass, id: Option<TransactionPriorityId>) -> (request:
        Request)
        requires
            old(pass).wf(),
            old(pass)@.scanned < old(self)@.config.max_scanned_transactions_per_scheduling_pass,
        ensures
            final(pass).wf(),
            match id {
                Some(id) => {
                    &&& final(self)@ == old(self)@
                    &&& final(pass)@ == old(pass)@.scanning()
                    &&& request == Request::LookUp(
                        Attempt {
                            job: DeferredTx::fresh(id, old(self)@.generation),
                            origin: Origin::Fresh,
                        },
                    )
                },
                None => {
                    &&& final(self)@ == old(self)@.swapped()
                    &&& final(pass)@ == old(pass)@
                    &&& request is CheckRound
                },
            },
    {
        match id {
            Some(id) => {
                pass.scanned = pass.scanned + 1;
                let job = DeferredTx {
                    id,
                    retry_count: 0,
                    ready_generation: self.current_generation,
                };
                Request::LookUp(Attempt { job, origin: Origin::Fresh })
            },
            None => self.end_round(),
        }
    }

    /// The transaction is not there any more.
    pub fn missing(&mut self, pass: &mut RiftPass, attempt: Attempt) -> (request: Request)
        requires
            old(pass).wf(),
        ensures
            final(pass).wf(),
            carries_on(
                attempt.origin,
                old(self)@,
                old(pass)@,
                final(self)@,
                final(pass)@,
                request,
            ),
    {
        self.carry_on(pass, attempt.origin)
    }

    /// The transaction was found. It is put off if its accounts are too hot
    /// and it has retries left, and tried otherwise.
    pub fn found(
        &mut self,
        pass: &mut RiftPass,
        attempt: Attempt,
        tx: TransactionFootprint,
    ) -> (request: Request)
        requires
            old(pass).wf(),
            old(self)@.conflict_score(tx@) <= u32::MAX,
        ensures
            final(pass).wf(),
            if old(self)@.screens_out(attempt.job, tx@) {
                carries_on(
                    attempt.origin,
                    old(self)@.screened_out(attempt.job),
                    old(pass)@,
                    final(self)@,
                    final(pass)@,
                    request,
                )
            } else {
                &&& final(self)@ == old(self)@
                &&& final(pass)@ == old(pass)@
                &&& request.tries(attempt, tx@, old(pass)@)
            },
    {
        let score: u32 = self.tx_conflict_score(&tx);
        if score >= CONFLICT_THRESHOLD && attempt.job.retry_count < self.config.max_retry_count {
            self.metrics.deferred_retries = self.metrics.deferred_retries.wrapping_add(1);
            let delay: u32 = self.retry_backoff_generations(attempt.job.retry_count);
            self.put_off(attempt.job, delay);
            return self.carry_on(pass, attempt.origin);
        }
        Request::TrySchedule(Trial { attempt, tx, threads: pass.schedulable_threads })
    }

    /// The accounts were locked for `thread_id`, whose batch holds
    /// `entry_bytes` bytes. The batches are sent first if the transaction
    /// would make this one too large.
    pub fn scheduled(&self, trial: Trial, thread_id: usize, cost: u64, entry_bytes: u64) -> (request:
        Request)
        requires
            entry_bytes + trial.tx.serialized_size <= u64::MAX,
        ensures
            ({
                let placement = Placement {
                    attempt: trial.attempt,
                    thread_id,
                    cost,
                    transaction_bytes: trial.tx.serialized_size,
                };
                if entry_bytes + trial.tx.serialized_size
                    > self@.config.target_entry_bytes_per_batch {
                    request == Request::SendThenAdd(placement)
                } else {
                    request == Request::AddToBatch(placement)
                }
            }),
    {
        let placement = Placement {
            attempt: trial.attempt,
            thread_id,
            cost,
            transaction_bytes: trial.tx.serialized_size,
        };
        if entry_bytes + trial.tx.serialized_size > self.config.target_entry_bytes_per_batch {
            Request::SendThenAdd(placement)
        } else {
            Request::AddToBatch(placement)
        }
    }

    /// This number of batches was sent to make room for the transaction.
    pub fn sent_before(&self, pass: &mut RiftPass, placement: Placement, batches: usize) -> (request:
        Request)
        requires
            old(pass).wf(),
            old(pass)@.num_sent + batches <= usize::MAX,
        ensures
            final(pass).wf(),
            final(pass)@ == old(pass)@.sent(batches),
            request == Request::AddToBatch(placement),
    {
        pass.num_sent = pass.num_sent + batches;
        Request::AddToBatch(placement)
    }

    /// The transaction is in its batch, which now holds `batch_len`
    /// transactions and `entry_bytes` bytes. The batches are sent if this one
    /// is full.
    pub fn added(
        &mut self,
        pass: &mut RiftPass,
        placement: Placement,
        batch_len: usize,
        entry_bytes: u64,
    ) -> (request: Request)
        requires
            old(pass).wf(),
            old(self)@.config.target_transactions_per_batch > 0,
            batch_len * FILL_RATIO_PARTS <= u64::MAX,
        ensures
            final(self)@ == old(self)@.added(batch_len),
            final(pass).wf(),
            final(pass)@ == old(pass)@.added(placement.cost),
            if batch_len >= old(self)@.config.target_transactions_per_batch || entry_bytes >= old(
                self,
            )@.config.target_entry_bytes_per_batch {
                request == Request::SendThenWeigh(placement)
            } else {
                request == Request::Weigh(placement)
            },
    {
        pass.num_scheduled = pass.num_scheduled.saturating_add(1);
        pass.remaining_budget = pass.remaining_budget.saturating_sub(placement.cost);
        let fill_ratio_ppm: u64 = batch_len as u64 * FILL_RATIO_PARTS
            / self.config.target_transactions_per_batch as u64;
        self.metrics.total_batch_fill_ratio_ppm =
            self.metrics.total_batch_fill_ratio_ppm.wrapping_add(fill_ratio_ppm);
        if batch_len >= self.config.target_transactions_per_batch || entry_bytes
            >= self.config.target_entry_bytes_per_batch {
            Request::SendThenWeigh(placement)
        } else {
            Request::Weigh(placement)
        }
    }

    /// This number of batches was sent because one was full.
    pub fn sent_after(&self, pass: &mut RiftPass, placement: Placement, batches: usize) -> (request:
        Request)
        requires
            old(pass).wf(),
            old(pass)@.num_sent + batches <= usize::MAX,
        ensures
            final(pass).wf(),
            final(pass)@ == old(pass)@.sent(batches),
            request == Request::Weigh(placement),
    {
        pass.num_sent = pass.num_sent + batches;
        Request::Weigh(placement)
    }

    /// The thread has this many compute units on their way, and this many in
    /// its batch. It takes no more if together they are its share.
    pub fn weighed(
        &mut self,
        pass: &mut RiftPass,
        placement: Placement,
        cus_in_flight: u64,
        batched_cus: u64,
    ) -> (request: Request)
        requires
            old(pass).wf(),
            placement.thread_id < 64,
            cus_in_flight + batched_cus <= u64::MAX,
        ensures
            final(pass).wf(),
            carries_on(
                placement.attempt.origin,
                old(self)@,
                old(pass)@.weighed(
                    old(self)@.config,
                    placement.thread_id,
                    cus_in_flight + batched_cus,
                ),
                final(self)@,
                final(pass)@,
                request,
            ),
    {
        if cus_in_flight + batched_cus >= self.config.target_scheduled_cus
            / pass.num_threads as u64 {
            threads_remove(&mut pass.schedulable_threads, placement.thread_id);
        }
        assert(pass@ == old(pass)@.weighed(
            self@.config,
            placement.thread_id,
            cus_in_flight + batched_cus,
        ));
        self.carry_on(pass, placement.attempt.origin)
    }

    /// The locks of the transaction conflict with more than one thread.
    pub fn conflicted(&mut self, pass: &mut RiftPass, trial: Trial) -> (request: Request)
        requires
            old(pass).wf(),
        ensures
            final(pass).wf(),
            carries_on(
                trial.attempt.origin,
                old(self)@.conflicted(trial.attempt.job, trial.tx@),
                old(pass)@,
                final(self)@,
                final(pass)@,
                request,
            ),
    {
        self.metrics.lock_conflicts = self.metrics.lock_conflicts.wrapping_add(1);
        self.mark_hot_accounts(&trial.tx);
        let delay: u32 = self.retry_backoff_generations(trial.attempt.job.retry_count);
        self.put_off(trial.attempt.job, delay);
        self.carry_on(pass, trial.attempt.origin)
    }

    /// No thread can take the transaction.
    pub fn without_thread(&mut self, pass: &mut RiftPass, trial: Trial) -> (request: Request)
        requires
            old(pass).wf(),
            old(pass)@.num_unschedulable_threads < usize::MAX,
        ensures
            final(pass).wf(),
            carries_on(
                trial.attempt.origin,
                old(self)@.without_thread(trial.attempt.job),
                old(pass)@.without_thread(),
                final(self)@,
                final(pass)@,
                request,
            ),
    {
        pass.num_unschedulable_threads = pass.num_unschedulable_threads + 1;
        self.metrics.unschedulable_threads = self.metrics.unschedulable_threads.wrapping_add(1);
        self.put_off(trial.attempt.job, 1);
        self.carry_on(pass, trial.attempt.origin)
    }

    /// Closes a pass that has sent `batches` batches at its end and took
    /// `elapsed_ns` nanoseconds. Hands back the report, and the transactions
    /// that go back into the queue.
    pub fn finish(&mut self, pass: RiftPass, batches: usize, elapsed_ns: u64) -> (closed: (
        SchedulingSummary,
        Vec<TransactionPriorityId>,
    ))
        requires
            pass@.num_sent + batches <= usize::MAX,
        ensures
            final(self)@ == old(self)@.finished(pass@.sent(batches), elapsed_ns),
            closed.0 == (SchedulingSummary {
                starting_queue_size: pass@.starting_queue_size,
                starting_buffer_size: pass@.starting_buffer_size,
                num_scheduled: pass@.num_scheduled,
                num_unschedulable_conflicts: 0,
                num_unschedulable_threads: pass@.num_unschedulable_threads,
            }),
            closed.1@ == old(self)@.deferred.map_values(|entry: DeferredTx| entry.id),
    {
        let num_sent: usize = pass.num_sent + batches;
        self.metrics.total_batches_sent = self.metrics.total_batches_sent.wrapping_add(
            num_sent as u64,
        );
        self.metrics.total_scanned = self.metrics.total_scanned.wrapping_add(pass.scanned as u64);
        self.metrics.scheduled_txs = self.metrics.scheduled_txs.wrapping_add(
            pass.num_scheduled as u64,
        );
        self.metrics.total_schedule_time_ns = self.metrics.total_schedule_time_ns.wrapping_add(
            elapsed_ns,
        );
        let mut ids: Vec<TransactionPriorityId> = Vec::new();
        for i in 0..self.deferred.len()
            invariant
                ids@ == self.deferred@.take(i as int).map_values(|entry: DeferredTx| entry.id),
        {
            ids.push(self.deferred[i].id);
        }
        assert(self.deferred@.take(self.deferred@.len() as int) == self.deferred@);
        self.deferred.clear();
        let summary = SchedulingSummary {
            starting_queue_size: pass.starting_queue_size,
            starting_buffer_size: pass.starting_buffer_size,
            num_scheduled: pass.num_scheduled,
            num_unschedulable_conflicts: 0,
            num_unschedulable_threads: pass.num_unschedulable_threads,
        };
        (summary, ids)
    }
}

/// Computes [`total`].
fn sum_of(parts: &[u64]) -> (sum: u64)
    requires
        total(parts@) <= u64::MAX,
    ensures
        sum == total(parts@),
{
    let mut sum: u64 = 0;
    for i in 0..parts.len()
        invariant
            total(parts@) <= u64::MAX,
            sum == total(parts@.take(i as int)),
    {
        proof {
            assert(parts@.take(i + 1).drop_last() == parts@.take(i as int));
            lemma_total_of_prefix(parts@, (i + 1) as nat);
        }
        sum = sum + parts[i];
    }
    assert(parts@.take(parts@.len() as int) == parts@);
    sum
}

/// The first parts do not add up to more than all of them.
proof fn lemma_total_of_prefix(parts: Seq<u64>, n: nat)
    requires
        n <= parts.len(),
    ensures
        total(parts.take(n as int)) <= total(parts),
    decreases parts.len() - n,
{
    if n < parts.len() {
        lemma_total_of_prefix(parts, n + 1);
        assert(parts.take((n + 1) as int).drop_last() == parts.take(n as int));
    } else {
        assert(parts.take(n as int) == parts);
    }
}

/// What a score reads off the first accounts does not exceed what it reads off
/// all of them.
proof fn lemma_reading_of_prefix(
    table: Map<AccountKey, HotAccountMeta>,
    keys: Seq<AccountKey>,
    writable: Seq<bool>,
    n: nat,
    generation: u32,
)
    requires
        n <= keys.len(),
    ensures
        total_reading(table, written_among(keys, writable, n), generation) <= total_reading(
            table,
            written_among(keys, writable, keys.len()),
            generation,
        ),
    decreases keys.len() - n,
{
    if n < keys.len() {
        lemma_reading_of_prefix(table, keys, writable, n + 1, generation);
        let shorter = written_among(keys, writable, n);
        let longer = written_among(keys, writable, n + 1);
        if longer != shorter {
            assert(longer.drop_last() == shorter);
        }
    }
}

} // verus!

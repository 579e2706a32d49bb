//! A scheduler for the banking stage that retries with backoff, and gives up
//! transactions that have been retried too often or have waited too long.
//!
//! A pass goes like this: [`RiftScheduler::begin_pass`] opens it, and every
//! [`Request`] is answered by the method that its documentation names, until
//! [`Request::Finish`] is answered by [`RiftScheduler::finish`].
use agave_scheduling_utils::thread_aware_account_locks::ThreadSet;
use vstd::prelude::*;

use crate::heat::{
    decay, decayed, generation_after, generations_between, heat_of, score, writes_at,
    written_among, Cooling, HotAccountMeta, Upkeep,
};
use crate::model::{backoff, backoff_generations};
use crate::outside::{
    no_records, records, table_get, table_retain, table_with_capacity, threads_any, threads_in,
    AccountKey, HotTable,
};
use crate::rift::{
    heating, mark_writes, spent, tallied, FootprintView, RiftSchedulerConfig, TransactionFootprint,
    TransactionPriorityId, CONFLICT_THRESHOLD, MAX_GENERATION_AGE,
};

verus! {

/// Generations after its first attempt for which a deferred transaction may be
/// tried. Later it is given up when its accounts are cool; while they are too
/// hot it is put off as long as it has retries left, and given up after that.
pub const MAX_DEFERRED_GENERATION_LIFETIME: u32 = 64;

/// Bits of heat that an account loses per generation.
pub const HOT_ACCOUNT_DECAY_SHIFT: u32 = 1;

/// How accounts cool.
pub open spec fn cooling() -> Cooling {
    Cooling { max_age: MAX_GENERATION_AGE, shift: HOT_ACCOUNT_DECAY_SHIFT }
}

/// Counters that a scheduler keeps from pass to pass. They wrap.
#[derive(Clone, Copy, Debug, PartialEq, Eq, Structural)]
pub struct SchedulerMetrics {
    pub scheduler_passes: u64,
    pub total_scanned: u64,
    pub scheduled_txs: u64,
    pub lock_conflicts: u64,
    pub unschedulable_threads: u64,
    pub total_batches_sent: u64,
    pub total_schedule_time_ns: u64,
    pub dropped_txs: u64,
}

impl SchedulerMetrics {
    /// Counters of a scheduler that has made no pass yet.
    pub open spec fn zero() -> SchedulerMetrics {
        SchedulerMetrics {
            scheduler_passes: 0,
            total_scanned: 0,
            scheduled_txs: 0,
            lock_conflicts: 0,
            unschedulable_threads: 0,
            total_batches_sent: 0,
            total_schedule_time_ns: 0,
            dropped_txs: 0,
        }
    }
}

impl Default for SchedulerMetrics {
    fn default() -> (metrics: Self)
        ensures
            metrics == Self::zero(),
    {
        SchedulerMetrics {
            scheduler_passes: 0,
            total_scanned: 0,
            scheduled_txs: 0,
            lock_conflicts: 0,
            unschedulable_threads: 0,
            total_batches_sent: 0,
            total_schedule_time_ns: 0,
            dropped_txs: 0,
        }
    }
}

/// A transaction that waits for another attempt.
#[derive(Clone, Copy, Debug, PartialEq, Eq, Structural)]
pub struct DeferredTx {
    pub id: TransactionPriorityId,
    /// Attempts that have failed so far.
    pub retry_count: u8,
    /// Generation from which on the transaction is tried again.
    pub ready_generation: u32,
    /// Generation of the first attempt.
    pub created_generation: u32,
}

impl DeferredTx {
    /// The entry after one more failed attempt in `generation`, to be tried
    /// again after `delay` generations.
    pub open spec fn postponed(self, generation: u32, delay: u32) -> DeferredTx {
        DeferredTx {
            id: self.id,
            retry_count: (self.retry_count + 1) as u8,
            ready_generation: generation_after(generation, delay),
            created_generation: self.created_generation,
        }
    }
}

/// The entries that are tried in `generation`, in order.
pub open spec fn ready_in(deferred: Seq<DeferredTx>, generation: u32) -> Seq<DeferredTx> {
    deferred.filter(|d: DeferredTx| d.ready_generation <= generation)
}

/// The entries that go on waiting in `generation`, in order.
pub open spec fn waiting_in(deferred: Seq<DeferredTx>, generation: u32) -> Seq<DeferredTx> {
    deferred.filter(|d: DeferredTx| d.ready_generation > generation)
}

/// What is decided of a transaction before its accounts are locked.
pub enum Screening {
    /// Its accounts are too hot, and it is put off.
    Defer,
    /// Its accounts are too hot, and it has used up its retries.
    Drop,
    /// It has waited too long.
    Expire,
    /// It may be tried.
    Try,
}

/// Mathematical model of a [`RiftScheduler`].
#[verifier::ext_equal]
pub struct RiftModel {
    pub deferred: Seq<DeferredTx>,
    pub next_deferred: Seq<DeferredTx>,
    pub hotspots: Map<AccountKey, HotAccountMeta>,
    pub generation: u32,
    pub metrics: SchedulerMetrics,
    pub config: RiftSchedulerConfig,
}

impl RiftModel {
    /// A scheduler that has made no pass yet.
    pub open spec fn initial(config: RiftSchedulerConfig) -> RiftModel {
        RiftModel {
            deferred: Seq::empty(),
            next_deferred: Seq::empty(),
            hotspots: no_records(),
            generation: 0,
            metrics: SchedulerMetrics::zero(),
            config,
        }
    }

    /// The generation of the next pass.
    pub open spec fn next_generation(self) -> u32 {
        generation_after(self.generation, 1)
    }

    /// The scheduler when a pass has begun: the accounts have cooled, and the
    /// entries that are ready have left the queue.
    pub open spec fn begun(self) -> RiftModel {
        let generation = self.next_generation();
        RiftModel {
            deferred: waiting_in(self.deferred, generation),
            hotspots: cooling().cool(self.hotspots, generation),
            generation,
            metrics: SchedulerMetrics {
                scheduler_passes: tallied(self.metrics.scheduler_passes, 1),
                ..self.metrics
            },
            ..self
        }
    }

    /// What is decided of a job before its accounts are locked.
    pub open spec fn screening(self, job: DeferredTx, tx: FootprintView) -> Screening {
        if score(self.hotspots, tx.writes()) >= CONFLICT_THRESHOLD {
            if job.retry_count >= self.config.max_retry_count {
                Screening::Drop
            } else {
                Screening::Defer
            }
        } else if generations_between(self.generation, job.created_generation)
            > MAX_DEFERRED_GENERATION_LIFETIME {
            Screening::Expire
        } else {
            Screening::Try
        }
    }

    /// The scheduler after one more transaction was given up.
    pub open spec fn dropping(self) -> RiftModel {
        RiftModel {
            metrics: SchedulerMetrics {
                dropped_txs: tallied(self.metrics.dropped_txs, 1),
                ..self.metrics
            },
            ..self
        }
    }

    /// The scheduler after a job was put off for `delay` generations, or given
    /// up if it has used up its retries.
    pub open spec fn deferring(self, job: DeferredTx, delay: u32) -> RiftModel {
        if job.retry_count >= self.config.max_retry_count {
            self.dropping()
        } else {
            RiftModel {
                next_deferred: self.next_deferred.push(job.postponed(self.generation, delay)),
                ..self
            }
        }
    }

    /// The scheduler after the accounts that `tx` writes were heated.
    pub open spec fn marking(self, tx: FootprintView) -> RiftModel {
        RiftModel {
            hotspots: heating().mark(self.hotspots, tx.writes(), self.generation),
            ..self
        }
    }

    /// The scheduler after a job was looked at.
    pub open spec fn screened(self, job: DeferredTx, tx: FootprintView) -> RiftModel {
        let counted = RiftModel {
            metrics: SchedulerMetrics {
                lock_conflicts: tallied(self.metrics.lock_conflicts, 1),
                ..self.metrics
            },
            ..self
        };
        match self.screening(job, tx) {
            Screening::Defer => counted.deferring(job, backoff(job.retry_count)),
            Screening::Drop => counted.dropping(),
            Screening::Expire => self.dropping(),
            Screening::Try => self,
        }
    }

    /// The scheduler after it turned out that the locks of a job conflict.
    pub open spec fn conflicted(self, job: DeferredTx, tx: FootprintView) -> RiftModel {
        self.marking(tx).deferring(job, backoff(job.retry_count))
    }

    /// The scheduler after it turned out that no thread can take a job.
    pub open spec fn without_thread(self, job: DeferredTx) -> RiftModel {
        (RiftModel {
            metrics: SchedulerMetrics {
                unschedulable_threads: tallied(self.metrics.unschedulable_threads, 1),
                ..self.metrics
            },
            ..self
        }).deferring(job, 1)
    }

    /// The scheduler after batches were sent.
    pub open spec fn sent(self, batches: usize) -> RiftModel {
        RiftModel {
            metrics: SchedulerMetrics {
                total_batches_sent: tallied(self.metrics.total_batches_sent, batches as u64),
                ..self.metrics
            },
            ..self
        }
    }

    /// The scheduler after a transaction was added to its batch.
    pub open spec fn added(self, tx: FootprintView) -> RiftModel {
        (RiftModel {
            metrics: SchedulerMetrics {
                scheduled_txs: tallied(self.metrics.scheduled_txs, 1),
                ..self.metrics
            },
            ..self
        }).marking(tx)
    }

    /// The scheduler after a pass: what was put off waits behind what was
    /// waiting already.
    pub open spec fn finished(self, scanned: usize, elapsed_ns: u64) -> RiftModel {
        RiftModel {
            deferred: self.deferred + self.next_deferred,
            next_deferred: Seq::empty(),
            metrics: SchedulerMetrics {
                total_schedule_time_ns: tallied(self.metrics.total_schedule_time_ns, elapsed_ns),
                total_scanned: tallied(self.metrics.total_scanned, scanned as u64),
                ..self.metrics
            },
            ..self
        }
    }
}

/// A pass that is under way.
pub struct RiftPass {
    ready: Vec<DeferredTx>,
    schedulable_threads: ThreadSet,
    remaining_budget: u64,
    num_scheduled: usize,
    num_sent: usize,
    num_unschedulable_threads: usize,
    scanned: usize,
}

/// Mathematical model of a [`RiftPass`].
#[verifier::ext_equal]
pub struct PassModel {
    /// Entries that have not been looked at yet.
    pub todo: Seq<DeferredTx>,
    pub threads: Set<usize>,
    pub remaining_budget: u64,
    pub num_scheduled: usize,
    pub num_sent: usize,
    pub num_unschedulable_threads: usize,
    pub scanned: usize,
}

impl View for RiftPass {
    type V = PassModel;

    closed spec fn view(&self) -> PassModel {
        PassModel {
            todo: self.ready@.skip(self.scanned as int),
            threads: threads_in(self.schedulable_threads),
            remaining_budget: self.remaining_budget,
            num_scheduled: self.num_scheduled,
            num_sent: self.num_sent,
            num_unschedulable_threads: self.num_unschedulable_threads,
            scanned: self.scanned,
        }
    }
}

impl PassModel {
    /// A pass over `ready` on all of `num_threads` threads.
    pub open spec fn start(ready: Seq<DeferredTx>, num_threads: usize, budget: u64) -> PassModel {
        PassModel {
            todo: ready,
            threads: Set::new(|t: usize| t < num_threads),
            remaining_budget: budget,
            num_scheduled: 0,
            num_sent: 0,
            num_unschedulable_threads: 0,
            scanned: 0,
        }
    }

    /// The pass after it has turned to its next entry.
    pub open spec fn resumed(self) -> PassModel {
        if self.todo.len() == 0 {
            self
        } else {
            PassModel {
                todo: self.todo.drop_first(),
                scanned: (self.scanned + 1) as usize,
                ..self
            }
        }
    }

    /// The pass after batches were sent.
    pub open spec fn sent(self, batches: usize) -> PassModel {
        PassModel { num_sent: (self.num_sent + batches) as usize, ..self }
    }

    /// The pass after no thread could take an entry.
    pub open spec fn without_thread(self) -> PassModel {
        PassModel {
            num_unschedulable_threads: (self.num_unschedulable_threads + 1) as usize,
            ..self
        }
    }

    /// The pass after a transaction was added to its batch.
    pub open spec fn added(self, cost: u64) -> PassModel {
        PassModel {
            num_scheduled: (if self.num_scheduled < usize::MAX {
                self.num_scheduled + 1
            } else {
                self.num_scheduled as int
            }) as usize,
            remaining_budget: spent(self.remaining_budget, cost),
            ..self
        }
    }
}

impl RiftPass {
    /// The pass has not looked at more entries than it has.
    pub closed spec fn wf(&self) -> bool {
        self.scanned <= self.ready@.len()
    }
}

/// A transaction whose accounts are to be locked.
pub struct Trial {
    pub job: DeferredTx,
    pub tx: TransactionFootprint,
    /// The threads that may take it.
    pub threads: ThreadSet,
    /// The budget that is left.
    pub remaining_budget: u64,
}

/// A transaction that a thread takes.
pub struct Placement {
    pub job: DeferredTx,
    pub tx: TransactionFootprint,
    pub thread_id: usize,
    pub cost: u64,
}

/// What a pass asks for.
pub enum Request {
    /// Look up the transaction. Answer: [`RiftScheduler::found`] or
    /// [`RiftScheduler::missing`].
    LookUp(DeferredTx),
    /// Lock the accounts of the transaction for one of the threads. Answer:
    /// [`RiftScheduler::scheduled`], [`RiftScheduler::conflicted`] or
    /// [`RiftScheduler::without_thread`].
    TrySchedule(Trial),
    /// Send the batches. Answer: [`RiftScheduler::sent`].
    SendBatches(Placement),
    /// Add the transaction to the batch of its thread. Answer:
    /// [`RiftScheduler::added`].
    AddToBatch(Placement),
    /// All entries have been looked at. Answer: [`RiftScheduler::finish`].
    Finish,
}

impl Request {
    /// Whether this is the request of a pass that turns to its next entry.
    pub open spec fn is_next_of(self, pass: PassModel) -> bool {
        if pass.todo.len() == 0 {
            self is Finish
        } else {
            self == Request::LookUp(pass.todo[0])
        }
    }

    /// Whether this asks for the accounts of `job` to be locked.
    pub open spec fn tries(self, job: DeferredTx, tx: FootprintView, pass: PassModel) -> bool {
        &&& self matches Request::TrySchedule(trial)
        &&& trial.job == job
        &&& trial.tx@ == tx
        &&& threads_in(trial.threads) == pass.threads
        &&& trial.remaining_budget == pass.remaining_budget
    }
}

impl Placement {
    /// Whether this places `job` on a thread.
    pub open spec fn places(
        self,
        job: DeferredTx,
        tx: FootprintView,
        thread_id: usize,
        cost: u64,
    ) -> bool {
        &&& self.job == job
        &&& self.tx@ == tx
        &&& self.thread_id == thread_id
        &&& self.cost == cost
    }
}

/// What a pass reports.
#[derive(Clone, Copy, Debug, PartialEq, Eq, Structural)]
pub struct SchedulingSummary {
    /// Transactions scheduled.
    pub scheduled: usize,
    /// Transactions that wait for another attempt.
    pub deferred: usize,
    /// Transactions looked at.
    pub scanned: usize,
    /// Generation of the pass.
    pub generation: u32,
}

/// A scheduler for the banking stage.
pub struct RiftScheduler {
    pub deferred: Vec<DeferredTx>,
    pub next_deferred: Vec<DeferredTx>,
    pub hotspot_accounts: HotTable,
    pub current_generation: u32,
    pub metrics: SchedulerMetrics,
    pub config: RiftSchedulerConfig,
}

impl View for RiftScheduler {
    type V = RiftModel;

    open spec fn view(&self) -> RiftModel {
        RiftModel {
            deferred: self.deferred@,
            next_deferred: self.next_deferred@,
            hotspots: records(self.hotspot_accounts),
            generation: self.current_generation,
            metrics: self.metrics,
            config: self.config,
        }
    }
}

impl RiftScheduler {
    /// A scheduler that has made no pass yet.
    pub fn new(config: RiftSchedulerConfig) -> (scheduler: Self)
        requires
            config.can_be_reserved(),
        ensures
            scheduler@ == RiftModel::initial(config),
    {
        let cap: usize = config.max_scanned_transactions_per_scheduling_pass;
        RiftScheduler {
            deferred: Vec::with_capacity(cap),
            next_deferred: Vec::with_capacity(cap),
            hotspot_accounts: table_with_capacity(config.hotspot_capacity),
            current_generation: 0,
            metrics: SchedulerMetrics::default(),
            config,
        }
    }

    /// Single source of truth for heat decay: what is stored is normalized by
    /// [`Self::cleanup_hotspots`], which runs first in every pass.
    pub fn decayed_heat(heat: u16, age: u32) -> (left: u16)
        ensures
            left == decayed(heat, age, HOT_ACCOUNT_DECAY_SHIFT),
    {
        decay(heat, age, HOT_ACCOUNT_DECAY_SHIFT)
    }

    /// Conflict score for a transaction. Deliberately does not special-case
    /// zero-cost transactions: a zero-cost write to a hot account is exactly
    /// as contended as any other write to that account.
    pub fn tx_conflict_score(&self, tx: &TransactionFootprint) -> (r: u32)
        ensures
            r == score(self@.hotspots, tx@.writes()),
    {
        let mut sum: u32 = 0;
        for i in 0..tx.account_keys.len()
            invariant
                sum == score(
                    self@.hotspots,
                    written_among(tx@.account_keys, tx@.writable, i as nat),
                ),
        {
            if writes_at(&tx.writable, i) {
                let key: AccountKey = tx.account_keys[i];
                let heat: u32 = match table_get(&self.hotspot_accounts, &key) {
                    Some(meta) => meta.heat as u32,
                    None => 0,
                };
                proof {
                    let earlier = written_among(tx@.account_keys, tx@.writable, i as nat);
                    assert(earlier.push(key).drop_last() == earlier);
                    assert(heat == heat_of(self@.hotspots, key));
                }
                sum = sum.saturating_add(heat);
            }
        }
        sum
    }

    /// Heats the accounts that `tx` writes.
    pub fn mark_hot_accounts(&mut self, tx: &TransactionFootprint)
        ensures
            final(self)@ == old(self)@.marking(tx@),
    {
        mark_writes(&mut self.hotspot_accounts, tx, self.current_generation);
    }

    /// Normalizes every hot account to the current generation, and drops those
    /// that are cold or too old.
    pub fn cleanup_hotspots(&mut self)
        ensures
            final(self)@ == (RiftModel {
                hotspots: cooling().cool(old(self)@.hotspots, old(self)@.generation),
                ..old(self)@
            }),
    {
        let rule = Upkeep::Cool(
            Cooling { max_age: MAX_GENERATION_AGE, shift: HOT_ACCOUNT_DECAY_SHIFT },
        );
        table_retain(&mut self.hotspot_accounts, &rule, self.current_generation);
        assert(self@.hotspots == cooling().cool(old(self)@.hotspots, old(self)@.generation));
    }

    /// Counts one more transaction that is given up.
    fn give_up(&mut self)
        ensures
            final(self)@ == old(self)@.dropping(),
    {
        self.metrics.dropped_txs = self.metrics.dropped_txs.wrapping_add(1);
    }

    /// Puts a job off for `delay` generations, or gives it up if it has used
    /// up its retries.
    fn put_off(&mut self, job: DeferredTx, delay: u32)
        ensures
            final(self)@ == old(self)@.deferring(job, delay),
    {
        if job.retry_count >= self.config.max_retry_count {
            self.give_up();
            return;
        }
        self.next_deferred.push(
            DeferredTx {
                id: job.id,
                retry_count: job.retry_count + 1,
                ready_generation: self.current_generation.wrapping_add(delay),
                created_generation: job.created_generation,
            },
        );
    }

    /// Turns to the next entry of the pass.
    fn resume(pass: &mut RiftPass) -> (request: Request)
        requires
            old(pass).wf(),
        ensures
            final(pass).wf(),
            final(pass)@ == old(pass)@.resumed(),
            request.is_next_of(old(pass)@),
    {
        if pass.scanned < pass.ready.len() {
            let job: DeferredTx = pass.ready[pass.scanned];
            pass.scanned = pass.scanned + 1;
            assert(pass@.todo == old(pass)@.todo.drop_first());
            Request::LookUp(job)
        } else {
            Request::Finish
        }
    }

    /// Splits a queue into the entries that are ready in `generation` and
    /// those that go on waiting.
    fn split_ready(queue: Vec<DeferredTx>, generation: u32) -> (parts: (
        Vec<DeferredTx>,
        Vec<DeferredTx>,
    ))
        ensures
            parts.0@ == ready_in(queue@, generation),
            parts.1@ == waiting_in(queue@, generation),
    {
        let mut ready: Vec<DeferredTx> = Vec::new();
        let mut waiting: Vec<DeferredTx> = Vec::new();
        proof {
            reveal(Seq::filter);
            assert(queue@.take(0) == Seq::<DeferredTx>::empty());
        }
        for i in 0..queue.len()
            invariant
                ready@ == ready_in(queue@.take(i as int), generation),
                waiting@ == waiting_in(queue@.take(i as int), generation),
        {
            proof {
                reveal(Seq::filter);
                assert(queue@.take(i + 1).drop_last() == queue@.take(i as int));
            }
            let entry: DeferredTx = queue[i];
            if entry.ready_generation <= generation {
                ready.push(entry);
            } else {
                waiting.push(entry);
            }
        }
        assert(queue@.take(queue@.len() as int) == queue@);
        (ready, waiting)
    }

    /// Opens a pass on `num_threads` threads: advances the generation, cools
    /// the accounts, and takes the entries whose backoff has elapsed out of
    /// the queue.
    pub fn begin_pass(&mut self, budget: u64, num_threads: usize) -> (opened: (RiftPass, Request))
        requires
            num_threads <= 64,
        ensures
            final(self)@ == old(self)@.begun(),
            opened.0.wf(),
            ({
                let start = PassModel::start(
                    ready_in(old(self)@.deferred, old(self)@.next_generation()),
                    num_threads,
                    budget,
                );
                &&& opened.0@ == start.resumed()
                &&& opened.1.is_next_of(start)
            }),
    {
        self.metrics.scheduler_passes = self.metrics.scheduler_passes.wrapping_add(1);
        self.current_generation = self.current_generation.wrapping_add(1);
        self.cleanup_hotspots();

        let mut queue: Vec<DeferredTx> = Vec::new();
        std::mem::swap(&mut queue, &mut self.deferred);
        let (ready, waiting) = Self::split_ready(queue, self.current_generation);
        self.deferred = waiting;

        let mut pass = RiftPass {
            ready,
            schedulable_threads: threads_any(num_threads),
            remaining_budget: budget,
            num_scheduled: 0,
            num_sent: 0,
            num_unschedulable_threads: 0,
            scanned: 0,
        };
        proof {
            assert(pass@.todo == ready@);
            assert(pass@ == PassModel::start(ready@, num_threads, budget));
        }
        let request = Self::resume(&mut pass);
        (pass, request)
    }

    /// The transaction is not there any more.
    pub fn missing(&mut self, pass: &mut RiftPass) -> (request: Request)
        requires
            old(pass).wf(),
        ensures
            final(self)@ == old(self)@,
            final(pass).wf(),
            final(pass)@ == old(pass)@.resumed(),
            request.is_next_of(old(pass)@),
    {
        Self::resume(pass)
    }

    /// The transaction was found. It is put off or given up if its accounts
    /// are too hot or if it has waited too long, and tried otherwise.
    pub fn found(&mut self, pass: &mut RiftPass, job: DeferredTx, tx: TransactionFootprint) -> (request:
        Request)
        requires
            old(pass).wf(),
        ensures
            final(self)@ == old(self)@.screened(job, tx@),
            final(pass).wf(),
            if old(self)@.screening(job, tx@) is Try {
                &&& final(pass)@ == old(pass)@
                &&& request.tries(job, tx@, old(pass)@)
            } else {
                &&& final(pass)@ == old(pass)@.resumed()
                &&& request.is_next_of(old(pass)@)
            },
    {
        if self.tx_conflict_score(&tx) >= CONFLICT_THRESHOLD {
            self.metrics.lock_conflicts = self.metrics.lock_conflicts.wrapping_add(1);
            self.put_off(job, backoff_generations(job.retry_count));
            return Self::resume(pass);
        }
        let total_age: u32 = self.current_generation.wrapping_sub(job.created_generation);
        if total_age > MAX_DEFERRED_GENERATION_LIFETIME {
            self.give_up();
            return Self::resume(pass);
        }
        Request::TrySchedule(
            Trial {
                job,
                tx,
                threads: pass.schedulable_threads,
                remaining_budget: pass.remaining_budget,
            },
        )
    }

    /// The accounts were locked for `thread_id`, whose batch holds
    /// `entry_bytes` bytes. The batches are sent first if the transaction
    /// would make this one too large.
    pub fn scheduled(&self, trial: Trial, thread_id: usize, cost: u64, entry_bytes: u64) -> (request:
        Request)
        requires
            entry_bytes + trial.tx.serialized_size <= u64::MAX,
        ensures
            if entry_bytes + trial.tx.serialized_size > self@.config.target_entry_bytes_per_batch {
                request matches Request::SendBatches(placement) && placement.places(
                    trial.job,
                    trial.tx@,
                    thread_id,
                    cost,
                )
            } else {
                request matches Request::AddToBatch(placement) && placement.places(
                    trial.job,
                    trial.tx@,
                    thread_id,
                    cost,
                )
            },
    {
        let full: bool = entry_bytes + trial.tx.serialized_size
            > self.config.target_entry_bytes_per_batch;
        let placement = Placement { job: trial.job, tx: trial.tx, thread_id, cost };
        if full {
            Request::SendBatches(placement)
        } else {
            Request::AddToBatch(placement)
        }
    }

    /// This number of batches was sent. Only these are counted, not those that
    /// the pass has sent before.
    pub fn sent(&mut self, pass: &mut RiftPass, placement: Placement, batches: usize) -> (request:
        Request)
        requires
            old(pass).wf(),
            old(pass)@.num_sent + batches <= usize::MAX,
        ensures
            final(self)@ == old(self)@.sent(batches),
            final(pass).wf(),
            final(pass)@ == old(pass)@.sent(batches),
            request == Request::AddToBatch(placement),
    {
        pass.num_sent = pass.num_sent + batches;
        self.metrics.total_batches_sent = self.metrics.total_batches_sent.wrapping_add(
            batches as u64,
        );
        Request::AddToBatch(placement)
    }

    /// The transaction is in its batch.
    pub fn added(&mut self, pass: &mut RiftPass, placement: Placement) -> (request: Request)
        requires
            old(pass).wf(),
        ensures
            final(self)@ == old(self)@.added(placement.tx@),
            final(pass).wf(),
            final(pass)@ == old(pass)@.added(placement.cost).resumed(),
            request.is_next_of(old(pass)@),
    {
        pass.num_scheduled = pass.num_scheduled.saturating_add(1);
        self.metrics.scheduled_txs = self.metrics.scheduled_txs.wrapping_add(1);
        pass.remaining_budget = pass.remaining_budget.saturating_sub(placement.cost);
        self.mark_hot_accounts(&placement.tx);
        Self::resume(pass)
    }

    /// The locks of the transaction conflict with more than one thread.
    pub fn conflicted(&mut self, pass: &mut RiftPass, trial: Trial) -> (request: Request)
        requires
            old(pass).wf(),
        ensures
            final(self)@ == old(self)@.conflicted(trial.job, trial.tx@),
            final(pass).wf(),
            final(pass)@ == old(pass)@.resumed(),
            request.is_next_of(old(pass)@),
    {
        self.mark_hot_accounts(&trial.tx);
        self.put_off(trial.job, backoff_generations(trial.job.retry_count));
        Self::resume(pass)
    }

    /// No thread can take the transaction.
    pub fn without_thread(&mut self, pass: &mut RiftPass, trial: Trial) -> (request: Request)
        requires
            old(pass).wf(),
            old(pass)@.num_unschedulable_threads < usize::MAX,
        ensures
            final(self)@ == old(self)@.without_thread(trial.job),
            final(pass).wf(),
            final(pass)@ == old(pass)@.without_thread().resumed(),
            request.is_next_of(old(pass)@),
    {
        pass.num_unschedulable_threads = pass.num_unschedulable_threads + 1;
        self.metrics.unschedulable_threads = self.metrics.unschedulable_threads.wrapping_add(1);
        self.put_off(trial.job, 1);
        Self::resume(pass)
    }

    /// Closes a pass that took `elapsed_ns` nanoseconds.
    pub fn finish(&mut self, pass: RiftPass, elapsed_ns: u64) -> (summary: SchedulingSummary)
        ensures
            final(self)@ == old(self)@.finished(pass@.scanned, elapsed_ns),
            summary == (SchedulingSummary {
                scheduled: pass@.num_scheduled,
                deferred: final(self)@.deferred.len() as usize,
                scanned: pass@.scanned,
                generation: old(self)@.generation,
            }),
    {
        self.deferred.append(&mut self.next_deferred);
        self.metrics.total_schedule_time_ns = self.metrics.total_schedule_time_ns.wrapping_add(
            elapsed_ns,
        );
        self.metrics.total_scanned = self.metrics.total_scanned.wrapping_add(pass.scanned as u64);
        SchedulingSummary {
            scheduled: pass.num_scheduled,
            deferred: self.deferred.len(),
            scanned: pass.scanned,
            generation: self.current_generation,
        }
    }
}

} // verus!

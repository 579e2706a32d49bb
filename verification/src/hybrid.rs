//! The scheduler: conflict filtering by account heat, a retry queue with
//! backoff, and a bound on retries.
use std::collections::HashMap;

use vstd::prelude::*;
use vstd::std_specs::hash::spec_keys_iter;
use vstd::std_specs::iter::IteratorSpec;

use crate::heat::{
    decay, decayed, generation_after, heat_of, score, writes_at, written_among, Cooling, Heating,
    HotAccountMeta,
};
use crate::model::{
    backoff_generations, first_attempts, lemma_attempt_all_counts, lemma_attempt_all_grows,
    ready_in, retries, waiting_in, DeferredView, Job, PassState, SchedulerModel, Verdict,
};
use crate::types::{
    SchedulerConfig, SchedulerMetrics, SchedulingSummary, Transaction, TransactionView,
};

verus! {

broadcast use vstd::std_specs::hash::group_hash_axioms;

/// A deferred transaction retains a full owned copy of the transaction it
/// couldn't schedule, along with its retry history. This is what makes retry
/// actually possible: without owning the transaction data, a deferred entry
/// would have nothing to reschedule later.
#[derive(Clone, Debug)]
pub struct DeferredTx {
    pub tx: Transaction,
    pub retry_count: u8,
    pub ready_generation: u32,
}

impl View for DeferredTx {
    type V = DeferredView;

    open spec fn view(&self) -> DeferredView {
        DeferredView {
            tx: self.tx@,
            retry_count: self.retry_count,
            ready_generation: self.ready_generation,
        }
    }
}

/// The model of a queue of deferred transactions.
pub open spec fn queue_view(queue: Seq<DeferredTx>) -> Seq<DeferredView> {
    queue.map_values(|d: DeferredTx| d@)
}

/// The model of a batch of transactions.
pub open spec fn batch_view(batch: Seq<Transaction>) -> Seq<TransactionView> {
    batch.map_values(|tx: Transaction| tx@)
}

/// A scheduler of transactions.
#[derive(Clone, Debug)]
pub struct HybridScheduler {
    pub current_generation: u32,
    /// The hot accounts, by the number in their [`AccountId`](crate::AccountId).
    pub hotspot_accounts: HashMap<u64, HotAccountMeta>,
    pub deferred: Vec<DeferredTx>,
    pub metrics: SchedulerMetrics,
    pub config: SchedulerConfig,
}

impl View for HybridScheduler {
    type V = SchedulerModel;

    open spec fn view(&self) -> SchedulerModel {
        SchedulerModel {
            generation: self.current_generation,
            hotspots: self.hotspot_accounts@,
            deferred: queue_view(self.deferred@),
            metrics: self.metrics,
            config: self.config,
        }
    }
}

/// Whether room for this many hot accounts can be asked for at all: a table of
/// more than `isize::MAX` bytes cannot be allocated, and a hot account takes up
/// to 64 bytes of it.
pub open spec fn can_be_reserved(hotspot_capacity: usize) -> bool {
    hotspot_capacity <= isize::MAX / 64
}

impl Default for HybridScheduler {
    fn default() -> (scheduler: Self)
        ensures
            scheduler@ == SchedulerModel::initial(SchedulerConfig::standard()),
    {
        Self::with_config(SchedulerConfig::default())
    }
}

impl HybridScheduler {
    /// A scheduler that has made no pass yet.
    pub fn with_config(config: SchedulerConfig) -> (scheduler: Self)
        requires
            can_be_reserved(config.hotspot_capacity),
        ensures
            scheduler@ == SchedulerModel::initial(config),
    {
        let scheduler = HybridScheduler {
            current_generation: 0,
            hotspot_accounts: HashMap::with_capacity(config.hotspot_capacity),
            deferred: Vec::new(),
            metrics: SchedulerMetrics::default(),
            config,
        };
        assert(scheduler@.deferred == Seq::<DeferredView>::empty());
        scheduler
    }

    /// The counters.
    pub fn metrics(&self) -> (metrics: &SchedulerMetrics)
        ensures
            *metrics == self@.metrics,
    {
        &self.metrics
    }

    /// Single source of truth for hotspot heat decay.
    pub fn decayed_heat(heat: u16, age: u32, shift: u32) -> (left: u16)
        ensures
            left == decayed(heat, age, shift),
    {
        decay(heat, age, shift)
    }

    /// Conflict score for a transaction, based on current (already
    /// generation-normalized) heat of the writable accounts it touches.
    ///
    /// This intentionally does not special-case a cost of zero: a zero-cost
    /// transaction touching a hot account is exactly as contended as any other
    /// transaction touching that account.
    pub fn tx_conflict_score(&self, tx: &Transaction) -> (r: u32)
        ensures
            r == score(self@.hotspots, tx@.writes()),
    {
        let mut sum: u32 = 0;
        for index in 0..tx.account_keys.len()
            invariant
                sum == score(self@.hotspots, written_among(tx@.numbers(), tx@.writable, index as nat)),
        {
            if writes_at(&tx.writable, index) {
                let account: u64 = tx.account_keys[index].0;
                let heat: u32 = match self.hotspot_accounts.get(&account) {
                    Some(meta) => meta.heat as u32,
                    None => 0,
                };
                proof {
                    let earlier = written_among(tx@.numbers(), tx@.writable, index as nat);
                    assert(written_among(tx@.numbers(), tx@.writable, (index + 1) as nat)
                        == earlier.push(account));
                    assert(earlier.push(account).drop_last() == earlier);
                    assert(heat == heat_of(self@.hotspots, account));
                }
                sum = sum.saturating_add(heat);
            }
        }
        sum
    }

    /// Heats the accounts that `tx` writes.
    pub fn mark_hot_accounts(&mut self, tx: &Transaction)
        ensures
            final(self)@ == (SchedulerModel {
                hotspots: old(self)@.config.heating().mark(
                    old(self)@.hotspots,
                    tx@.writes(),
                    old(self)@.generation,
                ),
                ..old(self)@
            }),
    {
        let generation: u32 = self.current_generation;
        let heating = Heating { gain: self.config.initial_heat, cap: self.config.max_account_heat };
        for index in 0..tx.account_keys.len()
            invariant
                generation == old(self).current_generation,
                heating == old(self).config.heating(),
                self.current_generation == old(self).current_generation,
                self.deferred == old(self).deferred,
                self.metrics == old(self).metrics,
                self.config == old(self).config,
                self.hotspot_accounts@ == heating.mark(
                    old(self).hotspot_accounts@,
                    written_among(tx@.numbers(), tx@.writable, index as nat),
                    generation,
                ),
        {
            if writes_at(&tx.writable, index) {
                let account: u64 = tx.account_keys[index].0;
                let before: Option<HotAccountMeta> = match self.hotspot_accounts.get(&account) {
                    Some(meta) => Some(*meta),
                    None => None,
                };
                proof {
                    let earlier = written_among(tx@.numbers(), tx@.writable, index as nat);
                    assert(written_among(tx@.numbers(), tx@.writable, (index + 1) as nat)
                        == earlier.push(account));
                    assert(earlier.push(account).drop_last() == earlier);
                }
                let after: HotAccountMeta = heating.heat_up(before, generation);
                self.hotspot_accounts.insert(account, after);
            }
        }
    }

    /// Normalizes every tracked hotspot account to the current generation:
    /// decays heat according to how many generations have passed since it was
    /// last normalized, and drops accounts that are either fully cold or have
    /// not been touched for more than `max_generation_age` generations.
    pub fn cleanup_hotspots(&mut self)
        ensures
            final(self)@ == (SchedulerModel {
                hotspots: old(self)@.config.cooling().cool(
                    old(self)@.hotspots,
                    old(self)@.generation,
                ),
                ..old(self)@
            }),
    {
        let generation: u32 = self.current_generation;
        let cooling = Cooling {
            max_age: self.config.max_generation_age,
            shift: self.config.hotspot_decay_shift,
        };
        let ghost before = self.hotspot_accounts@;
        let mut accounts: Vec<u64> = Vec::new();
        for account in it: self.hotspot_accounts.keys()
            invariant
                accounts@ == it.seq().unref().take(it.index()),
        {
            accounts.push(*account);
        }
        proof {
            assert(accounts@ == IteratorSpec::remaining(
                &spec_keys_iter(&self.hotspot_accounts),
            ).unref());
        }
        for index in 0..accounts.len()
            invariant
                generation == old(self).current_generation,
                cooling == old(self).config.cooling(),
                before == old(self).hotspot_accounts@,
                self.current_generation == old(self).current_generation,
                self.deferred == old(self).deferred,
                self.metrics == old(self).metrics,
                self.config == old(self).config,
                accounts@.no_duplicates(),
                accounts@.to_set() == before.dom(),
                forall|k: u64| #[trigger]
                    self.hotspot_accounts@.contains_key(k) ==> before.contains_key(k),
                forall|i: int|
                    0 <= i < index ==> {
                        let k = #[trigger] accounts@[i];
                        let after = cooling.cooled(before[k], generation);
                        &&& self.hotspot_accounts@.contains_key(k) == (after is Some)
                        &&& after is Some ==> self.hotspot_accounts@[k] == after->0
                    },
                forall|i: int|
                    index <= i < accounts@.len() ==> {
                        let k = #[trigger] accounts@[i];
                        &&& self.hotspot_accounts@.contains_key(k)
                        &&& self.hotspot_accounts@[k] == before[k]
                    },
        {
            let account: u64 = accounts[index];
            let record: Option<HotAccountMeta> = match self.hotspot_accounts.get(&account) {
                Some(meta) => cooling.cool_down(*meta, generation),
                None => None,
            };
            match record {
                Some(meta) => {
                    self.hotspot_accounts.insert(account, meta);
                },
                None => {
                    self.hotspot_accounts.remove(&account);
                },
            }
        }
        proof {
            assert forall|k: u64|
                before.contains_key(k) implies exists|i: int|
                0 <= i < accounts@.len() && accounts@[i] == k by {
                assert(accounts@.to_set().contains(k));
            }
            assert(self.hotspot_accounts@ == cooling.cool(before, generation));
        }
    }

    /// Attempts to schedule a single transaction (whether freshly-arrived or a
    /// retried deferred one). On conflict or budget exhaustion, either
    /// re-defers it with generation-based backoff, or drops it once it has
    /// exceeded `max_retry_count` retries: this is what prevents deferred
    /// transactions from being retried forever.
    pub fn try_schedule_or_defer(
        &mut self,
        tx: Transaction,
        retry_count: u8,
        remaining_budget: &mut u64,
        scheduled: &mut usize,
        deferred_count: &mut usize,
        dropped_count: &mut usize,
    )
        requires
            ({
                let job = Job { tx: tx@, retry_count };
                let config = old(self)@.config;
                &&& config.contended(old(self)@.hotspots, tx@)
                    ==> old(self)@.metrics.lock_conflicts < u64::MAX
                &&& match config.verdict(old(self)@.hotspots, *old(remaining_budget), job) {
                    Verdict::Schedule => {
                        &&& *old(scheduled) < usize::MAX
                        &&& old(self)@.metrics.scheduled_txs < u64::MAX
                    },
                    Verdict::Defer(_) => *old(deferred_count) < usize::MAX,
                    Verdict::Drop => *old(dropped_count) < usize::MAX,
                }
            }),
        ensures
            ({
                let before = PassState::start(old(self)@.hotspots, *old(remaining_budget));
                let after = before.attempt(
                    old(self)@.config,
                    old(self)@.generation,
                    Job { tx: tx@, retry_count },
                );
                &&& final(self)@ == (SchedulerModel {
                    hotspots: after.hotspots,
                    deferred: old(self)@.deferred + after.postponed,
                    metrics: SchedulerMetrics {
                        lock_conflicts: (old(self)@.metrics.lock_conflicts + after.conflicts) as u64,
                        scheduled_txs: (old(self)@.metrics.scheduled_txs
                            + after.admitted.len()) as u64,
                        ..old(self)@.metrics
                    },
                    ..old(self)@
                })
                &&& *final(remaining_budget) == after.budget
                &&& *final(scheduled) == *old(scheduled) + after.admitted.len()
                &&& *final(deferred_count) == *old(deferred_count) + after.postponed.len()
                &&& *final(dropped_count) == *old(dropped_count) + after.discarded.len()
            }),
    {
        let score: u32 = self.tx_conflict_score(&tx);
        let is_conflicted: bool = score >= self.config.conflict_threshold;

        if is_conflicted {
            self.metrics.lock_conflicts = self.metrics.lock_conflicts + 1;

            if retry_count >= self.config.max_retry_count {
                *dropped_count = *dropped_count + 1;
                return;
            }
            let delay: u32 = backoff_generations(retry_count);
            self.put_off(tx, retry_count, delay);
            *deferred_count = *deferred_count + 1;
            return;
        }
        if tx.cost > *remaining_budget {
            if retry_count >= self.config.max_retry_count {
                *dropped_count = *dropped_count + 1;
                return;
            }
            self.put_off(tx, retry_count, 1);
            *deferred_count = *deferred_count + 1;
            return;
        }
        self.mark_hot_accounts(&tx);
        *remaining_budget = *remaining_budget - tx.cost;
        *scheduled = *scheduled + 1;
        self.metrics.scheduled_txs = self.metrics.scheduled_txs + 1;
    }

    /// Appends `tx` to the retry queue, to be tried again after `delay`
    /// generations.
    fn put_off(&mut self, tx: Transaction, retry_count: u8, delay: u32)
        requires
            retry_count < u8::MAX,
        ensures
            final(self)@ == (SchedulerModel {
                deferred: old(self)@.deferred.push(
                    DeferredView {
                        tx: tx@,
                        retry_count: (retry_count + 1) as u8,
                        ready_generation: generation_after(old(self)@.generation, delay),
                    },
                ),
                ..old(self)@
            }),
    {
        let ready_generation: u32 = self.current_generation.wrapping_add(delay);
        self.deferred.push(DeferredTx { tx, retry_count: retry_count + 1, ready_generation });
        assert(final(self)@.deferred == old(self)@.deferred.push(self.deferred@.last()@));
    }

    /// Splits a queue into the transactions that are ready in `generation` and
    /// those that go on waiting. Both keep their order.
    fn split_ready(queue: Vec<DeferredTx>, generation: u32) -> (parts: (
        Vec<DeferredTx>,
        Vec<DeferredTx>,
    ))
        ensures
            queue_view(parts.0@) == ready_in(queue_view(queue@), generation),
            queue_view(parts.1@) == waiting_in(queue_view(queue@), generation),
    {
        let ghost all = queue_view(queue@);
        let mut ready: Vec<DeferredTx> = Vec::new();
        let mut waiting: Vec<DeferredTx> = Vec::new();
        proof {
            reveal(Seq::filter);
            assert(all.take(0) == Seq::<DeferredView>::empty());
        }
        for entry in it: queue
            invariant
                all == queue_view(it.seq()),
                queue_view(ready@) == ready_in(all.take(it.index()), generation),
                queue_view(waiting@) == waiting_in(all.take(it.index()), generation),
        {
            proof {
                reveal(Seq::filter);
                assert(all.take(it.index() + 1).drop_last() == all.take(it.index()));
                assert(all.take(it.index() + 1).last() == entry@);
            }
            let ghost ready_before = ready@;
            let ghost waiting_before = waiting@;
            if entry.ready_generation <= generation {
                ready.push(entry);
                assert(queue_view(ready@) == queue_view(ready_before).push(entry@));
            } else {
                waiting.push(entry);
                assert(queue_view(waiting@) == queue_view(waiting_before).push(entry@));
            }
        }
        assert(all.take(all.len() as int) == all);
        (ready, waiting)
    }

    /// Makes one scheduling pass: retries the deferred transactions whose
    /// backoff has elapsed, then considers `transactions`, and spends at most
    /// `budget` on what it schedules.
    pub fn schedule(&mut self, transactions: &[Transaction], budget: u64) -> (summary:
        SchedulingSummary)
        requires
            old(self)@.counters_fit(batch_view(transactions@), budget),
        ensures
            final(self)@ == old(self)@.after_pass(batch_view(transactions@), budget),
            summary == old(self)@.summary(batch_view(transactions@), budget),
    {
        let ghost model = self@;
        let ghost txs = batch_view(transactions@);
        let ghost jobs = model.jobs(txs);
        let ghost start = PassState::start(model.cooled_hotspots(), budget);
        let ghost config = model.config;
        let ghost generation = model.next_generation();

        self.metrics.scheduler_passes = self.metrics.scheduler_passes + 1;
        self.current_generation = self.current_generation.wrapping_add(1);
        self.cleanup_hotspots();

        let mut remaining_budget: u64 = budget;
        let mut scheduled: usize = 0;
        let mut deferred_count: usize = 0;
        let mut dropped_count: usize = 0;
        let mut scanned: usize = 0;

        let mut queue: Vec<DeferredTx> = Vec::new();
        std::mem::swap(&mut queue, &mut self.deferred);
        let (ready, waiting) = Self::split_ready(queue, self.current_generation);
        self.deferred = waiting;

        let ghost retried = retries(model.ready());
        proof {
            assert(jobs.take(0) == Seq::<Job>::empty());
            lemma_attempt_all_counts(start, config, generation, jobs);
        }
        for deferred_tx in it: ready
            invariant
                retried == retries(queue_view(it.seq())),
                jobs == retried + first_attempts(txs),
                self.at(model, start.attempt_all(config, generation, jobs.take(it.index()))),
                config == model.config,
                generation == model.next_generation(),
                start == PassState::start(model.cooled_hotspots(), budget),
                jobs == model.jobs(txs),
                model.counters_fit(txs, budget),
                ({
                    let now = start.attempt_all(config, generation, jobs.take(it.index()));
                    &&& remaining_budget == now.budget
                    &&& scheduled == now.admitted.len()
                    &&& deferred_count == now.postponed.len()
                    &&& dropped_count == now.discarded.len()
                    &&& scanned == it.index()
                }),
        {
            let ghost n = it.index();
            proof {
                assert(jobs[n] == (Job { tx: deferred_tx.tx@, retry_count: deferred_tx.retry_count }));
                Self::lemma_next_job(model, txs, budget, n);
            }
            scanned = scanned + 1;
            self.try_schedule_or_defer(
                deferred_tx.tx,
                deferred_tx.retry_count,
                &mut remaining_budget,
                &mut scheduled,
                &mut deferred_count,
                &mut dropped_count,
            );
            proof {
                let next = start.attempt_all(config, generation, jobs.take(n + 1));
                assert(self@.deferred == model.waiting() + next.postponed);
            }
        }

        for index in 0..transactions.len()
            invariant
                txs == batch_view(transactions@),
                jobs == retried + first_attempts(txs),
                self.at(model, start.attempt_all(config, generation, jobs.take(retried.len() + index))),
                config == model.config,
                generation == model.next_generation(),
                start == PassState::start(model.cooled_hotspots(), budget),
                jobs == model.jobs(txs),
                model.counters_fit(txs, budget),
                ({
                    let now = start.attempt_all(config, generation, jobs.take(retried.len() + index));
                    &&& remaining_budget == now.budget
                    &&& scheduled == now.admitted.len()
                    &&& deferred_count == now.postponed.len()
                    &&& dropped_count == now.discarded.len()
                    &&& scanned == retried.len() + index
                }),
        {
            let ghost n = retried.len() + index;
            proof {
                assert(jobs[n] == (Job { tx: transactions@[index as int]@, retry_count: 0 }));
                Self::lemma_next_job(model, txs, budget, n);
            }
            scanned = scanned + 1;
            self.try_schedule_or_defer(
                transactions[index].clone(),
                0,
                &mut remaining_budget,
                &mut scheduled,
                &mut deferred_count,
                &mut dropped_count,
            );
            proof {
                let next = start.attempt_all(config, generation, jobs.take(n + 1));
                assert(self@.deferred == model.waiting() + next.postponed);
            }
        }
        proof {
            assert(jobs.take(retried.len() + transactions.len()) == jobs);
        }

        self.metrics.deferred_txs = self.deferred.len() as u64;
        self.metrics.dropped_txs = self.metrics.dropped_txs + dropped_count as u64;
        self.metrics.hot_accounts = self.hotspot_accounts.len() as u64;

        SchedulingSummary {
            scheduled,
            deferred: deferred_count,
            dropped: dropped_count,
            scanned,
            generation: self.current_generation,
        }
    }

    /// The scheduler is in the middle of the pass that began in `model`, and
    /// has come as far as `now`.
    spec fn at(&self, model: SchedulerModel, now: PassState) -> bool {
        self@ == (SchedulerModel {
            generation: model.next_generation(),
            hotspots: now.hotspots,
            deferred: model.waiting() + now.postponed,
            metrics: SchedulerMetrics {
                scheduler_passes: (model.metrics.scheduler_passes + 1) as u64,
                scheduled_txs: (model.metrics.scheduled_txs + now.admitted.len()) as u64,
                lock_conflicts: (model.metrics.lock_conflicts + now.conflicts) as u64,
                ..model.metrics
            },
            config: model.config,
        })
    }

    /// One more job of a pass whose counters fit in the end: trying it from
    /// the state reached is the same as trying it on its own, and no counter
    /// overflows.
    proof fn lemma_next_job(
        model: SchedulerModel,
        txs: Seq<TransactionView>,
        budget: u64,
        n: int,
    )
        requires
            model.counters_fit(txs, budget),
            0 <= n < model.jobs(txs).len(),
        ensures
            ({
                let config = model.config;
                let generation = model.next_generation();
                let jobs = model.jobs(txs);
                let start = PassState::start(model.cooled_hotspots(), budget);
                let now = start.attempt_all(config, generation, jobs.take(n));
                let next = start.attempt_all(config, generation, jobs.take(n + 1));
                &&& next == now.attempt(config, generation, jobs[n])
                &&& now.admitted.len() + now.postponed.len() + now.discarded.len() == n
                &&& model.metrics.scheduled_txs + next.admitted.len() <= u64::MAX
                &&& model.metrics.lock_conflicts + next.conflicts <= u64::MAX
            }),
    {
        let config = model.config;
        let generation = model.next_generation();
        let jobs = model.jobs(txs);
        let start = PassState::start(model.cooled_hotspots(), budget);
        assert(jobs.take(n + 1).drop_last() == jobs.take(n));
        lemma_attempt_all_counts(start, config, generation, jobs.take(n));
        lemma_attempt_all_grows(start, config, generation, jobs, n + 1);
    }
}

} // verus!

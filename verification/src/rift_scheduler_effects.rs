//! What the operations of the scheduler of [`crate::rift_scheduler`] do, told of
//! their inputs and results.
use vstd::prelude::*;

use crate::heat::{decayed, HotAccountMeta, Upkeep};
use crate::heat_laws::{
    law_generations_wrap, law_no_age_no_decay, law_one_more_key_is_a_write_if_flagged,
    law_shift_of_one_halves, law_upkeep_is_by_record, law_what_fading_leaves,
};
use crate::laws::law_backoff_doubles;
use crate::model::backoff;
use crate::outside::{records, threads_in, AccountKey};
use crate::rift::{heating, FootprintView, RiftSchedulerConfig, TransactionPriorityId};
use crate::rift_effects::{law_marking_heats_written_accounts, law_marking_leaves_other_accounts};
use crate::rift_scheduler::{
    carries_on, fading, open_threads, reading, share, total, Attempt, DeferredTx, Origin,
    PassModel, Request, RiftModel, RiftScheduler, SchedulerMetrics, SchedulingSummary,
};
use crate::rift_scheduler_laws::law_what_is_passed_over;

verus! {

/// The model of a scheduler is made of its fields.
pub proof fn law_models_show_every_field(scheduler: RiftScheduler)
    ensures
        scheduler@.deferred == scheduler.deferred@,
        scheduler@.next_deferred == scheduler.next_deferred@,
        scheduler@.hotspots == records(scheduler.hotspot_accounts),
        scheduler@.generation == scheduler.current_generation,
        scheduler@.metrics == scheduler.metrics,
        scheduler@.config == scheduler.config,
{
}

/// A new scheduler has made no pass, knows no hot account, and has nothing in
/// its queue.
pub proof fn law_new_scheduler_is_empty(config: RiftSchedulerConfig)
    ensures
        ({
            let new = RiftModel::initial(config);
            &&& new.deferred.len() == 0
            &&& new.next_deferred.len() == 0
            &&& forall|k: AccountKey| !#[trigger] new.hotspots.contains_key(k)
            &&& new.generation == 0
            &&& new.config == config
            &&& new.metrics == (SchedulerMetrics {
                scheduled_txs: 0,
                lock_conflicts: 0,
                unschedulable_threads: 0,
                deferred_retries: 0,
                scheduler_passes: 0,
                total_schedule_time_ns: 0,
                total_scanned: 0,
                total_batches_sent: 0,
                total_batch_fill_ratio_ppm: 0,
            })
        }),
{
}

// Shares of the threads

/// The share of a thread is the largest whole number that all threads can have
/// at once: so many times the share never exceeds the target, and so many times
/// one more does.
pub proof fn law_shares_add_up_to_the_target(config: RiftSchedulerConfig, num_threads: nat)
    requires
        num_threads > 0,
    ensures
        num_threads * share(config, num_threads) <= config.target_scheduled_cus,
        config.target_scheduled_cus < num_threads * (share(config, num_threads) + 1),
        share(config, num_threads) >= 0,
{
    let target = config.target_scheduled_cus as int;
    let n = num_threads as int;
    vstd::arithmetic::div_mod::lemma_fundamental_div_mod(target, n);
    vstd::arithmetic::div_mod::lemma_mod_bound(target, n);
    vstd::arithmetic::div_mod::lemma_div_pos_is_pos(target, n);
    let part = target / n;
    assert(n * (part + 1) == n * part + n) by (nonlinear_arith);
}

/// A load is below the share of a thread exactly if all threads could have one
/// more than it at once.
proof fn lemma_below_the_share(config: RiftSchedulerConfig, num_threads: nat, load: int)
    requires
        num_threads > 0,
    ensures
        load < share(config, num_threads) <==> num_threads * (load + 1)
            <= config.target_scheduled_cus,
{
    law_shares_add_up_to_the_target(config, num_threads);
    let n = num_threads as int;
    let part = share(config, num_threads);
    if load < part {
        assert(n * (load + 1) <= n * part) by (nonlinear_arith)
            requires
                load + 1 <= part,
                n > 0,
        ;
    } else {
        assert(n * (part + 1) <= n * (load + 1)) by (nonlinear_arith)
            requires
                part <= load,
                n > 0,
        ;
    }
}

/// A pass starts on exactly the threads whose load is below their share: those
/// for which all threads could have one more than it at once.
pub proof fn law_which_threads_are_open(
    config: RiftSchedulerConfig,
    cus_in_flight: Seq<u64>,
    t: usize,
)
    requires
        cus_in_flight.len() > 0,
    ensures
        open_threads(config, cus_in_flight).contains(t) <==> {
            &&& t < cus_in_flight.len()
            &&& cus_in_flight.len() * (cus_in_flight[t as int] + 1) <= config.target_scheduled_cus
        },
{
    lemma_below_the_share(config, cus_in_flight.len(), cus_in_flight[t as int] as int);
}

/// A thread is closed exactly if its load has reached its share: if not all
/// threads could have one more than it at once. The other threads, and the rest
/// of the pass, are not affected.
pub proof fn law_when_a_thread_is_closed(
    pass: PassModel,
    config: RiftSchedulerConfig,
    thread_id: usize,
    load: int,
)
    requires
        pass.num_threads > 0,
    ensures
        ({
            let after = pass.weighed(config, thread_id, load);
            let room = pass.num_threads * (load + 1) <= config.target_scheduled_cus;
            &&& after == (PassModel { threads: after.threads, ..pass })
            &&& after.threads.contains(thread_id) <==> pass.threads.contains(thread_id) && room
            &&& forall|t: usize|
                t != thread_id ==> #[trigger] after.threads.contains(t) == pass.threads.contains(t)
        }),
{
    lemma_below_the_share(config, pass.num_threads as nat, load);
}

/// The compute units on their way are those of all threads together.
pub proof fn law_one_more_thread_adds_its_load(loads: Seq<u64>, load: u64)
    ensures
        total(Seq::<u64>::empty()) == 0,
        total(loads.push(load)) == total(loads) + load,
{
    assert(loads.push(load).drop_last() == loads);
}

/// If every open thread stays below its share, and no thread was above it at the
/// start, then all together stay within the target.
pub proof fn law_loads_within_shares_stay_within_the_target(
    config: RiftSchedulerConfig,
    loads: Seq<u64>,
)
    requires
        loads.len() > 0,
        forall|t: int|
            0 <= t < loads.len() ==> #[trigger] loads[t] <= share(config, loads.len()),
    ensures
        total(loads) <= config.target_scheduled_cus,
{
    law_shares_add_up_to_the_target(config, loads.len());
    lemma_total_is_bounded(loads, share(config, loads.len()));
    assert(loads.len() * share(config, loads.len()) == share(config, loads.len()) * loads.len())
        by (nonlinear_arith);
}

proof fn lemma_total_is_bounded(loads: Seq<u64>, bound: int)
    requires
        forall|t: int| 0 <= t < loads.len() ==> #[trigger] loads[t] <= bound,
    ensures
        total(loads) <= bound * loads.len(),
    decreases loads.len(),
{
    if loads.len() > 0 {
        let shorter = loads.drop_last();
        assert forall|t: int| 0 <= t < shorter.len() implies #[trigger] shorter[t] <= bound by {
            assert(shorter[t] == loads[t]);
        }
        lemma_total_is_bounded(shorter, bound);
        assert(loads[loads.len() - 1] <= bound);
        assert(bound * shorter.len() + bound == bound * loads.len()) by (nonlinear_arith)
            requires
                shorter.len() + 1 == loads.len(),
        ;
    }
}

// Conflict score

/// One more account raises the score if the transaction writes it and it is
/// hot: by its heat if it was written in this generation, by half of it if it
/// was written in one of the last 16, and not at all otherwise. A transaction
/// without accounts has no score.
pub proof fn law_one_more_account_adds_its_heat(
    model: RiftModel,
    tx: FootprintView,
    account: AccountKey,
    serialized_size: u64,
)
    ensures
        ({
            let longer = FootprintView {
                account_keys: tx.account_keys.push(account),
                writable: tx.writable,
                serialized_size,
            };
            let at = tx.account_keys.len() as int;
            let meta = model.hotspots[account];
            let age = (model.generation - meta.touched) % 0x1_0000_0000;
            let counts = at < tx.writable.len() && tx.writable[at] && model.hotspots.contains_key(
                account,
            );
            let more = if !counts || age > 16 {
                0
            } else if age == 0 {
                meta.heat as int
            } else {
                meta.heat as int / 2
            };
            &&& model.conflict_score(longer) == model.conflict_score(tx) + more
            &&& tx.account_keys.len() == 0 ==> model.conflict_score(tx) == 0
        }),
{
    law_one_more_key_is_a_write_if_flagged(tx.account_keys, tx.writable, account);
    assert(tx.writes().push(account).drop_last() == tx.writes());
    let meta = model.hotspots[account];
    law_what_fading_leaves(reading(), meta, model.generation);
    law_no_age_no_decay(meta.heat, 1);
    law_shift_of_one_halves(meta.heat);
    if tx.account_keys.len() == 0 {
        assert(tx.account_keys == Seq::<AccountKey>::empty());
    }
}

/// The score of a transaction is at least half of the heat of every account that
/// it writes and that was written within 16 generations, at whichever position.
pub proof fn law_score_covers_every_written_account(model: RiftModel, tx: FootprintView, i: int)
    requires
        0 <= i < tx.account_keys.len(),
        i < tx.writable.len(),
        tx.writable[i],
        model.hotspots.contains_key(tx.account_keys[i]),
        (model.generation - model.hotspots[tx.account_keys[i]].touched) % 0x1_0000_0000 <= 16,
    ensures
        model.conflict_score(tx) >= model.hotspots[tx.account_keys[i]].heat as int / 2,
    decreases tx.account_keys.len(),
{
    let shorter = FootprintView { account_keys: tx.account_keys.drop_last(), ..tx };
    let last = tx.account_keys.last();
    assert(tx.account_keys == shorter.account_keys.push(last));
    law_one_more_account_adds_its_heat(model, shorter, last, tx.serialized_size);
    if i < shorter.account_keys.len() {
        assert(shorter.account_keys[i] == tx.account_keys[i]);
        law_score_covers_every_written_account(model, shorter, i);
    }
}

// Screening

/// A transaction, whether deferred or fresh, is put off before its accounts are
/// locked exactly if their heat is eight or more together and it has been
/// retried fewer than `max_retry_count` times. Then it is due after its backoff,
/// with one more retry, and is counted; nothing else changes.
pub proof fn law_what_is_put_off_before_locking(
    model: RiftModel,
    job: DeferredTx,
    tx: FootprintView,
)
    ensures
        model.screens_out(job, tx) <==> {
            &&& model.conflict_score(tx) >= 8
            &&& job.retry_count < model.config.max_retry_count
        },
        job.retry_count < 255 ==> model.screened_out(job) == (RiftModel {
            next_deferred: model.next_deferred.push(
                DeferredTx {
                    id: job.id,
                    retry_count: (job.retry_count + 1) as u8,
                    ready_generation: ((model.generation + backoff(job.retry_count))
                        % 0x1_0000_0000) as u32,
                },
            ),
            metrics: SchedulerMetrics {
                deferred_retries: ((model.metrics.deferred_retries + 1)
                    % 0x1_0000_0000_0000_0000) as u64,
                ..model.metrics
            },
            ..model
        }),
{
    law_generations_wrap(0, model.generation, backoff(job.retry_count));
    law_backoff_doubles(job.retry_count);
}

/// A fresh transaction has not been retried, so it is put off as soon as it
/// writes one account whose heat is sixteen or more and that was written within
/// 16 generations, if there are retries at all.
pub proof fn law_fresh_transactions_on_a_hot_account_are_put_off(
    model: RiftModel,
    id: TransactionPriorityId,
    tx: FootprintView,
    i: int,
)
    requires
        0 <= i < tx.account_keys.len(),
        i < tx.writable.len(),
        tx.writable[i],
        model.hotspots.contains_key(tx.account_keys[i]),
        model.hotspots[tx.account_keys[i]].heat >= 16,
        (model.generation - model.hotspots[tx.account_keys[i]].touched) % 0x1_0000_0000 <= 16,
        model.config.max_retry_count > 0,
    ensures
        DeferredTx::fresh(id, model.generation).id == id,
        DeferredTx::fresh(id, model.generation).retry_count == 0,
        DeferredTx::fresh(id, model.generation).ready_generation == model.generation,
        model.screens_out(DeferredTx::fresh(id, model.generation), tx),
{
    law_score_covers_every_written_account(model, tx, i);
}

// After a trial

/// Locks in conflict are counted and heat the accounts, a lack of threads is
/// counted. Either way the transaction is put off, with one more retry: until
/// its backoff has elapsed, or until the next generation. Nothing else changes.
pub proof fn law_what_becomes_of_failed_trials(
    model: RiftModel,
    job: DeferredTx,
    tx: FootprintView,
)
    ensures
        ({
            let entry = DeferredTx {
                id: job.id,
                retry_count: (if job.retry_count < 255 {
                    job.retry_count + 1
                } else {
                    255
                }) as u8,
                ready_generation: 0,
            };
            let ready = (model.generation + backoff(job.retry_count)) % 0x1_0000_0000;
            let next = (model.generation + 1) % 0x1_0000_0000;
            &&& model.conflicted(job, tx) == (RiftModel {
                hotspots: model.marking(tx).hotspots,
                next_deferred: model.next_deferred.push(
                    DeferredTx { ready_generation: ready as u32, ..entry },
                ),
                metrics: SchedulerMetrics {
                    lock_conflicts: ((model.metrics.lock_conflicts + 1)
                        % 0x1_0000_0000_0000_0000) as u64,
                    ..model.metrics
                },
                ..model
            })
            &&& model.without_thread(job) == (RiftModel {
                next_deferred: model.next_deferred.push(
                    DeferredTx { ready_generation: next as u32, ..entry },
                ),
                metrics: SchedulerMetrics {
                    unschedulable_threads: ((model.metrics.unschedulable_threads + 1)
                        % 0x1_0000_0000_0000_0000) as u64,
                    ..model.metrics
                },
                ..model
            })
        }),
{
    law_generations_wrap(0, model.generation, backoff(job.retry_count));
    law_generations_wrap(0, model.generation, 1);
    law_backoff_doubles(job.retry_count);
}

/// Marking a transaction heats the accounts that it writes, and changes nothing
/// else.
pub proof fn law_what_marking_does(model: RiftModel, tx: FootprintView)
    ensures
        model.marking(tx) == (RiftModel {
            hotspots: heating().mark(model.hotspots, tx.writes(), model.generation),
            ..model
        }),
{
}

/// Locks in conflict raise the heat of an account that the transaction writes at
/// position `i`, and at no other, by one, up to 255.
pub proof fn law_conflicts_heat_written_accounts(
    model: RiftModel,
    job: DeferredTx,
    tx: FootprintView,
    i: int,
)
    requires
        0 <= i < tx.account_keys.len(),
        i < tx.writable.len(),
        tx.writable[i],
        forall|j: int|
            0 <= j < tx.account_keys.len() && j != i && j < tx.writable.len() && tx.writable[j]
                ==> #[trigger] tx.account_keys[j] != tx.account_keys[i],
    ensures
        ({
            let after = model.conflicted(job, tx).hotspots;
            let k = tx.account_keys[i];
            let heat = if model.hotspots.contains_key(k) {
                model.hotspots[k].heat as int
            } else {
                0
            };
            &&& after.contains_key(k)
            &&& after[k].generation == model.generation
            &&& after[k].touched == model.generation
            &&& heat < 255 ==> after[k].heat == heat + 1
            &&& heat >= 255 ==> after[k].heat == 255
            &&& model.marking(tx) == (RiftModel { hotspots: after, ..model })
        }),
{
    law_marking_heats_written_accounts(model.hotspots, model.generation, tx, i);
}

/// Locks in conflict leave the accounts alone that the transaction does not
/// write. Nothing else than locks in conflict heats accounts.
pub proof fn law_conflicts_leave_other_accounts(
    model: RiftModel,
    job: DeferredTx,
    tx: FootprintView,
    batch_len: usize,
    other: AccountKey,
)
    requires
        forall|j: int|
            0 <= j < tx.account_keys.len() && j < tx.writable.len() && tx.writable[j]
                ==> #[trigger] tx.account_keys[j] != other,
    ensures
        ({
            let after = model.conflicted(job, tx).hotspots;
            &&& after.contains_key(other) == model.hotspots.contains_key(other)
            &&& model.hotspots.contains_key(other) ==> after[other] == model.hotspots[other]
            &&& model.screened_out(job).hotspots == model.hotspots
            &&& model.without_thread(job).hotspots == model.hotspots
            &&& model.added(batch_len).hotspots == model.hotspots
        }),
{
    law_marking_leaves_other_accounts(model.hotspots, model.generation, tx, other);
}

/// A transaction that is added to its batch adds to the fill ratio how many
/// millionths of its target the batch has, rounded down. Nothing else changes.
pub proof fn law_what_adding_a_transaction_counts(model: RiftModel, batch_len: usize, parts: u64)
    requires
        parts * model.config.target_transactions_per_batch <= batch_len * 1_000_000,
        batch_len * 1_000_000 < (parts + 1) * model.config.target_transactions_per_batch,
    ensures
        model.added(batch_len) == (RiftModel {
            metrics: SchedulerMetrics {
                total_batch_fill_ratio_ppm: ((model.metrics.total_batch_fill_ratio_ppm + parts)
                    % 0x1_0000_0000_0000_0000) as u64,
                ..model.metrics
            },
            ..model
        }),
{
    let target = model.config.target_transactions_per_batch as int;
    let all = batch_len * 1_000_000;
    assert(target > 0) by (nonlinear_arith)
        requires
            parts * target <= all,
            all < (parts + 1) * target,
            parts >= 0,
    ;
    assert((parts + 1) * target == parts * target + target) by (nonlinear_arith);
    vstd::arithmetic::div_mod::lemma_fundamental_div_mod_converse(
        all,
        target,
        parts as int,
        all - parts * target,
    );
}

// The beginning and the end of a pass

/// A pass begins in the next generation, counts itself and cleans up. Its other
/// parts are what they were.
pub proof fn law_what_beginning_a_pass_does(model: RiftModel)
    ensures
        ({
            let begun = model.begun();
            let next = ((model.generation + 1) % 0x1_0000_0000) as u32;
            &&& begun.generation == next
            &&& begun.deferred == model.deferred
            &&& begun.next_deferred == model.next_deferred
            &&& begun.config == model.config
            &&& begun.hotspots == (RiftModel { generation: next, ..model }).cleaned().hotspots
            &&& begun.metrics == (SchedulerMetrics {
                scheduler_passes: ((model.metrics.scheduler_passes + 1)
                    % 0x1_0000_0000_0000_0000) as u64,
                ..model.metrics
            })
        }),
{
    law_generations_wrap(0, model.generation, 1);
}

/// A cleanup takes place exactly if there are at least twice as many hot accounts
/// as room was made for. Then it takes one bit of heat off an account for every
/// generation since the last write, but no more than four, and keeps the
/// account exactly if heat is left and not more than 16 generations have
/// passed. Nothing else changes.
pub proof fn law_what_a_cleanup_does(model: RiftModel, k: AccountKey)
    ensures
        ({
            let cleaned = model.cleaned();
            let meta = model.hotspots[k];
            let age = (model.generation - meta.touched) % 0x1_0000_0000;
            let bits = if age <= 4 {
                age
            } else {
                4
            };
            let left = decayed(meta.heat, bits as u32, 1);
            let takes_place = model.hotspots.len() >= 2 * model.config.hotspot_capacity;
            &&& cleaned == (RiftModel { hotspots: cleaned.hotspots, ..model })
            &&& !takes_place ==> cleaned.hotspots == model.hotspots
            &&& takes_place ==> (cleaned.hotspots.contains_key(k) <==> {
                &&& model.hotspots.contains_key(k)
                &&& age <= 16
                &&& left > 0
            })
            &&& takes_place && cleaned.hotspots.contains_key(k) ==> cleaned.hotspots[k] == (
            HotAccountMeta { generation: meta.generation, touched: meta.touched, heat: left })
        }),
{
    law_upkeep_is_by_record(Upkeep::Fade(fading()), model.hotspots, model.generation, k);
    law_what_fading_leaves(fading(), model.hotspots[k], model.generation);
}

/// Between two rounds, what was put off becomes the queue.
pub proof fn law_what_ending_a_round_does(model: RiftModel)
    ensures
        model.swapped() == (RiftModel {
            deferred: model.next_deferred,
            next_deferred: model.deferred,
            ..model
        }),
{
}

/// A pass that ends empties the queue, and counts the batches that it has sent,
/// what it has looked at and scheduled, and how long it took. Nothing else
/// changes.
pub proof fn law_what_finishing_a_pass_does(model: RiftModel, pass: PassModel, elapsed_ns: u64)
    ensures
        model.finished(pass, elapsed_ns) == (RiftModel {
            deferred: Seq::empty(),
            metrics: SchedulerMetrics {
                total_batches_sent: ((model.metrics.total_batches_sent + pass.num_sent)
                    % 0x1_0000_0000_0000_0000) as u64,
                total_scanned: ((model.metrics.total_scanned + pass.scanned)
                    % 0x1_0000_0000_0000_0000) as u64,
                scheduled_txs: ((model.metrics.scheduled_txs + pass.num_scheduled)
                    % 0x1_0000_0000_0000_0000) as u64,
                total_schedule_time_ns: ((model.metrics.total_schedule_time_ns + elapsed_ns)
                    % 0x1_0000_0000_0000_0000) as u64,
                ..model.metrics
            },
            ..model
        }),
{
}

/// A pass that does nothing reports nothing but the sizes that it has found.
pub proof fn law_what_an_idle_pass_reports(queue_size: usize, buffer_size: usize)
    ensures
        ({
            let summary = SchedulingSummary::idle(queue_size, buffer_size);
            &&& summary.starting_queue_size == queue_size
            &&& summary.starting_buffer_size == buffer_size
            &&& summary.num_scheduled == 0
            &&& summary.num_unschedulable_conflicts == 0
            &&& summary.num_unschedulable_threads == 0
        }),
{
}

// A pass

/// A pass starts on the threads and with the budget that it was given, and with
/// nothing done.
pub proof fn law_what_a_pass_starts_with(
    threads: Set<usize>,
    num_threads: usize,
    budget: u64,
    queue_size: usize,
    buffer_size: usize,
)
    ensures
        PassModel::start(threads, num_threads, budget, queue_size, buffer_size) == (PassModel {
            todo: Seq::empty(),
            threads,
            num_threads,
            remaining_budget: budget,
            num_scheduled: 0,
            num_sent: 0,
            num_unschedulable_threads: 0,
            scanned: 0,
            starting_queue_size: queue_size,
            starting_buffer_size: buffer_size,
        }),
{
}

/// A pass counts the transactions that it takes from the queue and schedules,
/// the batches that it sends and the lacks of threads, spends what a transaction
/// costs, and changes nothing else.
pub proof fn law_what_a_pass_counts(pass: PassModel, batches: usize, cost: u64)
    requires
        pass.num_sent + batches <= usize::MAX,
        pass.num_unschedulable_threads < usize::MAX,
        pass.scanned < usize::MAX,
    ensures
        pass.scanning() == (PassModel { scanned: (pass.scanned + 1) as usize, ..pass }),
        pass.sent(batches) == (PassModel { num_sent: (pass.num_sent + batches) as usize, ..pass }),
        pass.without_thread() == (PassModel {
            num_unschedulable_threads: (pass.num_unschedulable_threads + 1) as usize,
            ..pass
        }),
        pass.added(cost) == (PassModel {
            num_scheduled: (if pass.num_scheduled < usize::MAX {
                pass.num_scheduled + 1
            } else {
                usize::MAX as int
            }) as usize,
            remaining_budget: (if cost <= pass.remaining_budget {
                pass.remaining_budget - cost
            } else {
                0
            }) as u64,
            ..pass
        }),
{
}

/// A pass takes a fresh transaction exactly if it may look at another one, the
/// queue is not empty and a thread is open.
pub proof fn law_when_a_fresh_transaction_is_taken(
    pass: PassModel,
    scheduler: RiftModel,
    queue_is_empty: bool,
)
    ensures
        pass.takes_fresh(scheduler, queue_is_empty) <==> {
            &&& pass.scanned < scheduler.config.max_scanned_transactions_per_scheduling_pass
            &&& !queue_is_empty
            &&& exists|t: usize| pass.threads.contains(t)
        },
{
    if pass.threads != Set::<usize>::empty() {
        assert(exists|t: usize| pass.threads.contains(t)) by {
            if !(exists|t: usize| pass.threads.contains(t)) {
                assert(pass.threads =~= Set::<usize>::empty());
            }
        }
    }
}

/// A pass makes another round exactly if something is left to spend, it may look
/// at another transaction, a thread is open, and something is queued or
/// deferred.
pub proof fn law_when_a_round_is_made(
    pass: PassModel,
    scheduler: RiftModel,
    queue_is_empty: bool,
)
    ensures
        pass.makes_round(scheduler, queue_is_empty) <==> {
            &&& pass.remaining_budget > 0
            &&& pass.scanned < scheduler.config.max_scanned_transactions_per_scheduling_pass
            &&& exists|t: usize| pass.threads.contains(t)
            &&& !queue_is_empty || scheduler.deferred.len() > 0
        },
{
    if pass.threads != Set::<usize>::empty() {
        assert(exists|t: usize| pass.threads.contains(t)) by {
            if !(exists|t: usize| pass.threads.contains(t)) {
                assert(pass.threads =~= Set::<usize>::empty());
            }
        }
    }
}

/// Of a first entry and the rest: if the pass may look at another transaction
/// and the entry is due, it is tried next and counted, and the rest stays to be
/// looked at. Otherwise it is put back, and the rest is gone through.
pub proof fn law_how_a_round_goes_on(
    first: DeferredTx,
    rest: Seq<DeferredTx>,
    pass: PassModel,
    scheduler: RiftModel,
    request: Request,
)
    ensures
        ({
            let round = PassModel { todo: seq![first] + rest, ..pass };
            let later = PassModel { todo: rest, ..pass };
            let over = PassModel { todo: Seq::empty(), ..pass };
            let put_back = RiftModel {
                next_deferred: scheduler.next_deferred.push(first),
                ..scheduler
            };
            let tried = pass.scanned
                < scheduler.config.max_scanned_transactions_per_scheduling_pass
                && first.ready_generation <= scheduler.generation;
            &&& tried ==> round.retrying(scheduler) == scheduler
            &&& tried ==> round.retried(scheduler) == (PassModel {
                scanned: (pass.scanned + 1) as usize,
                ..later
            })
            &&& tried ==> (request.is_next_retry_of(round, scheduler) <==> request
                == Request::LookUp(Attempt { job: first, origin: Origin::Retry }))
            &&& !tried ==> round.retrying(scheduler) == later.retrying(put_back)
            &&& !tried ==> round.retried(scheduler) == later.retried(put_back)
            &&& !tried ==> (request.is_next_retry_of(round, scheduler)
                <==> request.is_next_retry_of(later, put_back))
            &&& over.retrying(scheduler) == scheduler
            &&& over.retried(scheduler) == over
            &&& request.is_next_retry_of(over, scheduler) <==> request == Request::CheckFresh
        }),
{
    let todo = seq![first] + rest;
    let round = PassModel { todo, ..pass };
    let later = PassModel { todo: rest, ..pass };
    let over = PassModel { todo: Seq::empty(), ..pass };
    let put_back = RiftModel { next_deferred: scheduler.next_deferred.push(first), ..scheduler };
    assert(todo.drop_first() == rest);
    assert(todo.skip(1) == rest);
    assert(todo.take(0) == Seq::<DeferredTx>::empty());
    assert(over.todo.take(0) == Seq::<DeferredTx>::empty());
    assert(scheduler.next_deferred + Seq::<DeferredTx>::empty() == scheduler.next_deferred);
    let k = later.passed_over(put_back) as int;
    law_what_is_passed_over(later, put_back);
    law_what_is_passed_over(round, scheduler);
    let tried = pass.scanned < scheduler.config.max_scanned_transactions_per_scheduling_pass
        && first.ready_generation <= scheduler.generation;
    if !tried {
        assert(round.passed_over(scheduler) == k + 1);
        assert(scheduler.next_deferred + todo.take(k + 1) == put_back.next_deferred + rest.take(k));
        if k < rest.len() {
            assert(todo[k + 1] == rest[k]);
            assert(todo.skip(k + 2) == rest.skip(k + 1));
        }
    }
}

/// A transaction that is tried is the one that was found, on the threads that are
/// open.
pub proof fn law_what_is_asked_of_a_trial(
    attempt: Attempt,
    tx: FootprintView,
    pass: PassModel,
    request: Request,
)
    ensures
        request.tries(attempt, tx, pass) <==> {
            &&& request is TrySchedule
            &&& request->TrySchedule_0.attempt == attempt
            &&& request->TrySchedule_0.tx@ == tx
            &&& threads_in(request->TrySchedule_0.threads) == pass.threads
        },
{
}

/// After a deferred transaction a pass goes on with its round; after a fresh one
/// it asks for another, and nothing changes.
pub proof fn law_how_a_pass_carries_on(
    before: RiftModel,
    pass: PassModel,
    after: RiftModel,
    next: PassModel,
    request: Request,
)
    ensures
        carries_on(Origin::Fresh, before, pass, after, next, request) <==> {
            &&& after == before
            &&& next == pass
            &&& request == Request::CheckFresh
        },
        carries_on(Origin::Retry, before, pass, after, next, request) <==> {
            &&& after == pass.retrying(before)
            &&& next == pass.retried(before)
            &&& request.is_next_retry_of(pass, before)
        },
{
}

} // verus!

//! What the operations of the scheduler of [`crate::rift_hybrid_scheduler`] do,
//! told of their inputs and results.
use vstd::prelude::*;

use crate::heat::{decayed, score, HotAccountMeta};
use crate::heat_laws::{law_generations_wrap, law_what_cooling_leaves};
use crate::laws::law_backoff_doubles;
use crate::model::backoff;
use crate::outside::{records, threads_in, AccountKey};
use crate::rift::{heating, FootprintView, RiftSchedulerConfig};
use crate::rift_effects::{
    law_marking_heats_written_accounts, law_marking_leaves_other_accounts,
};
use crate::rift_hybrid_scheduler::{
    cooling, ready_in, waiting_in, DeferredTx, PassModel, Placement, Request, RiftModel,
    RiftScheduler, SchedulerMetrics,
};

verus! {

/// The model of a scheduler is made of its fields.
pub proof fn law_models_show_every_field(scheduler: RiftScheduler)
    ensures
        scheduler@.deferred == scheduler.deferred@,
        scheduler@.next_deferred == scheduler.next_deferred@,
        scheduler@.hotspots == records(scheduler.hotspot_accounts),
        scheduler@.generation == scheduler.current_generation,
        scheduler@.metrics == scheduler.metrics,
        scheduler@.config == scheduler.config,
{
}

/// A new scheduler has made no pass, knows no hot account, and has nothing in
/// its queue.
pub proof fn law_new_scheduler_is_empty(config: RiftSchedulerConfig)
    ensures
        ({
            let new = RiftModel::initial(config);
            &&& new.deferred.len() == 0
            &&& new.next_deferred.len() == 0
            &&& forall|k: AccountKey| !#[trigger] new.hotspots.contains_key(k)
            &&& new.generation == 0
            &&& new.config == config
            &&& new.metrics == (SchedulerMetrics {
                scheduler_passes: 0,
                total_scanned: 0,
                scheduled_txs: 0,
                lock_conflicts: 0,
                unschedulable_threads: 0,
                total_batches_sent: 0,
                total_schedule_time_ns: 0,
                dropped_txs: 0,
            })
        }),
{
}

// The queue

/// One more entry at the end of the queue is ready exactly if it is due, and
/// waits otherwise.
pub proof fn law_one_more_entry_is_ready_when_due(
    queue: Seq<DeferredTx>,
    entry: DeferredTx,
    generation: u32,
)
    ensures
        ready_in(Seq::empty(), generation).len() == 0,
        waiting_in(Seq::empty(), generation).len() == 0,
        entry.ready_generation <= generation ==> {
            &&& ready_in(queue.push(entry), generation) == ready_in(queue, generation).push(entry)
            &&& waiting_in(queue.push(entry), generation) == waiting_in(queue, generation)
        },
        entry.ready_generation > generation ==> {
            &&& ready_in(queue.push(entry), generation) == ready_in(queue, generation)
            &&& waiting_in(queue.push(entry), generation) == waiting_in(queue, generation).push(
                entry,
            )
        },
{
    reveal(Seq::filter);
    assert(queue.push(entry).drop_last() == queue);
}

/// A pass begins in the next generation, counts itself, and takes the entries
/// that are due out of the queue. Its other parts are what they were.
pub proof fn law_what_beginning_a_pass_does(model: RiftModel)
    ensures
        ({
            let begun = model.begun();
            let next = (model.generation + 1) % 0x1_0000_0000;
            &&& model.next_generation() == next
            &&& begun.generation == next
            &&& begun.deferred == waiting_in(model.deferred, next as u32)
            &&& begun.next_deferred == model.next_deferred
            &&& begun.config == model.config
            &&& begun.metrics == (SchedulerMetrics {
                scheduler_passes: ((model.metrics.scheduler_passes + 1)
                    % 0x1_0000_0000_0000_0000) as u64,
                ..model.metrics
            })
        }),
{
    law_generations_wrap(0, model.generation, 1);
}

/// A cleanup, and so the beginning of a pass, takes one bit of heat off an
/// account for every generation since it was last brought up to date. It keeps
/// the account exactly if heat is left and it was written within 16
/// generations, and does not forget when that was.
pub proof fn law_cleanup_cools_every_account(
    hotspots: Map<AccountKey, HotAccountMeta>,
    generation: u32,
    model: RiftModel,
    k: AccountKey,
)
    ensures
        ({
            let cleaned = cooling().cool(hotspots, generation);
            let meta = hotspots[k];
            let age = (generation - meta.generation) % 0x1_0000_0000;
            let unwritten = (generation - meta.touched) % 0x1_0000_0000;
            let left = decayed(meta.heat, age as u32, 1);
            &&& cleaned.contains_key(k) <==> hotspots.contains_key(k) && unwritten <= 16 && left > 0
            &&& cleaned.contains_key(k) ==> cleaned[k] == (HotAccountMeta {
                generation,
                touched: meta.touched,
                heat: left,
            })
        }),
        model.begun().hotspots == cooling().cool(model.hotspots, model.begun().generation),
{
    law_what_cooling_leaves(cooling(), hotspots, generation, k);
}

// Screening

/// A transaction whose accounts have a heat of eight or more together is given
/// up exactly if it has been retried `max_retry_count` times, and put off
/// otherwise. Another one is given up exactly if its first attempt lies more
/// than 64 generations back, and tried otherwise.
pub proof fn law_what_screening_decides(model: RiftModel, job: DeferredTx, tx: FootprintView)
    ensures
        ({
            let hot = score(model.hotspots, tx.writes()) >= 8;
            let last = job.retry_count >= model.config.max_retry_count;
            let age = (model.generation - job.created_generation) % 0x1_0000_0000;
            &&& model.screening(job, tx) is Drop <==> hot && last
            &&& model.screening(job, tx) is Defer <==> hot && !last
            &&& model.screening(job, tx) is Expire <==> !hot && age > 64
            &&& model.screening(job, tx) is Try <==> !hot && age <= 64
        }),
{
}

/// A transaction on hot accounts counts as a conflict. It is kept, with one more
/// retry and due after its backoff, exactly if it has been retried fewer than
/// `max_retry_count` times; otherwise it counts as given up and is not kept. A
/// transaction that has waited too long counts as given up and is not kept.
/// Nothing else changes.
pub proof fn law_what_becomes_of_screened_transactions(
    model: RiftModel,
    job: DeferredTx,
    tx: FootprintView,
)
    ensures
        ({
            let after = model.screened(job, tx);
            let hot = score(model.hotspots, tx.writes()) >= 8;
            let last = job.retry_count >= model.config.max_retry_count;
            let age = (model.generation - job.created_generation) % 0x1_0000_0000;
            let conflicts = (model.metrics.lock_conflicts + 1) % 0x1_0000_0000_0000_0000;
            let dropped = (model.metrics.dropped_txs + 1) % 0x1_0000_0000_0000_0000;
            let ready = (model.generation + backoff(job.retry_count)) % 0x1_0000_0000;
            &&& hot && !last ==> after == (RiftModel {
                next_deferred: model.next_deferred.push(
                    DeferredTx {
                        id: job.id,
                        retry_count: (job.retry_count + 1) as u8,
                        ready_generation: ready as u32,
                        created_generation: job.created_generation,
                    },
                ),
                metrics: SchedulerMetrics { lock_conflicts: conflicts as u64, ..model.metrics },
                ..model
            })
            &&& hot && last ==> after == (RiftModel {
                metrics: SchedulerMetrics {
                    lock_conflicts: conflicts as u64,
                    dropped_txs: dropped as u64,
                    ..model.metrics
                },
                ..model
            })
            &&& !hot && age > 64 ==> after == (RiftModel {
                metrics: SchedulerMetrics { dropped_txs: dropped as u64, ..model.metrics },
                ..model
            })
            &&& !hot && age <= 64 ==> after == model
        }),
{
    law_generations_wrap(0, model.generation, backoff(job.retry_count));
    law_backoff_doubles(job.retry_count);
}

/// A transaction that writes one account of heat eight or more is not tried,
/// whatever else it writes and at whichever position.
pub proof fn law_one_hot_account_is_enough(
    model: RiftModel,
    job: DeferredTx,
    tx: FootprintView,
    i: int,
)
    requires
        0 <= i < tx.account_keys.len(),
        i < tx.writable.len(),
        tx.writable[i],
        model.hotspots.contains_key(tx.account_keys[i]),
        model.hotspots[tx.account_keys[i]].heat >= 8,
    ensures
        model.screening(job, tx) is Drop || model.screening(job, tx) is Defer,
{
    crate::rift_effects::law_score_covers_every_written_account(model.hotspots, tx, i);
}

// After a trial

/// A transaction that could not be scheduled after all is kept, with one more
/// retry, exactly if it has been retried fewer than `max_retry_count` times, and
/// counts as given up otherwise. It is due after its backoff if its locks
/// conflict, and in the next generation if no thread can take it. Locks in
/// conflict heat the accounts; a lack of threads is counted.
pub proof fn law_what_becomes_of_failed_trials(
    model: RiftModel,
    job: DeferredTx,
    tx: FootprintView,
)
    ensures
        ({
            let conflicted = model.conflicted(job, tx);
            let without = model.without_thread(job);
            let last = job.retry_count >= model.config.max_retry_count;
            let dropped = (model.metrics.dropped_txs + 1) % 0x1_0000_0000_0000_0000;
            let lacking = (model.metrics.unschedulable_threads + 1) % 0x1_0000_0000_0000_0000;
            let entry = DeferredTx {
                id: job.id,
                retry_count: (job.retry_count + 1) as u8,
                ready_generation: 0,
                created_generation: job.created_generation,
            };
            let ready = (model.generation + backoff(job.retry_count)) % 0x1_0000_0000;
            let next = (model.generation + 1) % 0x1_0000_0000;
            let hotter = model.marking(tx).hotspots;
            &&& !last ==> conflicted == (RiftModel {
                hotspots: hotter,
                next_deferred: model.next_deferred.push(
                    DeferredTx { ready_generation: ready as u32, ..entry },
                ),
                ..model
            })
            &&& last ==> conflicted == (RiftModel {
                hotspots: hotter,
                metrics: SchedulerMetrics { dropped_txs: dropped as u64, ..model.metrics },
                ..model
            })
            &&& !last ==> without == (RiftModel {
                next_deferred: model.next_deferred.push(
                    DeferredTx { ready_generation: next as u32, ..entry },
                ),
                metrics: SchedulerMetrics {
                    unschedulable_threads: lacking as u64,
                    ..model.metrics
                },
                ..model
            })
            &&& last ==> without == (RiftModel {
                metrics: SchedulerMetrics {
                    unschedulable_threads: lacking as u64,
                    dropped_txs: dropped as u64,
                    ..model.metrics
                },
                ..model
            })
        }),
{
    law_generations_wrap(0, model.generation, backoff(job.retry_count));
    law_generations_wrap(0, model.generation, 1);
    law_backoff_doubles(job.retry_count);
}

/// A transaction that is added to its batch is counted, and heats its accounts.
/// Batches that are sent are counted. Nothing else changes.
pub proof fn law_what_becomes_of_scheduled_transactions(
    model: RiftModel,
    tx: FootprintView,
    batches: usize,
)
    ensures
        model.added(tx) == (RiftModel {
            hotspots: model.marking(tx).hotspots,
            metrics: SchedulerMetrics {
                scheduled_txs: ((model.metrics.scheduled_txs + 1)
                    % 0x1_0000_0000_0000_0000) as u64,
                ..model.metrics
            },
            ..model
        }),
        model.sent(batches) == (RiftModel {
            metrics: SchedulerMetrics {
                total_batches_sent: ((model.metrics.total_batches_sent + batches)
                    % 0x1_0000_0000_0000_0000) as u64,
                ..model.metrics
            },
            ..model
        }),
{
}

/// Marking a transaction heats the accounts that it writes, and changes nothing
/// else.
pub proof fn law_what_marking_does(model: RiftModel, tx: FootprintView)
    ensures
        model.marking(tx) == (RiftModel {
            hotspots: heating().mark(model.hotspots, tx.writes(), model.generation),
            ..model
        }),
{
}

/// Scheduling a transaction, and locks in conflict, raise the heat of an account
/// that it writes at position `i`, and at no other, by one, up to 255.
pub proof fn law_trials_heat_written_accounts(
    model: RiftModel,
    job: DeferredTx,
    tx: FootprintView,
    i: int,
)
    requires
        0 <= i < tx.account_keys.len(),
        i < tx.writable.len(),
        tx.writable[i],
        forall|j: int|
            0 <= j < tx.account_keys.len() && j != i && j < tx.writable.len() && tx.writable[j]
                ==> #[trigger] tx.account_keys[j] != tx.account_keys[i],
    ensures
        ({
            let after = model.added(tx).hotspots;
            let k = tx.account_keys[i];
            let heat = if model.hotspots.contains_key(k) {
                model.hotspots[k].heat as int
            } else {
                0
            };
            &&& after.contains_key(k)
            &&& after[k].generation == model.generation
            &&& after[k].touched == model.generation
            &&& heat < 255 ==> after[k].heat == heat + 1
            &&& heat >= 255 ==> after[k].heat == 255
            &&& model.conflicted(job, tx).hotspots == after
            &&& model.marking(tx) == (RiftModel { hotspots: after, ..model })
        }),
{
    law_marking_heats_written_accounts(model.hotspots, model.generation, tx, i);
}

/// Scheduling a transaction, and locks in conflict, leave the accounts alone
/// that it does not write. A lack of threads leaves all accounts alone.
pub proof fn law_trials_leave_other_accounts(
    model: RiftModel,
    job: DeferredTx,
    tx: FootprintView,
    other: AccountKey,
)
    requires
        forall|j: int|
            0 <= j < tx.account_keys.len() && j < tx.writable.len() && tx.writable[j]
                ==> #[trigger] tx.account_keys[j] != other,
    ensures
        ({
            let after = model.added(tx).hotspots;
            &&& after.contains_key(other) == model.hotspots.contains_key(other)
            &&& model.hotspots.contains_key(other) ==> after[other] == model.hotspots[other]
            &&& model.conflicted(job, tx).hotspots == after
            &&& model.without_thread(job).hotspots == model.hotspots
        }),
{
    law_marking_leaves_other_accounts(model.hotspots, model.generation, tx, other);
}

/// A pass that ends leaves what was waiting, and behind it what was put off, in
/// the queue, counts what it has looked at and how long it took, and changes
/// nothing else.
pub proof fn law_what_finishing_a_pass_does(model: RiftModel, scanned: usize, elapsed_ns: u64)
    ensures
        ({
            let after = model.finished(scanned, elapsed_ns);
            &&& after.deferred == model.deferred + model.next_deferred
            &&& after.next_deferred.len() == 0
            &&& after.hotspots == model.hotspots
            &&& after.generation == model.generation
            &&& after.config == model.config
            &&& after.metrics == (SchedulerMetrics {
                total_scanned: ((model.metrics.total_scanned + scanned)
                    % 0x1_0000_0000_0000_0000) as u64,
                total_schedule_time_ns: ((model.metrics.total_schedule_time_ns + elapsed_ns)
                    % 0x1_0000_0000_0000_0000) as u64,
                ..model.metrics
            })
        }),
{
}

// A pass

/// A pass starts with the entries that are ready, all threads and the whole
/// budget, and nothing done.
pub proof fn law_what_a_pass_starts_with(
    ready: Seq<DeferredTx>,
    num_threads: usize,
    budget: u64,
    t: usize,
)
    ensures
        ({
            let start = PassModel::start(ready, num_threads, budget);
            &&& start.todo == ready
            &&& start.threads.contains(t) <==> t < num_threads
            &&& start.remaining_budget == budget
            &&& start.num_scheduled == 0
            &&& start.num_sent == 0
            &&& start.num_unschedulable_threads == 0
            &&& start.scanned == 0
        }),
{
}

/// A pass looks at its entries one after the other, the first one first, and
/// counts them. When none is left it asks to be finished.
pub proof fn law_what_a_pass_asks_for_next(
    first: DeferredTx,
    rest: Seq<DeferredTx>,
    pass: PassModel,
    request: Request,
)
    requires
        pass.scanned < usize::MAX,
    ensures
        ({
            let more = PassModel { todo: seq![first] + rest, ..pass };
            let done = PassModel { todo: Seq::empty(), ..pass };
            &&& more.resumed() == (PassModel {
                todo: rest,
                scanned: (pass.scanned + 1) as usize,
                ..pass
            })
            &&& request.is_next_of(more) <==> request == Request::LookUp(first)
            &&& done.resumed() == done
            &&& request.is_next_of(done) <==> request == Request::Finish
        }),
{
    assert((seq![first] + rest).drop_first() == rest);
}

/// A transaction that is tried is the one that was found, on the threads and
/// with the budget that the pass has left.
pub proof fn law_what_is_asked_of_a_trial(
    job: DeferredTx,
    tx: FootprintView,
    pass: PassModel,
    request: Request,
)
    ensures
        request.tries(job, tx, pass) <==> {
            &&& request is TrySchedule
            &&& request->TrySchedule_0.job == job
            &&& request->TrySchedule_0.tx@ == tx
            &&& threads_in(request->TrySchedule_0.threads) == pass.threads
            &&& request->TrySchedule_0.remaining_budget == pass.remaining_budget
        },
{
}

/// A transaction is placed where it was scheduled.
pub proof fn law_what_a_placement_says(
    placement: Placement,
    job: DeferredTx,
    tx: FootprintView,
    thread_id: usize,
    cost: u64,
)
    ensures
        placement.places(job, tx, thread_id, cost) <==> {
            &&& placement.job == job
            &&& placement.tx@ == tx
            &&& placement.thread_id == thread_id
            &&& placement.cost == cost
        },
{
}

/// A pass counts the transactions that it schedules, the batches that it sends
/// and the lacks of threads, spends what a transaction costs, and changes
/// nothing else.
pub proof fn law_what_a_pass_counts(pass: PassModel, batches: usize, cost: u64)
    requires
        pass.num_sent + batches <= usize::MAX,
        pass.num_unschedulable_threads < usize::MAX,
    ensures
        pass.sent(batches) == (PassModel { num_sent: (pass.num_sent + batches) as usize, ..pass }),
        pass.without_thread() == (PassModel {
            num_unschedulable_threads: (pass.num_unschedulable_threads + 1) as usize,
            ..pass
        }),
        pass.added(cost) == (PassModel {
            num_scheduled: (if pass.num_scheduled < usize::MAX {
                pass.num_scheduled + 1
            } else {
                usize::MAX as int
            }) as usize,
            remaining_budget: (if cost <= pass.remaining_budget {
                pass.remaining_budget - cost
            } else {
                0
            }) as u64,
            ..pass
        }),
{
}

} // verus!

//! What the operations of [`HybridScheduler`](crate::HybridScheduler) do, told
//! of their inputs and results.
use vstd::prelude::*;

use crate::heat::{decayed, score, HotAccountMeta};
use crate::heat_laws::{
    law_account_named_once_is_heated, law_generations_wrap, law_one_more_key_adds_its_heat,
    law_one_more_key_is_a_write_if_flagged, law_one_more_write_heats_its_account,
    law_score_covers_every_key,
    law_unwritten_account_keeps_its_record, law_what_cooling_leaves, law_what_is_written,
};
use crate::hybrid::{batch_view, can_be_reserved, HybridScheduler};
use crate::laws::law_backoff_doubles;
use crate::model::{
    backoff, lemma_attempt_all_counts, ready_in, DeferredView, Job, PassState, SchedulerModel,
};
use crate::types::{AccountId, SchedulerConfig, Transaction, TransactionView};

verus! {

// Models

/// The model of a scheduler is made of its fields, and those of a transaction
/// and of a queue entry are too.
pub proof fn law_models_show_every_field(
    scheduler: HybridScheduler,
    batch: Seq<Transaction>,
    i: int,
    j: int,
)
    ensures
        scheduler@.generation == scheduler.current_generation,
        scheduler@.hotspots == scheduler.hotspot_accounts@,
        scheduler@.metrics == scheduler.metrics,
        scheduler@.config == scheduler.config,
        scheduler@.deferred.len() == scheduler.deferred@.len(),
        0 <= i < scheduler.deferred@.len() ==> {
            let d = scheduler.deferred@[i];
            &&& scheduler@.deferred[i].tx.id == d.tx.id
            &&& scheduler@.deferred[i].tx.cost == d.tx.cost
            &&& scheduler@.deferred[i].tx.account_keys == d.tx.account_keys@
            &&& scheduler@.deferred[i].tx.writable == d.tx.writable@
            &&& scheduler@.deferred[i].retry_count == d.retry_count
            &&& scheduler@.deferred[i].ready_generation == d.ready_generation
        },
        batch_view(batch).len() == batch.len(),
        0 <= j < batch.len() ==> {
            &&& batch_view(batch)[j].id == batch[j].id
            &&& batch_view(batch)[j].cost == batch[j].cost
            &&& batch_view(batch)[j].account_keys == batch[j].account_keys@
            &&& batch_view(batch)[j].writable == batch[j].writable@
        },
{
}

/// A new scheduler has made no pass, knows no hot account, and has nothing in
/// its queue. Room for `hotspot_capacity` accounts can be asked for if 64 bytes
/// each can be addressed.
pub proof fn law_new_scheduler_is_empty(config: SchedulerConfig)
    ensures
        ({
            let new = SchedulerModel::initial(config);
            &&& new.generation == 0
            &&& forall|k: u64| !#[trigger] new.hotspots.contains_key(k)
            &&& new.deferred.len() == 0
            &&& new.config == config
            &&& new.metrics.scheduler_passes == 0
            &&& new.metrics.scheduled_txs == 0
            &&& new.metrics.deferred_txs == 0
            &&& new.metrics.dropped_txs == 0
            &&& new.metrics.lock_conflicts == 0
            &&& new.metrics.hot_accounts == 0
        }),
        config.hotspot_capacity * 64 <= isize::MAX ==> can_be_reserved(config.hotspot_capacity),
{
}

// Conflict score

/// The score of a transaction is at least the heat of every account that it
/// writes, at whichever position.
pub proof fn law_score_covers_every_written_account(
    hotspots: Map<u64, HotAccountMeta>,
    tx: TransactionView,
    i: int,
)
    requires
        0 <= i < tx.account_keys.len(),
        i < tx.writable.len(),
        tx.writable[i],
        hotspots.contains_key(tx.account_keys[i].0),
    ensures
        score(hotspots, tx.writes()) >= hotspots[tx.account_keys[i].0].heat,
{
    assert(tx.numbers()[i] == tx.account_keys[i].0);
    law_what_is_written(tx.numbers(), tx.writable, tx.account_keys[i].0);
    law_score_covers_every_key(hotspots, tx.writes(), tx.account_keys[i].0);
}

/// One more account raises the score by exactly its heat if the transaction
/// writes it, as far as 32 bits can tell, and not at all if it does not. What
/// the transaction costs and is called makes no difference, and one without
/// accounts has no score.
pub proof fn law_one_more_account_adds_its_heat(
    hotspots: Map<u64, HotAccountMeta>,
    tx: TransactionView,
    account: AccountId,
    id: usize,
    cost: u64,
)
    ensures
        ({
            let longer = TransactionView {
                id,
                cost,
                account_keys: tx.account_keys.push(account),
                writable: tx.writable,
            };
            let at = tx.account_keys.len() as int;
            let more = if at < tx.writable.len() && tx.writable[at] && hotspots.contains_key(
                account.0,
            ) {
                hotspots[account.0].heat as int
            } else {
                0
            };
            let sum = score(hotspots, tx.writes()) + more;
            &&& sum <= 0xffff_ffff ==> score(hotspots, longer.writes()) == sum
            &&& sum > 0xffff_ffff ==> score(hotspots, longer.writes()) == 0xffff_ffff
            &&& tx.account_keys.len() == 0 ==> score(hotspots, tx.writes()) == 0
        }),
{
    assert(tx.account_keys.push(account).map_values(|a: AccountId| a.0) == tx.numbers().push(
        account.0,
    ));
    law_one_more_key_is_a_write_if_flagged(tx.numbers(), tx.writable, account.0);
    law_one_more_key_adds_its_heat(hotspots, tx.writes(), account.0);
    if tx.account_keys.len() == 0 {
        assert(tx.numbers() == Seq::<u64>::empty());
    }
}

/// Hotter accounts do not make for a lower score, and accounts that are not
/// written do not make for a different one.
pub proof fn law_score_follows_the_heat_of_written_accounts(
    hotspots: Map<u64, HotAccountMeta>,
    other: Map<u64, HotAccountMeta>,
    tx: TransactionView,
)
    requires
        forall|i: int|
            0 <= i < tx.account_keys.len() && i < tx.writable.len() && tx.writable[i] ==> {
                let k = (#[trigger] tx.account_keys[i]).0;
                hotspots.contains_key(k) ==> other.contains_key(k) && hotspots[k].heat
                    <= other[k].heat
            },
    ensures
        score(hotspots, tx.writes()) <= score(other, tx.writes()),
    decreases tx.account_keys.len(),
{
    if tx.account_keys.len() > 0 {
        let shorter = TransactionView { account_keys: tx.account_keys.drop_last(), ..tx };
        let last = tx.account_keys.last();
        assert(tx.account_keys == shorter.account_keys.push(last));
        assert(tx.account_keys[tx.account_keys.len() - 1] == last);
        assert forall|i: int|
            0 <= i < shorter.account_keys.len() && i < shorter.writable.len()
                && shorter.writable[i] implies {
            let k = (#[trigger] shorter.account_keys[i]).0;
            hotspots.contains_key(k) ==> other.contains_key(k) && hotspots[k].heat <= other[k].heat
        } by {
            assert(shorter.account_keys[i] == tx.account_keys[i]);
        }
        law_score_follows_the_heat_of_written_accounts(hotspots, other, shorter);
        law_one_more_account_adds_its_heat(hotspots, shorter, last, tx.id, tx.cost);
        law_one_more_account_adds_its_heat(other, shorter, last, tx.id, tx.cost);
    } else {
        law_one_more_account_adds_its_heat(hotspots, tx, AccountId(0), tx.id, tx.cost);
        law_one_more_account_adds_its_heat(other, tx, AccountId(0), tx.id, tx.cost);
    }
}

// Marking

/// Marking heats each account that a transaction writes by `initial_heat`, up to
/// `max_account_heat`, and records it as written in this generation, if the
/// transaction names it once.
pub proof fn law_marking_heats_written_accounts(
    config: SchedulerConfig,
    hotspots: Map<u64, HotAccountMeta>,
    generation: u32,
    tx: TransactionView,
    i: int,
)
    requires
        0 <= i < tx.account_keys.len(),
        i < tx.writable.len(),
        tx.writable[i],
        forall|j: int|
            0 <= j < tx.account_keys.len() && j != i && j < tx.writable.len() && tx.writable[j]
                ==> #[trigger] tx.account_keys[j] != tx.account_keys[i],
    ensures
        ({
            let after = config.heating().mark(hotspots, tx.writes(), generation);
            let k = tx.account_keys[i].0;
            let heat = if hotspots.contains_key(k) {
                hotspots[k].heat as int
            } else {
                0
            };
            let sum = heat + config.initial_heat;
            &&& after.contains_key(k)
            &&& after[k].generation == generation
            &&& after[k].touched == generation
            &&& sum <= config.max_account_heat ==> after[k].heat == sum
            &&& sum > config.max_account_heat ==> after[k].heat == config.max_account_heat
        }),
{
    assert forall|j: int|
        0 <= j < tx.numbers().len() && j != i && j < tx.writable.len()
            && tx.writable[j] implies #[trigger] tx.numbers()[j] != tx.numbers()[i] by {
        assert(tx.account_keys[j] != tx.account_keys[i]);
    }
    law_account_named_once_is_heated(
        config.heating(),
        hotspots,
        tx.numbers(),
        tx.writable,
        generation,
        i,
    );
}

/// One more account that a transaction writes gets `initial_heat` more heat, up
/// to `max_account_heat`, on top of what the others have left, even if it is one
/// of them; one more that it does not write changes nothing. A transaction
/// without accounts heats none.
pub proof fn law_one_more_written_account_is_heated(
    config: SchedulerConfig,
    hotspots: Map<u64, HotAccountMeta>,
    generation: u32,
    tx: TransactionView,
    account: AccountId,
    id: usize,
    cost: u64,
)
    ensures
        ({
            let longer = TransactionView {
                id,
                cost,
                account_keys: tx.account_keys.push(account),
                writable: tx.writable,
            };
            let before = config.heating().mark(hotspots, tx.writes(), generation);
            let after = config.heating().mark(hotspots, longer.writes(), generation);
            let k = account.0;
            let at = tx.account_keys.len() as int;
            let writes = at < tx.writable.len() && tx.writable[at];
            let heat = if before.contains_key(k) {
                before[k].heat as int
            } else {
                0
            };
            let sum = heat + config.initial_heat;
            &&& !writes ==> after == before
            &&& writes ==> after == before.insert(
                k,
                HotAccountMeta {
                    generation,
                    touched: generation,
                    heat: (if sum <= config.max_account_heat {
                        sum
                    } else {
                        config.max_account_heat as int
                    }) as u16,
                },
            )
            &&& tx.account_keys.len() == 0 ==> before == hotspots
        }),
{
    assert(tx.account_keys.push(account).map_values(|a: AccountId| a.0) == tx.numbers().push(
        account.0,
    ));
    law_one_more_key_is_a_write_if_flagged(tx.numbers(), tx.writable, account.0);
    law_one_more_write_heats_its_account(
        config.heating(),
        hotspots,
        tx.writes(),
        account.0,
        generation,
    );
    if tx.account_keys.len() == 0 {
        assert(tx.numbers() == Seq::<u64>::empty());
    }
}

/// Marking leaves the accounts alone that a transaction does not write.
pub proof fn law_marking_leaves_other_accounts(
    config: SchedulerConfig,
    hotspots: Map<u64, HotAccountMeta>,
    generation: u32,
    tx: TransactionView,
    other: u64,
)
    requires
        forall|j: int|
            0 <= j < tx.account_keys.len() && j < tx.writable.len() && tx.writable[j] ==> (
            #[trigger] tx.account_keys[j]).0 != other,
    ensures
        ({
            let after = config.heating().mark(hotspots, tx.writes(), generation);
            &&& after.contains_key(other) == hotspots.contains_key(other)
            &&& hotspots.contains_key(other) ==> after[other] == hotspots[other]
        }),
{
    assert forall|j: int|
        0 <= j < tx.numbers().len() && j < tx.writable.len()
            && tx.writable[j] implies #[trigger] tx.numbers()[j] != other by {
        assert(tx.account_keys[j].0 != other);
    }
    law_unwritten_account_keeps_its_record(
        config.heating(),
        hotspots,
        tx.numbers(),
        tx.writable,
        generation,
        other,
    );
}

// Cleanup

/// A cleanup, and so the start of a pass, takes `hotspot_decay_shift` bits of
/// heat off an account for every generation since it was last brought up to
/// date. It keeps the account exactly if heat is left and it was written within
/// `max_generation_age` generations, and does not forget when that was.
pub proof fn law_cleanup_cools_every_account(model: SchedulerModel, k: u64)
    ensures
        ({
            let cleaned = model.config.cooling().cool(model.hotspots, model.generation);
            let meta = model.hotspots[k];
            let age = (model.generation - meta.generation) % 0x1_0000_0000;
            let unwritten = (model.generation - meta.touched) % 0x1_0000_0000;
            let left = decayed(meta.heat, age as u32, model.config.hotspot_decay_shift);
            &&& cleaned.contains_key(k) <==> model.hotspots.contains_key(k) && unwritten
                <= model.config.max_generation_age && left > 0
            &&& cleaned.contains_key(k) ==> cleaned[k] == (HotAccountMeta {
                generation: model.generation,
                touched: meta.touched,
                heat: left,
            })
            &&& SchedulerModel {
                generation: ((model.generation - 1) % 0x1_0000_0000) as u32,
                ..model
            }.cooled_hotspots() == cleaned
        }),
{
    law_what_cooling_leaves(model.config.cooling(), model.hotspots, model.generation, k);
    let last = ((model.generation - 1) % 0x1_0000_0000) as u32;
    law_generations_wrap(0, last, 1);
}

// Attempts

/// A job is scheduled exactly if the score of its transaction is below
/// `conflict_threshold` and what it costs is left. Then it is put at the end of
/// what is scheduled, and what it costs is gone from the budget.
pub proof fn law_when_a_job_is_scheduled(
    state: PassState,
    config: SchedulerConfig,
    generation: u32,
    job: Job,
)
    ensures
        ({
            let after = state.attempt(config, generation, job);
            let cool = score(state.hotspots, job.tx.writes()) < config.conflict_threshold;
            let scheduled = cool && job.tx.cost <= state.budget;
            &&& scheduled ==> after.admitted == state.admitted.push(job.tx)
            &&& scheduled ==> after.budget == state.budget - job.tx.cost
            &&& !scheduled ==> after.admitted == state.admitted
            &&& !scheduled ==> after.budget == state.budget
            &&& !scheduled ==> after.hotspots == state.hotspots
        }),
{
}

/// Whenever a job is scheduled, whatever it costs, the account that it writes at
/// position `i`, and at no other, gets `initial_heat` more heat, up to
/// `max_account_heat`, and is recorded as written in this generation.
pub proof fn law_scheduled_jobs_heat_what_they_write(
    state: PassState,
    config: SchedulerConfig,
    generation: u32,
    job: Job,
    i: int,
)
    requires
        state.attempt(config, generation, job).admitted.len() == state.admitted.len() + 1,
        0 <= i < job.tx.account_keys.len(),
        i < job.tx.writable.len(),
        job.tx.writable[i],
        forall|j: int|
            0 <= j < job.tx.account_keys.len() && j != i && j < job.tx.writable.len()
                && job.tx.writable[j] ==> #[trigger] job.tx.account_keys[j]
                != job.tx.account_keys[i],
    ensures
        ({
            let after = state.attempt(config, generation, job).hotspots;
            let k = job.tx.account_keys[i].0;
            let heat = if state.hotspots.contains_key(k) {
                state.hotspots[k].heat as int
            } else {
                0
            };
            let sum = heat + config.initial_heat;
            &&& after.contains_key(k)
            &&& after[k].generation == generation
            &&& after[k].touched == generation
            &&& sum <= config.max_account_heat ==> after[k].heat == sum
            &&& sum > config.max_account_heat ==> after[k].heat == config.max_account_heat
        }),
{
    law_marking_heats_written_accounts(config, state.hotspots, generation, job.tx, i);
}

/// Whatever becomes of a job, the accounts that it does not write keep their
/// records.
pub proof fn law_jobs_leave_other_accounts(
    state: PassState,
    config: SchedulerConfig,
    generation: u32,
    job: Job,
    other: u64,
)
    requires
        forall|j: int|
            0 <= j < job.tx.account_keys.len() && j < job.tx.writable.len() && job.tx.writable[j]
                ==> (#[trigger] job.tx.account_keys[j]).0 != other,
    ensures
        ({
            let after = state.attempt(config, generation, job).hotspots;
            &&& after.contains_key(other) == state.hotspots.contains_key(other)
            &&& state.hotspots.contains_key(other) ==> after[other] == state.hotspots[other]
        }),
{
    law_marking_leaves_other_accounts(config, state.hotspots, generation, job.tx, other);
}

/// What a scheduled job writes is what marking its transaction would write, for
/// accounts that it names several times too: it does not matter what it costs,
/// is called, or how often it was retried.
pub proof fn law_scheduled_jobs_heat_alike(
    state: PassState,
    other: PassState,
    config: SchedulerConfig,
    generation: u32,
    job: Job,
    id: usize,
    cost: u64,
    retry_count: u8,
)
    requires
        other.hotspots == state.hotspots,
        state.attempt(config, generation, job).admitted.len() == state.admitted.len() + 1,
        cost <= other.budget,
    ensures
        state.attempt(config, generation, job).hotspots == config.heating().mark(
            state.hotspots,
            job.tx.writes(),
            generation,
        ),
        ({
            let twin = Job { tx: TransactionView { id, cost, ..job.tx }, retry_count };
            other.attempt(config, generation, twin).hotspots == state.attempt(
                config,
                generation,
                job,
            ).hotspots
        }),
{
}

/// A job that is not scheduled is given up exactly if it has been retried
/// `max_retry_count` times, and goes to the end of the queue otherwise, with
/// one more retry: due after 1, 2, 4, and so on up to 256 generations if its
/// accounts were too hot, and in the next generation if it was too expensive.
/// It counts as a conflict exactly if its accounts were too hot.
pub proof fn law_what_becomes_of_other_jobs(
    state: PassState,
    config: SchedulerConfig,
    generation: u32,
    job: Job,
)
    ensures
        ({
            let after = state.attempt(config, generation, job);
            let hot = score(state.hotspots, job.tx.writes()) >= config.conflict_threshold;
            let scheduled = !hot && job.tx.cost <= state.budget;
            let last = job.retry_count >= config.max_retry_count;
            let delay = if hot {
                backoff(job.retry_count) as int
            } else {
                1
            };
            &&& hot ==> after.conflicts == state.conflicts + 1
            &&& !hot ==> after.conflicts == state.conflicts
            &&& !scheduled && last ==> after.discarded == state.discarded.push(job.tx)
            &&& scheduled || !last ==> after.discarded == state.discarded
            &&& !scheduled && !last ==> after.postponed == state.postponed.push(
                DeferredView {
                    tx: job.tx,
                    retry_count: (job.retry_count + 1) as u8,
                    ready_generation: ((generation + delay) % 0x1_0000_0000) as u32,
                },
            )
            &&& scheduled || last ==> after.postponed == state.postponed
        }),
{
    law_generations_wrap(0, generation, backoff(job.retry_count));
    law_generations_wrap(0, generation, 1);
    law_backoff_doubles(job.retry_count);
}

// Passes

/// A pass begins with cooled accounts, the whole budget, and nothing done.
pub proof fn law_pass_begins_with_nothing_done(model: SchedulerModel, budget: u64)
    requires
        model.deferred.len() == 0,
    ensures
        ({
            let start = model.pass(Seq::empty(), budget);
            &&& start.hotspots == model.cooled_hotspots()
            &&& start.budget == budget
            &&& start.admitted.len() == 0
            &&& start.postponed.len() == 0
            &&& start.discarded.len() == 0
            &&& start.conflicts == 0
        }),
{
    reveal(Seq::filter);
    assert(model.deferred == Seq::<DeferredView>::empty());
    assert(model.jobs(Seq::empty()) == Seq::<Job>::empty());
}

/// One more entry at the end of the queue is one more job at the end of the
/// retries, with the retries that it has stored, exactly if it is due in the
/// next generation; otherwise it goes on waiting.
pub proof fn law_one_more_entry_is_tried_when_due(
    model: SchedulerModel,
    d: DeferredView,
    budget: u64,
)
    ensures
        ({
            let longer = SchedulerModel { deferred: model.deferred.push(d), ..model };
            let none = Seq::<TransactionView>::empty();
            let next = (model.generation + 1) % 0x1_0000_0000;
            if d.ready_generation <= next {
                &&& longer.pass(none, budget) == model.pass(none, budget).attempt(
                    model.config,
                    next as u32,
                    Job { tx: d.tx, retry_count: d.retry_count },
                )
                &&& longer.waiting() == model.waiting()
            } else {
                &&& longer.pass(none, budget) == model.pass(none, budget)
                &&& longer.waiting() == model.waiting().push(d)
            }
        }),
{
    reveal(Seq::filter);
    let longer = SchedulerModel { deferred: model.deferred.push(d), ..model };
    let none = Seq::<TransactionView>::empty();
    assert(longer.deferred.drop_last() == model.deferred);
    law_generations_wrap(0, model.generation, 1);
    if d.ready_generation <= model.next_generation() {
        let job = Job { tx: d.tx, retry_count: d.retry_count };
        assert(longer.ready() == model.ready().push(d));
        assert(longer.jobs(none) == model.jobs(none).push(job));
        assert(longer.jobs(none).drop_last() == model.jobs(none));
    } else {
        assert(longer.ready() == model.ready());
    }
}

/// One more transaction at the end of a batch is one more job at the end of the
/// pass, tried for the first time.
pub proof fn law_one_more_transaction_is_tried_last(
    model: SchedulerModel,
    txs: Seq<TransactionView>,
    tx: TransactionView,
    budget: u64,
)
    ensures
        model.pass(txs.push(tx), budget) == model.pass(txs, budget).attempt(
            model.config,
            ((model.generation + 1) % 0x1_0000_0000) as u32,
            Job { tx, retry_count: 0 },
        ),
{
    law_generations_wrap(0, model.generation, 1);
    assert(model.jobs(txs.push(tx)) == model.jobs(txs).push(Job { tx, retry_count: 0 }));
    assert(model.jobs(txs.push(tx)).drop_last() == model.jobs(txs));
}

/// With nothing in it, a queue has nothing that waits.
pub proof fn law_empty_queue_has_nothing_waiting(model: SchedulerModel)
    requires
        model.deferred.len() == 0,
    ensures
        model.waiting().len() == 0,
        model.ready().len() == 0,
{
    reveal(Seq::filter);
}

/// After a pass the generation is the next one, the accounts are as hot as the
/// pass has left them, what was put off waits behind what was waiting, and the
/// parameters are what they were. The report and the counters tell what was
/// scheduled, put off, given up, looked at, and in conflict.
pub proof fn law_what_a_pass_leaves(model: SchedulerModel, txs: Seq<TransactionView>, budget: u64)
    requires
        model.counters_fit(txs, budget),
    ensures
        ({
            let end = model.pass(txs, budget);
            let after = model.after_pass(txs, budget);
            let summary = model.summary(txs, budget);
            let next = (model.generation + 1) % 0x1_0000_0000;
            &&& after.generation == next
            &&& after.hotspots == end.hotspots
            &&& after.deferred == model.waiting() + end.postponed
            &&& after.config == model.config
            &&& after.metrics.scheduler_passes == model.metrics.scheduler_passes + 1
            &&& after.metrics.scheduled_txs == model.metrics.scheduled_txs + end.admitted.len()
            &&& after.metrics.dropped_txs == model.metrics.dropped_txs + end.discarded.len()
            &&& after.metrics.lock_conflicts == model.metrics.lock_conflicts + end.conflicts
            &&& after.deferred.len() <= u64::MAX ==> after.metrics.deferred_txs
                == after.deferred.len()
            &&& after.hotspots.len() <= u64::MAX ==> after.metrics.hot_accounts
                == after.hotspots.len()
            &&& summary.scheduled == end.admitted.len()
            &&& summary.deferred == end.postponed.len()
            &&& summary.dropped == end.discarded.len()
            &&& summary.scanned == end.admitted.len() + end.postponed.len() + end.discarded.len()
            &&& summary.generation == next
        }),
{
    law_generations_wrap(0, model.generation, 1);
    lemma_attempt_all_counts(
        PassState::start(model.cooled_hotspots(), budget),
        model.config,
        model.next_generation(),
        model.jobs(txs),
    );
}

/// A pass can be made whenever no counter would be full if everything that is
/// queued or fresh were counted.
pub proof fn law_when_a_pass_can_be_made(
    model: SchedulerModel,
    txs: Seq<TransactionView>,
    budget: u64,
)
    requires
        model.metrics.scheduler_passes < u64::MAX,
        model.metrics.scheduled_txs + model.deferred.len() + txs.len() <= u64::MAX,
        model.metrics.dropped_txs + model.deferred.len() + txs.len() <= u64::MAX,
        model.metrics.lock_conflicts + model.deferred.len() + txs.len() <= u64::MAX,
        model.deferred.len() + txs.len() <= usize::MAX,
    ensures
        model.counters_fit(txs, budget),
{
    lemma_attempt_all_counts(
        PassState::start(model.cooled_hotspots(), budget),
        model.config,
        model.next_generation(),
        model.jobs(txs),
    );
    lemma_ready_is_no_longer(model.deferred, model.next_generation());
}

proof fn lemma_ready_is_no_longer(queue: Seq<DeferredView>, generation: u32)
    ensures
        ready_in(queue, generation).len() <= queue.len(),
    decreases queue.len(),
{
    reveal(Seq::filter);
    if queue.len() > 0 {
        lemma_ready_is_no_longer(queue.drop_last(), generation);
    }
}

/// A write in one pass is felt in the next: whatever a scheduled transaction
/// costs, a transaction that comes next and writes the same account is not
/// scheduled if the heat that is left after one generation reaches the
/// threshold.
pub proof fn law_writes_are_felt_in_the_next_pass(
    model: SchedulerModel,
    first: TransactionView,
    second: TransactionView,
    account: AccountId,
    budget: u64,
    other_budget: u64,
)
    requires
        model.deferred.len() == 0,
        first.account_keys == seq![account],
        first.writable == seq![true],
        second.account_keys.contains(account),
        second.account_keys.len() == second.writable.len(),
        forall|i: int| 0 <= i < second.writable.len() ==> #[trigger] second.writable[i],
        !model.cooled_hotspots().contains_key(account.0),
        model.config.conflict_threshold > 0,
        first.cost <= budget,
        model.config.initial_heat <= model.config.max_account_heat,
        model.config.max_generation_age > 0,
        decayed(model.config.initial_heat, 1, model.config.hotspot_decay_shift)
            >= model.config.conflict_threshold,
    ensures
        model.pass(seq![first], budget).admitted == seq![first],
        model.after_pass(seq![first], budget).pass(seq![second], other_budget).admitted.len() == 0,
        model.after_pass(seq![first], budget).pass(seq![second], other_budget).conflicts == 1,
{
    let none = Seq::<TransactionView>::empty();
    let next = model.next_generation();
    law_pass_begins_with_nothing_done(model, budget);
    law_empty_queue_has_nothing_waiting(model);
    law_one_more_transaction_is_tried_last(model, none, first, budget);
    law_generations_wrap(0, model.generation, 1);
    assert(none.push(first) == seq![first]);
    let start = model.pass(none, budget);
    let job = Job { tx: first, retry_count: 0 };
    let bare = TransactionView { account_keys: Seq::empty(), ..first };
    law_one_more_account_adds_its_heat(
        start.hotspots,
        bare,
        account,
        first.id,
        first.cost,
    );
    assert(bare.account_keys.push(account) == first.account_keys);
    law_when_a_job_is_scheduled(start, model.config, next, job);
    law_what_becomes_of_other_jobs(start, model.config, next, job);
    law_scheduled_jobs_heat_what_they_write(start, model.config, next, job, 0);
    let end = model.pass(seq![first], budget);
    assert(end.admitted =~= seq![first]);
    assert(end.postponed.len() == 0);

    let after = model.after_pass(seq![first], budget);
    assert(after.deferred =~= Seq::<DeferredView>::empty());
    let later = after.next_generation();
    let job2 = Job { tx: second, retry_count: 0 };
    law_pass_begins_with_nothing_done(after, other_budget);
    law_one_more_transaction_is_tried_last(after, none, second, other_budget);
    law_generations_wrap(0, after.generation, 1);
    assert(none.push(second) == seq![second]);
    let start2 = after.pass(none, other_budget);
    law_what_cooling_leaves(after.config.cooling(), after.hotspots, later, account.0);
    assert(start2.hotspots.contains_key(account.0));
    let i = choose|i: int|
        0 <= i < second.account_keys.len() && second.account_keys[i] == account;
    assert(second.writable[i]);
    law_score_covers_every_written_account(start2.hotspots, second, i);
    law_when_a_job_is_scheduled(start2, after.config, later, job2);
    law_what_becomes_of_other_jobs(start2, after.config, later, job2);
}

} // verus!

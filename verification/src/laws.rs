//! Laws of the scheduler, stated over the model that the contracts of
//! [`HybridScheduler`](crate::HybridScheduler) use.
use vstd::arithmetic::power2::{lemma2_to64, lemma_pow2_pos, lemma_pow2_strictly_increases, pow2};
use vstd::multiset::Multiset;
use vstd::prelude::*;
use vstd::seq_lib::lemma_multiset_commutative;

use crate::heat::{
    decayed, generation_after, generations_between, is_written, least, score, total_heat,
    HotAccountMeta,
};
use crate::heat_laws::{
    law_cooling_normalises, law_disjoint_writes_do_not_interfere, law_heat_is_bounded,
    law_heating_is_local, law_heating_records_writes, lemma_no_writes,
};
use crate::model::{
    backoff, first_attempts, lemma_attempt_all_counts, lemma_filter_comes_from, ready_in, retries,
    waiting_in, DeferredView, Job, PassState, SchedulerModel, Verdict, MAX_BACKOFF_EXPONENT,
};
use crate::types::{SchedulerConfig, SchedulingSummary, TransactionView};

verus! {

// Verdicts

/// What a transaction costs has no influence on whether it meets contention.
/// Once it does, neither its cost nor the budget has any influence on what
/// becomes of it: it is not scheduled, no budget is spent, one more conflict is
/// counted, and it is put off in the same way, or given up. A cost of zero
/// bypasses nothing.
pub proof fn law_cost_does_not_bypass_contention(
    config: SchedulerConfig,
    hotspots: Map<u64, HotAccountMeta>,
    generation: u32,
    tx: TransactionView,
    retry_count: u8,
    budget: u64,
    cost: u64,
    other_budget: u64,
)
    ensures
        ({
            let other = TransactionView { cost, ..tx };
            let a = PassState::start(hotspots, budget).attempt(
                config,
                generation,
                Job { tx, retry_count },
            );
            let b = PassState::start(hotspots, other_budget).attempt(
                config,
                generation,
                Job { tx: other, retry_count },
            );
            &&& config.contended(hotspots, tx) == config.contended(hotspots, other)
            &&& config.contended(hotspots, tx) ==> {
                &&& a.admitted.len() == 0 && b.admitted.len() == 0
                &&& a.budget == budget && b.budget == other_budget
                &&& a.hotspots == hotspots && b.hotspots == hotspots
                &&& a.conflicts == 1 && b.conflicts == 1
                &&& a.discarded.len() == b.discarded.len()
                &&& a.postponed.len() == b.postponed.len()
                &&& a.postponed.len() + a.discarded.len() == 1
                &&& a.postponed.len() == 1 ==> b.postponed[0] == (DeferredView {
                    tx: other,
                    ..a.postponed[0]
                })
            }
        }),
{
}

/// A transaction that only reads has no conflict score, whatever it reads, and
/// leaves every account as hot as it was.
pub proof fn law_reads_do_not_conflict(
    config: SchedulerConfig,
    hotspots: Map<u64, HotAccountMeta>,
    tx: TransactionView,
    generation: u32,
)
    requires
        forall|i: int| 0 <= i < tx.account_keys.len() ==> !is_written(tx.writable, i),
    ensures
        score(hotspots, tx.writes()) == 0,
        config.conflict_threshold > 0 ==> !config.contended(hotspots, tx),
        config.heating().mark(hotspots, tx.writes(), generation) == hotspots,
{
    lemma_no_writes(tx.numbers(), tx.writable, tx.account_keys.len());
}

/// A transaction is scheduled exactly if its accounts are cool enough and the
/// budget suffices. Otherwise it is given up if it has used up its retries, and
/// put off if it has not: for its backoff if it met contention, and until the
/// next generation if it did not.
pub proof fn law_what_is_decided(
    config: SchedulerConfig,
    hotspots: Map<u64, HotAccountMeta>,
    budget: u64,
    job: Job,
)
    ensures
        ({
            let cool = score(hotspots, job.tx.writes()) < config.conflict_threshold;
            let fits = job.tx.cost <= budget;
            let last = job.retry_count >= config.max_retry_count;
            let verdict = config.verdict(hotspots, budget, job);
            &&& verdict == Verdict::Schedule <==> cool && fits
            &&& verdict == Verdict::Drop <==> !(cool && fits) && last
            &&& !cool && !last ==> verdict == Verdict::Defer(backoff(job.retry_count))
            &&& cool && !fits && !last ==> verdict == Verdict::Defer(1)
        }),
{
}

/// A transaction that has used up its retries is scheduled or given up. It is
/// never put off again.
pub proof fn law_retries_are_bounded(
    config: SchedulerConfig,
    hotspots: Map<u64, HotAccountMeta>,
    budget: u64,
    job: Job,
)
    requires
        job.retry_count >= config.max_retry_count,
    ensures
        !(config.verdict(hotspots, budget, job) is Defer),
{
}

/// The backoff doubles with every retry until it reaches 256 generations, and
/// stays there.
pub proof fn law_backoff_doubles(retry_count: u8)
    ensures
        backoff(0) == 1,
        retry_count < 8 ==> backoff((retry_count + 1) as u8) == 2 * backoff(retry_count),
        retry_count >= 8 ==> backoff(retry_count) == 256,
        1 <= backoff(retry_count) <= 256,
{
    lemma2_to64();
    let exponent = least(retry_count as int, MAX_BACKOFF_EXPONENT as int) as nat;
    lemma_pow2_pos(exponent);
    if exponent < 8 {
        lemma_pow2_strictly_increases(exponent, 8);
        vstd::arithmetic::power2::lemma_pow2_unfold(exponent + 1);
        if exponent + 1 < 8 {
            lemma_pow2_strictly_increases(exponent + 1, 8);
        }
    }
}

/// What an attempt meets.
pub struct Moment {
    pub hotspots: Map<u64, HotAccountMeta>,
    pub budget: u64,
    pub generation: u32,
}

/// How often a transaction is put off that is tried in one moment after the
/// other for as long as it is put off, each time with the number of retries
/// that its entry in the queue has stored.
pub open spec fn times_put_off(
    config: SchedulerConfig,
    tx: TransactionView,
    retry_count: u8,
    moments: Seq<Moment>,
) -> nat
    decreases moments.len(),
{
    if moments.len() == 0 {
        0
    } else {
        let now = moments.first();
        let after = PassState::start(now.hotspots, now.budget).attempt(
            config,
            now.generation,
            Job { tx, retry_count },
        );
        if after.postponed.len() == 0 {
            0
        } else {
            1 + times_put_off(
                config,
                after.postponed[0].tx,
                after.postponed[0].retry_count,
                moments.drop_first(),
            )
        }
    }
}

/// A transaction is put off at most `max_retry_count` times, whatever the
/// accounts and the budgets are like: the attempt after that, if it comes to
/// it, schedules it or gives it up. With `max_retry_count` zero nothing is ever
/// put off.
pub proof fn law_put_off_at_most_max_retry_count_times(
    config: SchedulerConfig,
    tx: TransactionView,
    moments: Seq<Moment>,
)
    ensures
        times_put_off(config, tx, 0, moments) <= config.max_retry_count,
        moments.len() > config.max_retry_count ==> times_put_off(config, tx, 0, moments)
            < moments.len(),
{
    lemma_put_off_while_retries_last(config, tx, 0, moments);
}

proof fn lemma_put_off_while_retries_last(
    config: SchedulerConfig,
    tx: TransactionView,
    retry_count: u8,
    moments: Seq<Moment>,
)
    requires
        retry_count <= config.max_retry_count,
    ensures
        times_put_off(config, tx, retry_count, moments) + retry_count <= config.max_retry_count,
    decreases moments.len(),
{
    if moments.len() > 0 && retry_count < config.max_retry_count {
        lemma_put_off_while_retries_last(
            config,
            tx,
            (retry_count + 1) as u8,
            moments.drop_first(),
        );
    }
}

/// Whether an entry is due later than in `generation`, and no later than its
/// backoff allows, and has been retried at least once and not too often.
pub open spec fn well_timed(d: DeferredView, generation: u32, max_retry_count: u8) -> bool {
    &&& 1 <= d.retry_count <= max_retry_count
    &&& generation < d.ready_generation <= generation + backoff((d.retry_count - 1) as u8)
}

/// An attempt leaves a queue whose entries are well timed with entries that are
/// well timed: none is due in the generation that queued it, nor more than 256
/// generations ahead.
pub proof fn law_attempts_keep_the_queue_well_timed(
    queue: Seq<DeferredView>,
    config: SchedulerConfig,
    hotspots: Map<u64, HotAccountMeta>,
    budget: u64,
    generation: u32,
    job: Job,
)
    requires
        generation <= u32::MAX - 256,
        forall|i: int|
            0 <= i < queue.len() ==> well_timed(
                #[trigger] queue[i],
                generation,
                config.max_retry_count,
            ),
    ensures
        ({
            let after = queue + PassState::start(hotspots, budget).attempt(
                config,
                generation,
                job,
            ).postponed;
            forall|i: int|
                0 <= i < after.len() ==> {
                    &&& well_timed(#[trigger] after[i], generation, config.max_retry_count)
                    &&& after[i].ready_generation <= generation + 256
                }
        }),
{
    law_backoff_doubles(job.retry_count);
    let put_off = PassState::start(hotspots, budget).attempt(config, generation, job).postponed;
    let after = queue + put_off;
    assert forall|i: int| 0 <= i < after.len() implies {
        &&& well_timed(#[trigger] after[i], generation, config.max_retry_count)
        &&& after[i].ready_generation <= generation + 256
    } by {
        if i < queue.len() {
            assert(after[i] == queue[i]);
            law_backoff_doubles((queue[i].retry_count - 1) as u8);
        } else {
            assert(after[i] == put_off[i - queue.len()]);
        }
    }
}

// Determinism

/// What is seen of a scheduler over a number of calls: its state before the
/// first call and after each, and what each call reports.
pub struct History {
    pub states: Seq<SchedulerModel>,
    pub summaries: Seq<SchedulingSummary>,
}

impl History {
    /// Whether this is seen of a scheduler that was made with `config` and has
    /// scheduled `calls`, each a batch with its budget.
    pub open spec fn is_of(
        self,
        config: SchedulerConfig,
        calls: Seq<(Seq<TransactionView>, u64)>,
    ) -> bool {
        &&& self.states.len() == calls.len() + 1
        &&& self.summaries.len() == calls.len()
        &&& self.states[0] == SchedulerModel::initial(config)
        &&& forall|i: int|
            #![trigger self.summaries[i]]
            0 <= i < calls.len() ==> {
                &&& self.states[i + 1] == self.states[i].after_pass(calls[i].0, calls[i].1)
                &&& self.summaries[i] == self.states[i].summary(calls[i].0, calls[i].1)
            }
    }
}

/// Scheduling is deterministic: two schedulers that were made with the same
/// parameters and have scheduled the same batches with the same budgets have
/// reported the same and have counted the same after each call.
pub proof fn law_scheduling_is_deterministic(
    config: SchedulerConfig,
    calls: Seq<(Seq<TransactionView>, u64)>,
    a: History,
    b: History,
)
    requires
        a.is_of(config, calls),
        b.is_of(config, calls),
    ensures
        a.summaries == b.summaries,
        a.states == b.states,
        forall|i: int| 0 <= i <= calls.len() ==> #[trigger] a.states[i].metrics == b.states[i].metrics,
{
    assert forall|i: int| 0 <= i <= calls.len() implies #[trigger] a.states[i] == b.states[i] by {
        lemma_same_state(config, calls, a, b, i as nat);
    }
    assert forall|i: int| 0 <= i < calls.len() implies #[trigger] a.summaries[i] == b.summaries[i] by {
        assert(a.states[i] == b.states[i]);
    }
}

proof fn lemma_same_state(
    config: SchedulerConfig,
    calls: Seq<(Seq<TransactionView>, u64)>,
    a: History,
    b: History,
    n: nat,
)
    requires
        a.is_of(config, calls),
        b.is_of(config, calls),
        n <= calls.len(),
    ensures
        a.states[n as int] == b.states[n as int],
    decreases n,
{
    if n > 0 {
        lemma_same_state(config, calls, a, b, (n - 1) as nat);
        assert(a.summaries[n - 1] == a.states[n - 1].summary(calls[n - 1].0, calls[n - 1].1));
        assert(b.summaries[n - 1] == b.states[n - 1].summary(calls[n - 1].0, calls[n - 1].1));
    }
}

// Accounting

/// The jobs of a pass are the ready deferred transactions and the fresh ones,
/// and each is scheduled, put off or given up.
pub proof fn law_pass_accounts_for_every_job(
    model: SchedulerModel,
    txs: Seq<TransactionView>,
    budget: u64,
)
    ensures
        ({
            let end = model.pass(txs, budget);
            &&& model.jobs(txs).len() == model.ready().len() + txs.len()
            &&& end.admitted.len() + end.postponed.len() + end.discarded.len() == model.jobs(txs).len()
        }),
{
    lemma_attempt_all_counts(
        PassState::start(model.cooled_hotspots(), budget),
        model.config,
        model.next_generation(),
        model.jobs(txs),
    );
}

/// What a summary reports as scheduled, deferred and dropped adds up to what
/// it reports as scanned.
pub proof fn law_summary_adds_up(model: SchedulerModel, txs: Seq<TransactionView>, budget: u64)
    requires
        model.counters_fit(txs, budget),
    ensures
        ({
            let summary = model.summary(txs, budget);
            summary.scheduled + summary.deferred + summary.dropped == summary.scanned
        }),
{
    law_pass_accounts_for_every_job(model, txs, budget);
}

/// The transactions of jobs.
pub open spec fn job_txs(jobs: Seq<Job>) -> Multiset<TransactionView> {
    jobs.map_values(|job: Job| job.tx).to_multiset()
}

/// The transactions of deferred entries.
pub open spec fn deferred_txs(queue: Seq<DeferredView>) -> Multiset<TransactionView> {
    queue.map_values(|d: DeferredView| d.tx).to_multiset()
}

/// No transaction is lost and none is made up: those that wait before a pass,
/// together with the fresh ones, are those that were scheduled, given up, or
/// wait after it.
pub proof fn law_no_transaction_is_lost(
    model: SchedulerModel,
    txs: Seq<TransactionView>,
    budget: u64,
)
    ensures
        ({
            let end = model.pass(txs, budget);
            let after = model.after_pass(txs, budget);
            &&& deferred_txs(model.deferred).add(txs.to_multiset()) =~= deferred_txs(
                after.deferred,
            ).add(end.admitted.to_multiset()).add(end.discarded.to_multiset())
            &&& model.deferred.len() + txs.len() == after.deferred.len() + end.admitted.len()
                + end.discarded.len()
        }),
{
    let end = model.pass(txs, budget);
    let start = PassState::start(model.cooled_hotspots(), budget);
    let generation = model.next_generation();
    lemma_split_keeps_all(model.deferred, generation);
    lemma_attempts_keep_all(start, model.config, generation, model.jobs(txs));
    lemma_attempt_all_counts(start, model.config, generation, model.jobs(txs));
    lemma_deferred_txs_of_sum(model.waiting(), end.postponed);
    let retried = retries(model.ready()).map_values(|job: Job| job.tx);
    let fresh = first_attempts(txs).map_values(|job: Job| job.tx);
    lemma_multiset_commutative(retried, fresh);
    assert(model.jobs(txs).map_values(|job: Job| job.tx) == retried + fresh);
    assert(retried == model.ready().map_values(|d: DeferredView| d.tx));
    assert(fresh == txs);
    assert(start.postponed.map_values(|d: DeferredView| d.tx) == Seq::<TransactionView>::empty());
    broadcast use {vstd::seq_lib::group_to_multiset_ensures, vstd::multiset::group_multiset_axioms};

    assert(Seq::<TransactionView>::empty().to_multiset() == Multiset::<TransactionView>::empty());
    assert(job_txs(model.jobs(txs)) == deferred_txs(model.ready()).add(txs.to_multiset()));
    assert(handled_txs(start) == Multiset::<TransactionView>::empty());
    assert(handled_txs(end) == job_txs(model.jobs(txs)));
    assert(deferred_txs(model.deferred).add(txs.to_multiset()) == deferred_txs(model.waiting()).add(
        job_txs(model.jobs(txs)),
    ));
    assert(deferred_txs(model.waiting()).add(handled_txs(end)) == deferred_txs(
        model.waiting() + end.postponed,
    ).add(end.admitted.to_multiset()).add(end.discarded.to_multiset()));
}

proof fn lemma_deferred_txs_of_sum(a: Seq<DeferredView>, b: Seq<DeferredView>)
    ensures
        deferred_txs(a + b) == deferred_txs(a).add(deferred_txs(b)),
{
    let f = |d: DeferredView| d.tx;
    lemma_multiset_commutative(a.map_values(f), b.map_values(f));
    assert((a + b).map_values(f) == a.map_values(f) + b.map_values(f));
}

proof fn lemma_deferred_txs_of_push(queue: Seq<DeferredView>, d: DeferredView)
    ensures
        deferred_txs(queue.push(d)) == deferred_txs(queue).insert(d.tx),
{
    broadcast use {vstd::seq_lib::group_to_multiset_ensures, vstd::multiset::group_multiset_axioms};

    let f = |d: DeferredView| d.tx;
    assert(queue.push(d).map_values(f) == queue.map_values(f).push(d.tx));
}

/// The queue is the ready part and the waiting part together.
proof fn lemma_split_keeps_all(queue: Seq<DeferredView>, generation: u32)
    ensures
        deferred_txs(queue) == deferred_txs(waiting_in(queue, generation)).add(
            deferred_txs(ready_in(queue, generation)),
        ),
        queue.len() == waiting_in(queue, generation).len() + ready_in(queue, generation).len(),
    decreases queue.len(),
{
    reveal(Seq::filter);
    if queue.len() > 0 {
        let shorter = queue.drop_last();
        lemma_split_keeps_all(shorter, generation);
        assert(queue == shorter.push(queue.last()));
        lemma_deferred_txs_of_push(shorter, queue.last());
        lemma_deferred_txs_of_push(waiting_in(shorter, generation), queue.last());
        lemma_deferred_txs_of_push(ready_in(shorter, generation), queue.last());
    } else {
        lemma_no_deferred_txs();
        assert(queue == Seq::<DeferredView>::empty());
        assert(waiting_in(queue, generation) == Seq::<DeferredView>::empty());
        assert(ready_in(queue, generation) == Seq::<DeferredView>::empty());
    }
}

proof fn lemma_no_deferred_txs()
    ensures
        deferred_txs(Seq::<DeferredView>::empty()) == Multiset::<TransactionView>::empty(),
{
    broadcast use {vstd::seq_lib::group_to_multiset_ensures, vstd::multiset::group_multiset_axioms};

    assert(Seq::<DeferredView>::empty().map_values(|d: DeferredView| d.tx)
        == Seq::<TransactionView>::empty());
    assert(Seq::<TransactionView>::empty().to_multiset() == Multiset::<TransactionView>::empty());
}

/// The transactions that a pass has dealt with.
spec fn handled_txs(state: PassState) -> Multiset<TransactionView> {
    state.admitted.to_multiset().add(state.discarded.to_multiset()).add(
        deferred_txs(state.postponed),
    )
}

/// The lists of a pass hold the transactions of the jobs it has tried.
proof fn lemma_attempts_keep_all(
    start: PassState,
    config: SchedulerConfig,
    generation: u32,
    jobs: Seq<Job>,
)
    ensures
        handled_txs(start.attempt_all(config, generation, jobs)) == handled_txs(start).add(
            job_txs(jobs),
        ),
    decreases jobs.len(),
{
    broadcast use {vstd::seq_lib::group_to_multiset_ensures, vstd::multiset::group_multiset_axioms};

    if jobs.len() > 0 {
        let earlier = start.attempt_all(config, generation, jobs.drop_last());
        let end = earlier.attempt(config, generation, jobs.last());
        let f = |job: Job| job.tx;
        lemma_attempts_keep_all(start, config, generation, jobs.drop_last());
        assert(jobs.map_values(f) == jobs.drop_last().map_values(f).push(jobs.last().tx));
        assert(job_txs(jobs) == job_txs(jobs.drop_last()).insert(jobs.last().tx));
        match config.verdict(earlier.hotspots, earlier.budget, jobs.last()) {
            Verdict::Schedule => {
                assert(end.admitted.to_multiset() == earlier.admitted.to_multiset().insert(
                    jobs.last().tx,
                ));
            },
            Verdict::Defer(_) => {
                lemma_deferred_txs_of_push(earlier.postponed, end.postponed.last());
                assert(end.postponed == earlier.postponed.push(end.postponed.last()));
            },
            Verdict::Drop => {
                assert(end.discarded.to_multiset() == earlier.discarded.to_multiset().insert(
                    jobs.last().tx,
                ));
            },
        }
        assert(handled_txs(end) == handled_txs(earlier).insert(jobs.last().tx));
        assert(handled_txs(start).add(job_txs(jobs)) == handled_txs(start).add(
            job_txs(jobs.drop_last()),
        ).insert(jobs.last().tx));
    } else {
        assert(jobs.map_values(|job: Job| job.tx) == Seq::<TransactionView>::empty());
        assert(Seq::<TransactionView>::empty().to_multiset()
            == Multiset::<TransactionView>::empty());
        assert(handled_txs(start).add(job_txs(jobs)) == handled_txs(start));
    }
}

// Counters and budget

/// The generation grows by one with every pass, until the counter wraps.
pub proof fn law_generation_advances(model: SchedulerModel, txs: Seq<TransactionView>, budget: u64)
    requires
        model.generation < u32::MAX,
    ensures
        model.after_pass(txs, budget).generation == model.generation + 1,
        model.summary(txs, budget).generation == model.generation + 1,
        model.summary(txs, budget).generation > 0,
{
}

/// No cumulative counter ever goes back, and after a pass at least one pass has
/// been counted. The other two counters tell what is in the queue and in the
/// table.
pub proof fn law_counters_never_go_back(
    model: SchedulerModel,
    txs: Seq<TransactionView>,
    budget: u64,
)
    requires
        model.counters_fit(txs, budget),
    ensures
        ({
            let before = model.metrics;
            let after = model.after_pass(txs, budget).metrics;
            let summary = model.summary(txs, budget);
            &&& after.scheduler_passes == before.scheduler_passes + 1
            &&& after.scheduler_passes >= 1
            &&& after.scheduled_txs == before.scheduled_txs + summary.scheduled
            &&& after.dropped_txs == before.dropped_txs + summary.dropped
            &&& before.lock_conflicts <= after.lock_conflicts <= before.lock_conflicts
                + summary.scanned
            &&& model.after_pass(txs, budget).deferred.len() <= u64::MAX ==> after.deferred_txs
                == model.after_pass(txs, budget).deferred.len()
            &&& model.after_pass(txs, budget).hotspots.len() <= u64::MAX ==> after.hot_accounts
                == model.after_pass(txs, budget).hotspots.len()
        }),
{
    law_pass_accounts_for_every_job(model, txs, budget);
    lemma_attempt_all_counts(
        PassState::start(model.cooled_hotspots(), budget),
        model.config,
        model.next_generation(),
        model.jobs(txs),
    );
}

/// What a list of transactions costs.
pub open spec fn total_cost(txs: Seq<TransactionView>) -> nat
    decreases txs.len(),
{
    if txs.len() == 0 {
        0
    } else {
        total_cost(txs.drop_last()) + txs.last().cost as nat
    }
}

/// A pass spends exactly what the transactions it schedules cost, and never
/// more than its budget.
pub proof fn law_budget_is_respected(model: SchedulerModel, txs: Seq<TransactionView>, budget: u64)
    ensures
        total_cost(model.pass(txs, budget).admitted) + model.pass(txs, budget).budget == budget,
        total_cost(model.pass(txs, budget).admitted) <= budget,
{
    lemma_spending(
        PassState::start(model.cooled_hotspots(), budget),
        model.config,
        model.next_generation(),
        model.jobs(txs),
    );
}

proof fn lemma_spending(
    start: PassState,
    config: SchedulerConfig,
    generation: u32,
    jobs: Seq<Job>,
)
    ensures
        ({
            let end = start.attempt_all(config, generation, jobs);
            total_cost(end.admitted) + end.budget == total_cost(start.admitted) + start.budget
        }),
    decreases jobs.len(),
{
    if jobs.len() > 0 {
        let earlier = start.attempt_all(config, generation, jobs.drop_last());
        lemma_spending(start, config, generation, jobs.drop_last());
        assert(earlier.admitted.push(jobs.last().tx).drop_last() == earlier.admitted);
    }
}

/// Running out of budget is no conflict: where no job meets contention, none
/// is counted, whatever is put off.
pub proof fn law_budget_exhaustion_is_no_conflict(
    config: SchedulerConfig,
    generation: u32,
    state: PassState,
    job: Job,
)
    requires
        !config.contended(state.hotspots, job.tx),
        job.tx.cost > state.budget,
        job.retry_count < config.max_retry_count,
    ensures
        ({
            let after = state.attempt(config, generation, job);
            &&& after.conflicts == state.conflicts
            &&& after.hotspots == state.hotspots
            &&& after.postponed == state.postponed.push(
                DeferredView {
                    tx: job.tx,
                    retry_count: (job.retry_count + 1) as u8,
                    ready_generation: generation_after(generation, 1),
                },
            )
        }),
{
}

// Heat

/// All records are of this generation.
pub open spec fn up_to_date(hotspots: Map<u64, HotAccountMeta>, generation: u32) -> bool {
    forall|k: u64| #[trigger] hotspots.contains_key(k) ==> hotspots[k].generation == generation
}

/// Whatever a pass reads of the heat of accounts is up to date: at its start,
/// and after any number of its jobs, every record is of its generation.
pub proof fn law_heat_is_up_to_date(
    model: SchedulerModel,
    jobs: Seq<Job>,
    budget: u64,
)
    ensures
        up_to_date(model.cooled_hotspots(), model.next_generation()),
        up_to_date(
            PassState::start(model.cooled_hotspots(), budget).attempt_all(
                model.config,
                model.next_generation(),
                jobs,
            ).hotspots,
            model.next_generation(),
        ),
    decreases jobs.len(),
{
    let generation = model.next_generation();
    let start = PassState::start(model.cooled_hotspots(), budget);
    assert forall|k: u64| #[trigger] model.cooled_hotspots().contains_key(k) implies
        model.cooled_hotspots()[k].generation == generation by {
        law_cooling_normalises(model.config.cooling(), model.hotspots, generation, k);
    }
    if jobs.len() > 0 {
        law_heat_is_up_to_date(model, jobs.drop_last(), budget);
        let earlier = start.attempt_all(model.config, generation, jobs.drop_last());
        let written = jobs.last().tx.writes();
        let marked = model.config.heating().mark(earlier.hotspots, written, generation);
        assert forall|k: u64| #[trigger] marked.contains_key(k) implies marked[k].generation
            == generation by {
            if written.contains(k) {
                law_heating_records_writes(
                    model.config.heating(),
                    earlier.hotspots,
                    written,
                    generation,
                    k,
                );
            } else {
                law_heating_is_local(
                    model.config.heating(),
                    earlier.hotspots,
                    written,
                    generation,
                    k,
                );
            }
        }
    }
}

/// No account is hotter than `max_account_heat`.
pub open spec fn heat_within_bounds(
    hotspots: Map<u64, HotAccountMeta>,
    config: SchedulerConfig,
) -> bool {
    forall|k: u64| #[trigger]
        hotspots.contains_key(k) ==> hotspots[k].heat <= config.max_account_heat
}

/// `max_account_heat` is the ceiling of heat: no write makes an account hotter,
/// not even the first, and no pass does.
pub proof fn law_heat_stays_within_bounds(
    model: SchedulerModel,
    txs: Seq<TransactionView>,
    budget: u64,
)
    requires
        heat_within_bounds(model.hotspots, model.config),
    ensures
        heat_within_bounds(model.after_pass(txs, budget).hotspots, model.config),
{
    let cooled = model.cooled_hotspots();
    assert forall|k: u64| #[trigger] cooled.contains_key(k) implies cooled[k].heat
        <= model.config.max_account_heat by {
        law_cooling_normalises(
            model.config.cooling(),
            model.hotspots,
            model.next_generation(),
            k,
        );
    }
    lemma_bounds_kept(
        PassState::start(cooled, budget),
        model.config,
        model.next_generation(),
        model.jobs(txs),
    );
}

proof fn lemma_bounds_kept(
    start: PassState,
    config: SchedulerConfig,
    generation: u32,
    jobs: Seq<Job>,
)
    requires
        heat_within_bounds(start.hotspots, config),
    ensures
        heat_within_bounds(start.attempt_all(config, generation, jobs).hotspots, config),
    decreases jobs.len(),
{
    if jobs.len() > 0 {
        let earlier = start.attempt_all(config, generation, jobs.drop_last());
        lemma_bounds_kept(start, config, generation, jobs.drop_last());
        law_heat_is_bounded(
            config.heating(),
            earlier.hotspots,
            jobs.last().tx.writes(),
            generation,
            config.max_account_heat,
        );
    }
}

/// Whether every account has been written within `max_generation_age`
/// generations.
pub open spec fn recently_written(model: SchedulerModel) -> bool {
    forall|k: u64| #[trigger]
        model.hotspots.contains_key(k) ==> generations_between(
            model.generation,
            model.hotspots[k].touched,
        ) <= model.config.max_generation_age
}

/// After any pass, every account that is still hot has been written within
/// `max_generation_age` generations, whether heat decays or not. A new
/// scheduler knows no hot accounts.
pub proof fn law_accounts_are_forgotten_by_age(
    model: SchedulerModel,
    txs: Seq<TransactionView>,
    budget: u64,
)
    ensures
        recently_written(SchedulerModel::initial(model.config)),
        recently_written(model.after_pass(txs, budget)),
{
    let cooled = SchedulerModel {
        generation: model.next_generation(),
        hotspots: model.cooled_hotspots(),
        ..model
    };
    assert forall|k: u64| #[trigger] cooled.hotspots.contains_key(k) implies generations_between(
        cooled.generation,
        cooled.hotspots[k].touched,
    ) <= model.config.max_generation_age by {
        law_cooling_normalises(
            model.config.cooling(),
            model.hotspots,
            model.next_generation(),
            k,
        );
    }
    lemma_attempts_keep_accounts_recent(cooled, budget, model.jobs(txs));
    let after = model.after_pass(txs, budget);
    let end = SchedulerModel { hotspots: model.pass(txs, budget).hotspots, ..cooled };
    assert(recently_written(end));
    assert forall|k: u64| #[trigger] after.hotspots.contains_key(k) implies generations_between(
        after.generation,
        after.hotspots[k].touched,
    ) <= after.config.max_generation_age by {
        assert(end.hotspots.contains_key(k));
    }
}

proof fn lemma_attempts_keep_accounts_recent(model: SchedulerModel, budget: u64, jobs: Seq<Job>)
    requires
        recently_written(model),
    ensures
        recently_written(
            SchedulerModel {
                hotspots: PassState::start(model.hotspots, budget).attempt_all(
                    model.config,
                    model.generation,
                    jobs,
                ).hotspots,
                ..model
            },
        ),
    decreases jobs.len(),
{
    if jobs.len() > 0 {
        lemma_attempts_keep_accounts_recent(model, budget, jobs.drop_last());
        let earlier = PassState::start(model.hotspots, budget).attempt_all(
            model.config,
            model.generation,
            jobs.drop_last(),
        ).hotspots;
        let before = SchedulerModel { hotspots: earlier, ..model };
        let heating = model.config.heating();
        let written = jobs.last().tx.writes();
        let marked = heating.mark(earlier, written, model.generation);
        assert forall|k: u64| #[trigger] marked.contains_key(k) implies generations_between(
            model.generation,
            marked[k].touched,
        ) <= model.config.max_generation_age by {
            if written.contains(k) {
                law_heating_records_writes(heating, earlier, written, model.generation, k);
            } else {
                law_heating_is_local(heating, earlier, written, model.generation, k);
                assert(before.hotspots.contains_key(k));
            }
        }
    }
}

/// Whether no account has been written for `age` generations.
spec fn unwritten_for(model: SchedulerModel, age: int) -> bool {
    forall|k: u64| #[trigger]
        model.hotspots.contains_key(k) ==> generations_between(
            model.generation,
            model.hotspots[k].touched,
        ) >= age
}

/// Accounts that are not written any more are forgotten after
/// `max_generation_age` generations, even if heat does not decay.
pub proof fn law_untouched_accounts_are_forgotten(model: SchedulerModel, budgets: Seq<u64>)
    requires
        model.deferred.len() == 0,
        recently_written(model),
        model.config.max_generation_age < u32::MAX,
        budgets.len() > model.config.max_generation_age,
    ensures
        after_idle_passes(model, budgets).hotspots == Map::<u64, HotAccountMeta>::empty(),
{
    lemma_idle_passes_age_accounts(model, budgets, 0);
}

proof fn lemma_idle_passes_age_accounts(model: SchedulerModel, budgets: Seq<u64>, age: int)
    requires
        model.deferred.len() == 0,
        recently_written(model),
        unwritten_for(model, age),
        model.config.max_generation_age < u32::MAX,
        0 <= age,
        budgets.len() + age > model.config.max_generation_age,
    ensures
        after_idle_passes(model, budgets).hotspots == Map::<u64, HotAccountMeta>::empty(),
    decreases budgets.len(),
{
    if budgets.len() == 0 {
        assert(model.hotspots =~= Map::<u64, HotAccountMeta>::empty());
    } else {
        let after = model.after_pass(Seq::empty(), budgets.first());
        lemma_idle_pass_only_cools(model, budgets.first());
        law_accounts_are_forgotten_by_age(model, Seq::empty(), budgets.first());
        assert forall|k: u64| #[trigger] after.hotspots.contains_key(k) implies generations_between(
            after.generation,
            after.hotspots[k].touched,
        ) >= age + 1 by {
            law_cooling_normalises(model.config.cooling(), model.hotspots, after.generation, k);
            assert(model.hotspots.contains_key(k));
        }
        lemma_idle_passes_age_accounts(after, budgets.drop_first(), age + 1);
    }
}

/// A pass without work cools the accounts and does nothing else.
proof fn lemma_idle_pass_only_cools(model: SchedulerModel, budget: u64)
    requires
        model.deferred.len() == 0,
    ensures
        ({
            let after = model.after_pass(Seq::empty(), budget);
            &&& after.deferred.len() == 0
            &&& after.config == model.config
            &&& after.generation == model.next_generation()
            &&& after.hotspots == model.cooled_hotspots()
        }),
{
    reveal(Seq::filter);
    assert(model.deferred == Seq::<DeferredView>::empty());
    assert(model.jobs(Seq::empty()) == Seq::<Job>::empty());
}

/// Whether every record is of the generation of the scheduler, and its heat
/// takes at most `bits` bits.
pub open spec fn heat_in_bits(model: SchedulerModel, bits: nat) -> bool {
    forall|k: u64| #[trigger]
        model.hotspots.contains_key(k) ==> {
            &&& model.hotspots[k].generation == model.generation
            &&& model.hotspots[k].heat < pow2(bits)
        }
}

/// Accounts that are not written any more cool down: if heat decays at all, 16
/// passes without work leave no account hot.
pub proof fn law_idle_accounts_cool_down(model: SchedulerModel, budgets: Seq<u64>)
    requires
        model.deferred.len() == 0,
        up_to_date(model.hotspots, model.generation),
        model.config.hotspot_decay_shift > 0,
        budgets.len() >= 16,
    ensures
        after_idle_passes(model, budgets).hotspots == Map::<u64, HotAccountMeta>::empty(),
{
    lemma2_to64();
    assert(heat_in_bits(model, 16));
    lemma_idle_passes_take_bits(model, budgets, 16);
}

/// A pass without work takes a bit of heat off every account, and forgets those
/// that had only one.
proof fn lemma_idle_pass_takes_a_bit(model: SchedulerModel, budget: u64, bits: nat)
    requires
        model.deferred.len() == 0,
        heat_in_bits(model, bits),
        model.config.hotspot_decay_shift > 0,
        bits == 0 ==> model.hotspots == Map::<u64, HotAccountMeta>::empty(),
    ensures
        ({
            let after = model.after_pass(Seq::empty(), budget);
            &&& after.deferred.len() == 0
            &&& after.config == model.config
            &&& bits > 0 ==> heat_in_bits(after, (bits - 1) as nat)
            &&& bits <= 1 ==> after.hotspots == Map::<u64, HotAccountMeta>::empty()
        }),
{
    lemma2_to64();
    lemma_idle_pass_only_cools(model, budget);
    let after = model.after_pass(Seq::empty(), budget);
    let shift = model.config.hotspot_decay_shift;
    assert forall|k: u64| #[trigger] after.hotspots.contains_key(k) implies {
        &&& bits > 0
        &&& after.hotspots[k].generation == after.generation
        &&& 0 < after.hotspots[k].heat < pow2((bits - 1) as nat)
    } by {
        let before = model.hotspots[k];
        law_cooling_normalises(model.config.cooling(), model.hotspots, after.generation, k);
        assert(generations_between(after.generation, before.generation) == 1);
        lemma_decay_takes_a_bit(before.heat, shift);
        vstd::arithmetic::power2::lemma_pow2_unfold(bits);
    }
    if bits <= 1 {
        assert(after.hotspots =~= Map::<u64, HotAccountMeta>::empty());
    }
}

proof fn lemma_decay_takes_a_bit(heat: u16, shift: u32)
    requires
        shift > 0,
    ensures
        decayed(heat, 1, shift) <= heat / 2,
{
    lemma2_to64();
    let bits = (1 * shift) as nat;
    lemma_pow2_pos(bits);
    if bits > 1 {
        lemma_pow2_strictly_increases(1, bits);
    }
    vstd::arithmetic::div_mod::lemma_div_is_ordered_by_denominator(
        heat as int,
        2,
        pow2(bits) as int,
    );
}

proof fn lemma_idle_passes_take_bits(model: SchedulerModel, budgets: Seq<u64>, bits: nat)
    requires
        model.deferred.len() == 0,
        heat_in_bits(model, bits),
        model.config.hotspot_decay_shift > 0,
        bits <= budgets.len(),
        bits == 0 ==> model.hotspots == Map::<u64, HotAccountMeta>::empty(),
    ensures
        after_idle_passes(model, budgets).hotspots == Map::<u64, HotAccountMeta>::empty(),
    decreases budgets.len(),
{
    if budgets.len() > 0 {
        lemma_idle_pass_takes_a_bit(model, budgets.first(), bits);
        let after = model.after_pass(Seq::empty(), budgets.first());
        let fewer = if bits == 0 {
            0
        } else {
            (bits - 1) as nat
        };
        lemma_idle_passes_take_bits(after, budgets.drop_first(), fewer);
    }
}

// The retry queue

/// A pass first turns to the entries whose backoff has elapsed, in the order in
/// which they were put off, and then to the fresh transactions, in the order
/// in which they came.
pub proof fn law_retries_come_first(model: SchedulerModel, txs: Seq<TransactionView>)
    ensures
        ({
            let ready = model.deferred.filter(
                |d: DeferredView| d.ready_generation <= model.next_generation(),
            );
            let jobs = model.jobs(txs);
            &&& jobs.len() == ready.len() + txs.len()
            &&& forall|i: int|
                0 <= i < ready.len() ==> #[trigger] jobs[i] == (Job {
                    tx: ready[i].tx,
                    retry_count: ready[i].retry_count,
                })
            &&& forall|i: int|
                0 <= i < txs.len() ==> #[trigger] jobs[ready.len() + i] == (Job {
                    tx: txs[i],
                    retry_count: 0,
                })
        }),
{
}

/// Whether an entry of the retry queue is one that a pass may have left there
/// by `generation`: it has failed at least once, has not used up its retries,
/// and does not wait longer than its backoff.
pub open spec fn settled_entry(d: DeferredView, generation: u32, max_retry_count: u8) -> bool {
    &&& 1 <= d.retry_count <= max_retry_count
    &&& d.ready_generation <= generation + backoff((d.retry_count - 1) as u8)
}

/// Whether every entry of the retry queue is one that a pass may have left.
pub open spec fn settled(model: SchedulerModel) -> bool {
    forall|i: int|
        0 <= i < model.deferred.len() ==> settled_entry(
            #[trigger] model.deferred[i],
            model.generation,
            model.config.max_retry_count,
        )
}

/// A new scheduler has nothing in its retry queue that could not be there.
pub proof fn law_initially_settled(config: SchedulerConfig)
    ensures
        settled(SchedulerModel::initial(config)),
{
}

/// Passes leave nothing in the retry queue that could not be there. (The
/// generation must not wrap: entries that wait for a generation before the
/// wrap would wait for a long time.)
pub proof fn law_passes_stay_settled(model: SchedulerModel, txs: Seq<TransactionView>, budget: u64)
    requires
        settled(model),
        model.generation < u32::MAX,
    ensures
        settled(model.after_pass(txs, budget)),
{
    let after = model.after_pass(txs, budget);
    let generation = model.next_generation();
    let end = model.pass(txs, budget);
    assert forall|i: int| 0 <= i < after.deferred.len() implies settled_entry(
        #[trigger] after.deferred[i],
        after.generation,
        after.config.max_retry_count,
    ) by {
        let n = model.waiting().len();
        if i < n {
            lemma_waiting_comes_from_queue(model, i);
        } else {
            let d = end.postponed[i - n];
            assert(after.deferred[i] == d);
            let _ = lemma_postponed_comes_from_job(model, txs, budget, i - n);
        }
    }
}

proof fn lemma_waiting_comes_from_queue(model: SchedulerModel, i: int)
    requires
        0 <= i < model.waiting().len(),
    ensures
        model.deferred.contains(model.waiting()[i]),
        model.waiting()[i].ready_generation > model.next_generation(),
{
    lemma_filter_comes_from(
        model.deferred,
        |d: DeferredView| d.ready_generation > model.next_generation(),
        model.waiting()[i],
    );
}

proof fn lemma_ready_comes_from_queue(model: SchedulerModel, i: int)
    requires
        0 <= i < model.ready().len(),
    ensures
        model.deferred.contains(model.ready()[i]),
        model.ready()[i].ready_generation <= model.next_generation(),
{
    lemma_filter_comes_from(
        model.deferred,
        |d: DeferredView| d.ready_generation <= model.next_generation(),
        model.ready()[i],
    );
}

/// An entry that a pass puts off stems from one of its jobs, which had retries
/// left, and waits no longer than its backoff.
proof fn lemma_postponed_comes_from_job(
    model: SchedulerModel,
    txs: Seq<TransactionView>,
    budget: u64,
    i: int,
) -> (j: int)
    requires
        0 <= i < model.pass(txs, budget).postponed.len(),
    ensures
        0 <= j < model.jobs(txs).len(),
        ({
            let d = model.pass(txs, budget).postponed[i];
            let job = model.jobs(txs)[j];
            &&& job.retry_count < model.config.max_retry_count
            &&& d.retry_count == job.retry_count + 1
            &&& d.ready_generation <= model.next_generation() + backoff(job.retry_count)
        }),
{
    lemma_postponed_comes_from_jobs(
        PassState::start(model.cooled_hotspots(), budget),
        model.config,
        model.next_generation(),
        model.jobs(txs),
        i,
    )
}

proof fn lemma_postponed_comes_from_jobs(
    start: PassState,
    config: SchedulerConfig,
    generation: u32,
    jobs: Seq<Job>,
    i: int,
) -> (j: int)
    requires
        start.postponed.len() <= i < start.attempt_all(config, generation, jobs).postponed.len(),
    ensures
        0 <= j < jobs.len(),
        ({
            let d = start.attempt_all(config, generation, jobs).postponed[i];
            &&& jobs[j].retry_count < config.max_retry_count
            &&& d.retry_count == jobs[j].retry_count + 1
            &&& d.ready_generation <= generation + backoff(jobs[j].retry_count)
        }),
    decreases jobs.len(),
{
    let earlier = start.attempt_all(config, generation, jobs.drop_last());
    if i < earlier.postponed.len() {
        let j = lemma_postponed_comes_from_jobs(start, config, generation, jobs.drop_last(), i);
        assert(jobs[j] == jobs.drop_last()[j]);
        j
    } else {
        law_backoff_doubles(jobs.last().retry_count);
        jobs.len() - 1
    }
}

/// A deferred transaction is scheduled, and leaves the queue, in the first pass
/// in which its backoff has elapsed, its accounts have cooled down and the
/// budget suffices, if no other transaction gets in its way.
pub proof fn law_retry_succeeds_when_the_way_is_clear(
    model: SchedulerModel,
    d: DeferredView,
    budget: u64,
)
    requires
        model.deferred == seq![d],
        d.ready_generation <= model.next_generation(),
        !model.config.contended(model.cooled_hotspots(), d.tx),
        d.tx.cost <= budget,
    ensures
        model.summary(Seq::empty(), budget).scheduled == 1,
        model.pass(Seq::empty(), budget).admitted == seq![d.tx],
        model.after_pass(Seq::empty(), budget).deferred == Seq::<DeferredView>::empty(),
{
    reveal_with_fuel(Seq::filter, 3);
    assert(model.deferred.drop_last() == Seq::<DeferredView>::empty());
    assert(model.ready() == seq![d]);
    assert(model.waiting() == Seq::<DeferredView>::empty());
    let jobs = model.jobs(Seq::empty());
    assert(jobs == seq![Job { tx: d.tx, retry_count: d.retry_count }]);
    assert(jobs.drop_last() == Seq::<Job>::empty());
    reveal_with_fuel(PassState::attempt_all, 3);
    assert(model.pass(Seq::empty(), budget).admitted == seq![d.tx]);
    assert(model.pass(Seq::empty(), budget).postponed == Seq::<DeferredView>::empty());
}

/// Sum of the backoffs of the retries from `first` up to, not including,
/// `limit`.
pub open spec fn total_backoff(first: nat, limit: nat) -> nat
    decreases limit - first,
{
    if first >= limit {
        0
    } else {
        backoff(first as u8) as nat + total_backoff(first + 1, limit)
    }
}

/// Number of passes after which an entry has left the queue for good, at the
/// latest, if it is ready in `ready_generation` and has been retried
/// `retry_count` times.
pub open spec fn lifetime(
    ready_generation: u32,
    retry_count: u8,
    generation: u32,
    max_retry_count: u8,
) -> nat {
    let delay = if ready_generation > generation {
        (ready_generation - generation) as nat
    } else {
        1
    };
    delay + total_backoff(retry_count as nat, max_retry_count as nat)
}

/// Whether no entry stays for more than `bound` passes.
pub open spec fn leaves_within(model: SchedulerModel, bound: int) -> bool {
    forall|i: int|
        0 <= i < model.deferred.len() ==> lifetime(
            #[trigger] model.deferred[i].ready_generation,
            model.deferred[i].retry_count,
            model.generation,
            model.config.max_retry_count,
        ) <= bound
}

/// The scheduler after passes without fresh transactions, one for each of
/// `budgets`.
pub open spec fn after_idle_passes(model: SchedulerModel, budgets: Seq<u64>) -> SchedulerModel
    decreases budgets.len(),
{
    if budgets.len() == 0 {
        model
    } else {
        after_idle_passes(model.after_pass(Seq::empty(), budgets.first()), budgets.drop_first())
    }
}

/// Every pass brings each entry of the queue one pass closer to leaving it.
pub proof fn law_every_pass_shortens_the_wait(model: SchedulerModel, budget: u64, bound: int)
    requires
        model.generation < u32::MAX,
        leaves_within(model, bound),
    ensures
        leaves_within(model.after_pass(Seq::empty(), budget), bound - 1),
{
    let txs = Seq::<TransactionView>::empty();
    let after = model.after_pass(txs, budget);
    let end = model.pass(txs, budget);
    let max = model.config.max_retry_count;
    assert forall|i: int| 0 <= i < after.deferred.len() implies lifetime(
        #[trigger] after.deferred[i].ready_generation,
        after.deferred[i].retry_count,
        after.generation,
        max,
    ) <= bound - 1 by {
        let n = model.waiting().len();
        if i < n {
            lemma_waiting_comes_from_queue(model, i);
        } else {
            let d = end.postponed[i - n];
            assert(after.deferred[i] == d);
            let j = lemma_postponed_comes_from_job(model, txs, budget, i - n);
            let job = model.jobs(txs)[j];
            assert(first_attempts(txs).len() == 0);
            assert(job == retries(model.ready())[j]);
            let before = model.ready()[j];
            lemma_ready_comes_from_queue(model, j);
            assert(lifetime(before.ready_generation, before.retry_count, model.generation, max) <= bound);
            law_backoff_doubles(job.retry_count);
        }
    }
}

/// The retry queue drains: from any state that passes can leave, it is empty
/// after as many passes without fresh transactions as all backoffs together
/// have generations, whatever the budgets of the passes are.
pub proof fn law_queue_drains(model: SchedulerModel, budgets: Seq<u64>)
    requires
        settled(model),
        model.generation + budgets.len() <= u32::MAX,
        budgets.len() >= total_backoff(0, model.config.max_retry_count as nat),
    ensures
        after_idle_passes(model, budgets).deferred.len() == 0,
{
    let max = model.config.max_retry_count;
    assert forall|i: int| 0 <= i < model.deferred.len() implies lifetime(
        #[trigger] model.deferred[i].ready_generation,
        model.deferred[i].retry_count,
        model.generation,
        max,
    ) <= budgets.len() by {
        let d = model.deferred[i];
        assert(settled_entry(d, model.generation, max));
        law_backoff_doubles((d.retry_count - 1) as u8);
        lemma_total_backoff_grows((d.retry_count - 1) as nat, max as nat);
    }
    law_queue_drains_within(model, budgets);
}

/// The retry queue drains: if no entry stays for more than a number of passes,
/// the queue is empty after that many passes without fresh transactions,
/// whatever the budgets of the passes are.
pub proof fn law_queue_drains_within(model: SchedulerModel, budgets: Seq<u64>)
    requires
        leaves_within(model, budgets.len() as int),
        model.generation + budgets.len() <= u32::MAX,
    ensures
        after_idle_passes(model, budgets).deferred.len() == 0,
    decreases budgets.len(),
{
    if budgets.len() == 0 {
        if model.deferred.len() > 0 {
            assert(lifetime(
                model.deferred[0].ready_generation,
                model.deferred[0].retry_count,
                model.generation,
                model.config.max_retry_count,
            ) >= 1);
        }
    } else {
        law_every_pass_shortens_the_wait(model, budgets.first(), budgets.len() as int);
        law_queue_drains_within(
            model.after_pass(Seq::empty(), budgets.first()),
            budgets.drop_first(),
        );
    }
}

/// The backoffs of later retries do not add up to more than all of them.
pub proof fn lemma_total_backoff_grows(first: nat, limit: nat)
    ensures
        total_backoff(first, limit) <= total_backoff(0, limit),
    decreases first,
{
    if first > 0 {
        lemma_total_backoff_grows((first - 1) as nat, limit);
    }
}

/// With at most nine retries, 512 passes are enough for the retry queue to
/// drain.
pub proof fn law_queue_drains_in_512_passes(model: SchedulerModel, budgets: Seq<u64>)
    requires
        settled(model),
        model.config.max_retry_count <= 9,
        budgets.len() >= 512,
        model.generation + budgets.len() <= u32::MAX,
    ensures
        after_idle_passes(model, budgets).deferred.len() == 0,
{
    lemma2_to64();
    assert(total_backoff(0, 9) == 511) by {
        reveal_with_fuel(total_backoff, 10);
    }
    lemma_total_backoff_limit(0, model.config.max_retry_count as nat, 9);
    law_queue_drains(model, budgets);
}

proof fn lemma_total_backoff_limit(first: nat, limit: nat, higher: nat)
    requires
        limit <= higher,
    ensures
        total_backoff(first, limit) <= total_backoff(first, higher),
    decreases limit - first,
{
    if first < limit {
        lemma_total_backoff_limit(first + 1, limit, higher);
    }
}

// Independence

/// Whether two transactions have no written account in common.
pub open spec fn independent(a: TransactionView, b: TransactionView) -> bool {
    forall|i: int| 0 <= i < b.writes().len() ==> !a.writes().contains(#[trigger] b.writes()[i])
}

/// Transactions on cold accounts that do not write the same accounts do not
/// get into each other's way: all of them are scheduled, if the budget covers
/// them and nothing is retried before them.
pub proof fn law_independent_transactions_are_scheduled(
    model: SchedulerModel,
    txs: Seq<TransactionView>,
    budget: u64,
)
    requires
        model.ready().len() == 0,
        model.config.conflict_threshold > 0,
        total_cost(txs) <= budget,
        forall|i: int|
            0 <= i < txs.len() ==> total_heat(model.cooled_hotspots(), (#[trigger] txs[i]).writes())
                == 0,
        forall|i: int, j: int|
            0 <= i < j < txs.len() ==> independent(#[trigger] txs[i], #[trigger] txs[j]),
    ensures
        model.pass(txs, budget).admitted == txs,
        model.pass(txs, budget).conflicts == 0,
        model.after_pass(txs, budget).deferred == model.waiting(),
{
    assert(model.jobs(txs) == first_attempts(txs));
    lemma_independent_prefix(model, txs, budget, txs.len() as int);
    assert(txs.take(txs.len() as int) == txs);
    assert(model.waiting() + Seq::<DeferredView>::empty() == model.waiting());
}

proof fn lemma_independent_prefix(
    model: SchedulerModel,
    txs: Seq<TransactionView>,
    budget: u64,
    n: int,
)
    requires
        0 <= n <= txs.len(),
        model.config.conflict_threshold > 0,
        total_cost(txs) <= budget,
        forall|i: int|
            0 <= i < txs.len() ==> total_heat(model.cooled_hotspots(), (#[trigger] txs[i]).writes())
                == 0,
        forall|i: int, j: int|
            0 <= i < j < txs.len() ==> independent(#[trigger] txs[i], #[trigger] txs[j]),
    ensures
        ({
            let state = PassState::start(model.cooled_hotspots(), budget).attempt_all(
                model.config,
                model.next_generation(),
                first_attempts(txs.take(n)),
            );
            &&& state.admitted == txs.take(n)
            &&& state.postponed == Seq::<DeferredView>::empty()
            &&& state.conflicts == 0
            &&& state.budget == budget - total_cost(txs.take(n))
            &&& forall|i: int|
                n <= i < txs.len() ==> total_heat(state.hotspots, (#[trigger] txs[i]).writes()) == 0
        }),
    decreases n,
{
    if n > 0 {
        lemma_independent_prefix(model, txs, budget, n - 1);
        let jobs = first_attempts(txs.take(n));
        assert(jobs.drop_last() == first_attempts(txs.take(n - 1)));
        assert(txs.take(n).drop_last() == txs.take(n - 1));
        assert(txs.take(n - 1).push(txs[n - 1]) == txs.take(n));
        lemma_cost_of_prefix(txs, n);
        let earlier = PassState::start(model.cooled_hotspots(), budget).attempt_all(
            model.config,
            model.next_generation(),
            jobs.drop_last(),
        );
        assert forall|i: int| n <= i < txs.len() implies total_heat(
            model.config.heating().mark(
                earlier.hotspots,
                txs[n - 1].writes(),
                model.next_generation(),
            ),
            (#[trigger] txs[i]).writes(),
        ) == 0 by {
            assert(independent(txs[n - 1], txs[i]));
            law_disjoint_writes_do_not_interfere(
                model.config.heating(),
                earlier.hotspots,
                txs[n - 1].writes(),
                model.next_generation(),
                txs[i].writes(),
            );
        }
    } else {
        assert(first_attempts(txs.take(0)) == Seq::<Job>::empty());
    }
}

proof fn lemma_cost_of_prefix(txs: Seq<TransactionView>, n: int)
    requires
        0 <= n <= txs.len(),
    ensures
        total_cost(txs.take(n)) <= total_cost(txs),
    decreases txs.len() - n,
{
    if n < txs.len() {
        lemma_cost_of_prefix(txs, n + 1);
        assert(txs.take(n + 1).drop_last() == txs.take(n));
    } else {
        assert(txs.take(n) == txs);
    }
}

} // verus!

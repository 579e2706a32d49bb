//! Laws of the scheduler of [`crate::rift_scheduler`], stated over the model
//! that its contracts use.
use vstd::arithmetic::div_mod::lemma_div_is_ordered_by_denominator;
use vstd::arithmetic::power2::{lemma_pow2_pos, pow2};
use vstd::multiset::Multiset;
use vstd::prelude::*;
use vstd::seq_lib::lemma_multiset_commutative;

use crate::heat::{
    generation_after, generations_between, is_written, least, written_among, Fading,
    HotAccountMeta, Upkeep,
};
use crate::heat_laws::{law_heat_is_bounded, lemma_no_writes};
use crate::laws::law_backoff_doubles;
use crate::model::backoff;
use crate::outside::AccountKey;
use crate::rift::{
    heating, FootprintView, RiftSchedulerConfig, TransactionPriorityId, MAX_ACCOUNT_HEAT,
};
use crate::rift_scheduler::{
    carries_on, fading, open_threads, reading, share, total_reading, unready_prefix, Attempt,
    DeferredTx, Origin, PassModel, Request, RiftModel, FILL_RATIO_PARTS,
};

verus! {

// Conflict score

/// The score of a transaction with at most 65,536 accounts fits its type.
pub proof fn law_score_fits(model: RiftModel, tx: FootprintView)
    requires
        tx.account_keys.len() <= 0x1_0000,
    ensures
        model.conflict_score(tx) <= u32::MAX,
{
    lemma_few_writes(tx, tx.account_keys.len());
    lemma_reading_is_bounded(model.hotspots, tx.writes(), model.generation);
}

/// No more accounts are written than there are.
proof fn lemma_few_writes(tx: FootprintView, n: nat)
    ensures
        written_among(tx.account_keys, tx.writable, n).len() <= n,
    decreases n,
{
    if n > 0 {
        lemma_few_writes(tx, (n - 1) as nat);
    }
}

/// Each account contributes at most what 16 bits hold.
proof fn lemma_reading_is_bounded(
    table: Map<AccountKey, HotAccountMeta>,
    keys: Seq<AccountKey>,
    generation: u32,
)
    ensures
        total_reading(table, keys, generation) <= keys.len() * 0xffff,
    decreases keys.len(),
{
    if keys.len() > 0 {
        lemma_reading_is_bounded(table, keys.drop_last(), generation);
    }
}

/// A transaction that only reads has no conflict score, whatever it reads, is
/// never screened out, and leaves every account as hot as it was.
pub proof fn law_reads_do_not_conflict(model: RiftModel, job: DeferredTx, tx: FootprintView)
    requires
        forall|i: int| 0 <= i < tx.account_keys.len() ==> !is_written(tx.writable, i),
    ensures
        model.conflict_score(tx) == 0,
        !model.screens_out(job, tx),
        model.marking(tx) == model,
{
    lemma_no_writes(tx.account_keys, tx.writable, tx.account_keys.len());
}

/// A transaction that has used up its retries is not screened out any more,
/// however hot its accounts are.
pub proof fn law_last_retry_is_tried(model: RiftModel, job: DeferredTx, tx: FootprintView)
    requires
        job.retry_count >= model.config.max_retry_count,
    ensures
        !model.screens_out(job, tx),
{
}

// Heat

/// What is left of a record is never more than it holds, and all of it in the
/// generation of the last write. Nothing is left once it has expired.
pub proof fn law_fading_takes_heat(rule: Fading, meta: HotAccountMeta, generation: u32)
    ensures
        rule.left(meta, generation) <= meta.heat,
        generation == meta.touched ==> rule.left(meta, generation) == meta.heat,
        generations_between(generation, meta.touched) > rule.max_age ==> rule.left(
            meta,
            generation,
        ) == 0,
{
    let age = generations_between(generation, meta.touched);
    let bits = least(age as int, rule.max_bits as int) as nat;
    lemma_pow2_pos(bits);
    lemma_div_is_ordered_by_denominator(meta.heat as int, 1, pow2(bits) as int);
    assert(meta.heat as int / 1 == meta.heat as int);
    if age == 0 {
        vstd::arithmetic::power2::lemma2_to64();
    }
}

/// A score halves the heat of an account that was not written in the current
/// generation, once, however long ago it was written.
pub proof fn law_reading_halves_once(meta: HotAccountMeta, generation: u32)
    requires
        0 < generations_between(generation, meta.touched) <= reading().max_age,
    ensures
        reading().left(meta, generation) == meta.heat / 2,
{
    vstd::arithmetic::power2::lemma2_to64();
}

/// A cleanup adds no account and heats none; it changes nothing else of a
/// record.
pub proof fn law_cleanup_only_takes_away(model: RiftModel, key: AccountKey)
    requires
        model.cleaned().hotspots.contains_key(key),
    ensures
        model.hotspots.contains_key(key),
        model.cleaned().hotspots[key].heat <= model.hotspots[key].heat,
        model.cleaned().hotspots[key].generation == model.hotspots[key].generation,
        model.cleaned().hotspots[key].touched == model.hotspots[key].touched,
{
    law_fading_takes_heat(fading(), model.hotspots[key], model.generation);
}

/// A cleanup leaves no account that is cold or has expired, if it takes place.
pub proof fn law_cleanup_forgets(model: RiftModel, key: AccountKey)
    requires
        model.hotspots.len() >= model.config.hotspot_capacity * 2,
        model.cleaned().hotspots.contains_key(key),
    ensures
        model.cleaned().hotspots[key].heat > 0,
        generations_between(model.generation, model.hotspots[key].touched) <= fading().max_age,
{
    assert(Upkeep::Fade(fading()).kept(model.hotspots[key], model.generation) is Some);
}

/// No record is hotter than [`MAX_ACCOUNT_HEAT`].
pub open spec fn heat_is_bounded(model: RiftModel) -> bool {
    forall|k: AccountKey| #[trigger]
        model.hotspots.contains_key(k) ==> model.hotspots[k].heat <= MAX_ACCOUNT_HEAT
}

/// No account ever gets hotter than [`MAX_ACCOUNT_HEAT`]: a new scheduler knows
/// no hot accounts, and neither the start of a pass nor a conflict makes one
/// hotter.
pub proof fn law_heat_stays_bounded(
    config: RiftSchedulerConfig,
    model: RiftModel,
    job: DeferredTx,
    tx: FootprintView,
)
    requires
        heat_is_bounded(model),
    ensures
        heat_is_bounded(RiftModel::initial(config)),
        heat_is_bounded(model.begun()),
        heat_is_bounded(model.conflicted(job, tx)),
{
    law_heat_is_bounded(
        heating(),
        model.hotspots,
        tx.writes(),
        model.generation,
        MAX_ACCOUNT_HEAT,
    );
    let begun = model.begun();
    let next = RiftModel { generation: begun.generation, ..model };
    assert forall|k: AccountKey| #[trigger] begun.hotspots.contains_key(k) implies begun.hotspots[k].heat
        <= MAX_ACCOUNT_HEAT by {
        assert(begun.hotspots == next.cleaned().hotspots);
        law_cleanup_only_takes_away(next, k);
    }
    let after = model.conflicted(job, tx);
    assert(after.hotspots == heating().mark(model.hotspots, tx.writes(), model.generation));
}

// Putting off

/// Whether `after` differs from `before` in that one more entry was put off,
/// which has the given delay and one more retry.
pub open spec fn puts_off(before: RiftModel, after: RiftModel, job: DeferredTx, delay: u32) -> bool {
    &&& after.deferred == before.deferred
    &&& after.next_deferred == before.next_deferred.push(after.next_deferred.last())
    &&& after.next_deferred.last().id == job.id
    &&& job.retry_count < u8::MAX ==> after.next_deferred.last().retry_count == job.retry_count
        + 1
    &&& after.next_deferred.last().ready_generation == generation_after(before.generation, delay)
}

/// No transaction is lost: whichever way an attempt fails, it is put off. It
/// waits for as long as its number of retries asks for if it met contention,
/// and for one generation if no thread could take it.
pub proof fn law_failed_attempts_are_put_off(model: RiftModel, job: DeferredTx, tx: FootprintView)
    ensures
        puts_off(model, model.screened_out(job), job, backoff(job.retry_count)),
        puts_off(model, model.conflicted(job, tx), job, backoff(job.retry_count)),
        puts_off(model, model.without_thread(job), job, 1),
{
}

/// An entry that is put off is not ready in the same pass, as long as the
/// generation does not wrap: no transaction is tried twice in a pass.
pub proof fn law_put_off_is_not_ready(model: RiftModel, job: DeferredTx, tx: FootprintView)
    requires
        model.generation + 256 <= u32::MAX,
    ensures
        model.screened_out(job).next_deferred.last().ready_generation > model.generation,
        model.conflicted(job, tx).next_deferred.last().ready_generation > model.generation,
        model.without_thread(job).next_deferred.last().ready_generation > model.generation,
{
    law_backoff_doubles(job.retry_count);
}

// A pass

/// The entries that are passed over are exactly those before the first one that
/// is ready, if the pass may look at another one, and all of them otherwise.
pub proof fn law_what_is_passed_over(pass: PassModel, scheduler: RiftModel)
    ensures
        ({
            let k = pass.passed_over(scheduler);
            let may_look = pass.scanned
                < scheduler.config.max_scanned_transactions_per_scheduling_pass;
            &&& k <= pass.todo.len()
            &&& may_look ==> forall|i: int|
                0 <= i < k ==> #[trigger] pass.todo[i].ready_generation > scheduler.generation
            &&& k < pass.todo.len() ==> may_look && pass.todo[k as int].ready_generation
                <= scheduler.generation
        }),
{
    lemma_unready_prefix(pass.todo, scheduler.generation);
}

proof fn lemma_unready_prefix(todo: Seq<DeferredTx>, generation: u32)
    ensures
        ({
            let k = unready_prefix(todo, generation);
            &&& k <= todo.len()
            &&& forall|i: int| 0 <= i < k ==> #[trigger] todo[i].ready_generation > generation
            &&& k < todo.len() ==> todo[k as int].ready_generation <= generation
        }),
    decreases todo.len(),
{
    if todo.len() > 0 && todo[0].ready_generation > generation {
        let rest = todo.drop_first();
        lemma_unready_prefix(rest, generation);
        let k = unready_prefix(todo, generation);
        assert forall|i: int| 0 <= i < k implies #[trigger] todo[i].ready_generation > generation by {
            if i > 0 {
                assert(todo[i] == rest[i - 1]);
            }
        }
        if k < todo.len() {
            assert(todo[k as int] == rest[k - 1]);
        }
    }
}

/// Looking for the next entry to retry loses none: those passed over, the one
/// that is tried and those still to come are what was to come.
pub proof fn law_no_entry_is_lost(pass: PassModel, scheduler: RiftModel, request: Request)
    requires
        request.is_next_retry_of(pass, scheduler),
    ensures
        ({
            let after = pass.retrying(scheduler);
            let next = pass.retried(scheduler);
            let tried = match request {
                Request::LookUp(attempt) => seq![attempt.job],
                _ => Seq::<DeferredTx>::empty(),
            };
            &&& after.next_deferred + tried + next.todo == scheduler.next_deferred + pass.todo
            &&& after.deferred == scheduler.deferred
        }),
{
    law_what_is_passed_over(pass, scheduler);
    let k = pass.passed_over(scheduler) as int;
    if k < pass.todo.len() {
        assert(request == Request::LookUp(Attempt { job: pass.todo[k], origin: Origin::Retry }));
        assert(pass.todo == pass.todo.take(k) + seq![pass.todo[k]] + pass.todo.skip(k + 1));
    } else {
        assert(pass.todo.take(k) == pass.todo);
    }
}

/// Between two rounds nothing is in the list of what is put off, and within a
/// round nothing is in the queue: it has been taken over by the pass. So a
/// pass that ends has handed back everything, and holds nothing afterwards.
pub proof fn law_nothing_is_held_back(
    config: RiftSchedulerConfig,
    between: RiftModel,
    within: RiftModel,
    pass: PassModel,
    job: DeferredTx,
    tx: FootprintView,
    batch_len: usize,
    elapsed_ns: u64,
)
    requires
        between.next_deferred == Seq::<DeferredTx>::empty(),
        within.deferred == Seq::<DeferredTx>::empty(),
    ensures
        RiftModel::initial(config).next_deferred == Seq::<DeferredTx>::empty(),
        between.begun().next_deferred == Seq::<DeferredTx>::empty(),
        pass.retrying(within).deferred == Seq::<DeferredTx>::empty(),
        within.screened_out(job).deferred == Seq::<DeferredTx>::empty(),
        within.conflicted(job, tx).deferred == Seq::<DeferredTx>::empty(),
        within.without_thread(job).deferred == Seq::<DeferredTx>::empty(),
        within.added(batch_len).deferred == Seq::<DeferredTx>::empty(),
        within.swapped().next_deferred == Seq::<DeferredTx>::empty(),
        within.swapped().deferred == within.next_deferred,
        between.finished(pass, elapsed_ns).deferred == Seq::<DeferredTx>::empty(),
        between.finished(pass, elapsed_ns).next_deferred == Seq::<DeferredTx>::empty(),
{
}

/// A pass never looks at more transactions than it may.
pub proof fn law_scans_are_bounded(pass: PassModel, scheduler: RiftModel, queue_is_empty: bool)
    requires
        pass.scanned <= scheduler.config.max_scanned_transactions_per_scheduling_pass,
    ensures
        pass.retried(scheduler).scanned
            <= scheduler.config.max_scanned_transactions_per_scheduling_pass,
        pass.takes_fresh(scheduler, queue_is_empty) ==> pass.scanning().scanned
            <= scheduler.config.max_scanned_transactions_per_scheduling_pass,
{
    law_what_is_passed_over(pass, scheduler);
}

/// A round in which nothing can be tried changes nothing: if the queue is empty
/// and no entry is ready, then the entries are put back one by one, the round
/// ends, and all is as it was.
pub proof fn law_idle_round_changes_nothing(pass: PassModel, scheduler: RiftModel)
    requires
        pass.todo == Seq::<DeferredTx>::empty(),
        scheduler.next_deferred == Seq::<DeferredTx>::empty(),
        forall|i: int|
            0 <= i < scheduler.deferred.len() ==> #[trigger] scheduler.deferred[i].ready_generation
                > scheduler.generation,
    ensures
        ({
            let drained = RiftModel { deferred: Seq::empty(), ..scheduler };
            let round = PassModel { todo: scheduler.deferred, ..pass };
            &&& round.passed_over(drained) == scheduler.deferred.len()
            &&& round.retrying(drained).swapped() == scheduler
            &&& round.retried(drained) == pass
            &&& !pass.takes_fresh(round.retrying(drained), true)
        }),
{
    let drained = RiftModel { deferred: Seq::empty(), ..scheduler };
    let round = PassModel { todo: scheduler.deferred, ..pass };
    law_what_is_passed_over(round, drained);
    assert(round.todo.take(round.todo.len() as int) == scheduler.deferred);
    assert(round.retrying(drained).swapped() == scheduler);
    assert(round.retried(drained) == pass);
}

/// A pass ends as soon as there is nothing left to spend, or no thread to spend
/// it on, or it has looked at as many transactions as it may, or there is
/// nothing left to look at.
pub proof fn law_when_a_pass_ends(pass: PassModel, scheduler: RiftModel, queue_is_empty: bool)
    ensures
        !pass.makes_round(scheduler, queue_is_empty) <==> {
            ||| pass.remaining_budget == 0
            ||| pass.threads == Set::<usize>::empty()
            ||| pass.scanned >= scheduler.config.max_scanned_transactions_per_scheduling_pass
            ||| queue_is_empty && scheduler.deferred.len() == 0
        },
{
}

/// The budget does not grow, and does not go below zero.
pub proof fn law_budget_only_shrinks(pass: PassModel, cost: u64)
    ensures
        pass.added(cost).remaining_budget <= pass.remaining_budget,
        cost <= pass.remaining_budget ==> pass.added(cost).remaining_budget + cost
            == pass.remaining_budget,
        cost > pass.remaining_budget ==> pass.added(cost).remaining_budget == 0,
{
}

/// A thread takes no more once its share is on its way. The other threads are
/// not affected, and none comes back.
pub proof fn law_full_threads_take_no_more(
    pass: PassModel,
    config: RiftSchedulerConfig,
    thread_id: usize,
    load: int,
)
    ensures
        ({
            let after = pass.weighed(config, thread_id, load);
            &&& after.threads.subset_of(pass.threads)
            &&& load >= share(config, pass.num_threads as nat) ==> !after.threads.contains(thread_id)
            &&& forall|t: usize|
                t != thread_id ==> #[trigger] after.threads.contains(t) == pass.threads.contains(t)
        }),
{
}

/// A pass starts on exactly those threads that have less than their share on
/// their way.
pub proof fn law_pass_starts_on_open_threads(
    config: RiftSchedulerConfig,
    cus_in_flight: Seq<u64>,
    t: usize,
)
    ensures
        open_threads(config, cus_in_flight).contains(t) <==> t < cus_in_flight.len()
            && cus_in_flight[t as int] < share(config, cus_in_flight.len()),
{
}

/// A batch that is not over its target is filled by at most
/// [`FILL_RATIO_PARTS`] parts, and by all of them when it is full.
pub proof fn law_fill_ratio_of_a_batch(batch_len: usize, target: usize)
    requires
        0 < target,
        batch_len <= target,
    ensures
        batch_len * FILL_RATIO_PARTS / target as int <= FILL_RATIO_PARTS,
        batch_len == target ==> batch_len * FILL_RATIO_PARTS / target as int == FILL_RATIO_PARTS,
{
    let parts = FILL_RATIO_PARTS as int;
    assert(batch_len * parts <= parts * target) by (nonlinear_arith)
        requires
            batch_len <= target,
            0 <= parts,
    ;
    vstd::arithmetic::div_mod::lemma_div_is_ordered(
        batch_len * parts,
        parts * target,
        target as int,
    );
    vstd::arithmetic::div_mod::lemma_div_by_multiple(parts, target as int);
    if batch_len == target {
        assert(batch_len * parts == parts * target) by (nonlinear_arith)
            requires
                batch_len == target,
        ;
    }
}

// A whole pass

/// What a pass waits to be told.
pub enum Asked {
    /// Whether the queue is empty, to begin a round.
    Round,
    /// Whether the queue is empty, to take a fresh transaction.
    Fresh,
    /// What comes from the queue.
    Pop,
    /// What becomes of a transaction.
    Transaction(Attempt),
    /// That the last batches were sent.
    Last,
}

/// What becomes of a transaction that a pass asks for.
pub enum Outcome {
    /// It is not there any more.
    Missing,
    /// It is screened out, or else its locks conflict.
    Conflicts(FootprintView),
    /// It is screened out, or else no thread can take it.
    NoThread(FootprintView),
    /// It is screened out, or else a thread takes it.
    Taken {
        tx: FootprintView,
        thread_id: usize,
        cost: u64,
        /// Batches sent to make room for it.
        batches_before: usize,
        /// Transactions in its batch afterwards.
        batch_len: usize,
        /// Batches sent because one was full.
        batches_after: usize,
        /// Compute units that its thread has on their way and in its batch.
        load: int,
    },
}

impl Outcome {
    /// The transaction, if it is there.
    pub open spec fn tx(self) -> Option<FootprintView> {
        match self {
            Outcome::Missing => None,
            Outcome::Conflicts(tx) => Some(tx),
            Outcome::NoThread(tx) => Some(tx),
            Outcome::Taken { tx, .. } => Some(tx),
        }
    }
}

/// An answer to a pass. It uses the part that it has asked for.
pub struct Answer {
    pub queue_is_empty: bool,
    pub popped: Option<TransactionPriorityId>,
    pub outcome: Outcome,
}

/// A pass that is under way, and what has become of the transactions so far.
pub struct Run {
    pub scheduler: RiftModel,
    pub pass: PassModel,
    pub asked: Asked,
    /// Number of transactions that were tried.
    pub tried: nat,
    /// What came from the queue.
    pub popped: Multiset<TransactionPriorityId>,
    /// What was added to a batch.
    pub added: Multiset<TransactionPriorityId>,
    /// What was not there any more.
    pub missing: Multiset<TransactionPriorityId>,
}

/// The transactions of entries.
pub open spec fn ids(entries: Seq<DeferredTx>) -> Multiset<TransactionPriorityId> {
    entries.map_values(|entry: DeferredTx| entry.id).to_multiset()
}

impl Run {
    /// A pass before its first round.
    pub open spec fn begun(scheduler: RiftModel, start: PassModel) -> Run {
        Run {
            scheduler,
            pass: start,
            asked: Asked::Round,
            tried: 0,
            popped: Multiset::empty(),
            added: Multiset::empty(),
            missing: Multiset::empty(),
        }
    }

    /// The pass after it has looked for its next entry to retry.
    pub open spec fn next_retry(self) -> Run {
        let k = self.pass.passed_over(self.scheduler) as int;
        let found = k < self.pass.todo.len();
        Run {
            scheduler: self.pass.retrying(self.scheduler),
            pass: self.pass.retried(self.scheduler),
            asked: if found {
                Asked::Transaction(Attempt { job: self.pass.todo[k], origin: Origin::Retry })
            } else {
                Asked::Fresh
            },
            tried: if found {
                self.tried + 1
            } else {
                self.tried
            },
            ..self
        }
    }

    /// The pass after it is done with a transaction.
    pub open spec fn carried_on(self, origin: Origin) -> Run {
        match origin {
            Origin::Retry => self.next_retry(),
            Origin::Fresh => Run { asked: Asked::Fresh, ..self },
        }
    }

    /// The pass after it was told what becomes of a transaction, before it goes
    /// on.
    pub open spec fn told(self, job: DeferredTx, outcome: Outcome) -> Run {
        match outcome.tx() {
            None => Run { missing: self.missing.insert(job.id), ..self },
            Some(tx) => if self.scheduler.screens_out(job, tx) {
                Run { scheduler: self.scheduler.screened_out(job), ..self }
            } else {
                match outcome {
                    Outcome::Missing => self,
                    Outcome::Conflicts(_) => Run {
                        scheduler: self.scheduler.conflicted(job, tx),
                        ..self
                    },
                    Outcome::NoThread(_) => Run {
                        scheduler: self.scheduler.without_thread(job),
                        pass: self.pass.without_thread(),
                        ..self
                    },
                    Outcome::Taken {
                        tx: _,
                        thread_id,
                        cost,
                        batches_before,
                        batch_len,
                        batches_after,
                        load,
                    } => Run {
                        scheduler: self.scheduler.added(batch_len),
                        pass: self.pass.sent(batches_before).added(cost).sent(
                            batches_after,
                        ).weighed(self.scheduler.config, thread_id, load),
                        added: self.added.insert(job.id),
                        ..self
                    },
                }
            },
        }
    }

    /// The pass after it was given an answer.
    pub open spec fn answered(self, answer: Answer) -> Run {
        let round_ended = Run {
            scheduler: self.scheduler.swapped(),
            asked: Asked::Round,
            ..self
        };
        match self.asked {
            Asked::Round => if self.pass.makes_round(self.scheduler, answer.queue_is_empty) {
                (Run {
                    scheduler: RiftModel { deferred: Seq::empty(), ..self.scheduler },
                    pass: PassModel { todo: self.scheduler.deferred, ..self.pass },
                    ..self
                }).next_retry()
            } else {
                Run { asked: Asked::Last, ..self }
            },
            Asked::Fresh => if self.pass.takes_fresh(self.scheduler, answer.queue_is_empty) {
                Run { asked: Asked::Pop, ..self }
            } else {
                round_ended
            },
            Asked::Pop => match answer.popped {
                Some(id) => Run {
                    pass: self.pass.scanning(),
                    asked: Asked::Transaction(
                        Attempt {
                            job: DeferredTx::fresh(id, self.scheduler.generation),
                            origin: Origin::Fresh,
                        },
                    ),
                    tried: self.tried + 1,
                    popped: self.popped.insert(id),
                    ..self
                },
                None => round_ended,
            },
            Asked::Transaction(attempt) => self.told(attempt.job, answer.outcome).carried_on(
                attempt.origin,
            ),
            Asked::Last => self,
        }
    }

    /// The pass after a number of answers.
    pub open spec fn after(self, answers: Seq<Answer>) -> Run
        decreases answers.len(),
    {
        if answers.len() == 0 {
            self
        } else {
            self.after(answers.drop_last()).answered(answers.last())
        }
    }

    /// The transactions that are in the hands of the scheduler or of the pass.
    pub open spec fn held(self) -> Multiset<TransactionPriorityId> {
        let asked_for = match self.asked {
            Asked::Transaction(attempt) => Multiset::singleton(attempt.job.id),
            _ => Multiset::empty(),
        };
        ids(self.scheduler.deferred).add(ids(self.scheduler.next_deferred)).add(
            ids(self.pass.todo),
        ).add(asked_for)
    }
}

/// A pass of `model` that has been given `answers`.
pub open spec fn run_of(model: RiftModel, start: PassModel, answers: Seq<Answer>) -> Run {
    Run::begun(model.begun(), start).after(answers)
}

/// The scheduler after a whole pass.
pub open spec fn after_pass(
    model: RiftModel,
    start: PassModel,
    answers: Seq<Answer>,
    batches: usize,
    elapsed_ns: u64,
) -> RiftModel {
    let end = run_of(model, start, answers);
    end.scheduler.finished(end.pass.sent(batches), elapsed_ns)
}

/// What a request waits to be told. The requests for one transaction follow
/// each other, and wait together for what becomes of it.
pub open spec fn asked_by(request: Request) -> Option<Asked> {
    match request {
        Request::CheckRound => Some(Asked::Round),
        Request::CheckFresh => Some(Asked::Fresh),
        Request::Pop => Some(Asked::Pop),
        Request::LookUp(attempt) => Some(Asked::Transaction(attempt)),
        Request::SendLast => Some(Asked::Last),
        _ => None,
    }
}

/// A run goes on as the scheduler does: what its methods promise of the way a
/// pass carries on is what a run does.
pub proof fn law_runs_carry_on_like_passes(
    run: Run,
    origin: Origin,
    after: RiftModel,
    next: PassModel,
    request: Request,
)
    requires
        carries_on(origin, run.scheduler, run.pass, after, next, request),
    ensures
        ({
            let on = run.carried_on(origin);
            &&& on.scheduler == after
            &&& on.pass == next
            &&& asked_by(request) == Some(on.asked)
        }),
{
}

/// Whether a run has not gone beyond what it may, and keeps its entries where
/// they belong: within a round nothing is in the queue, and unless entries are
/// being retried, nothing is left of the round.
spec fn run_in_order(run: Run, model: RiftModel) -> bool {
    let max_scan = model.config.max_scanned_transactions_per_scheduling_pass;
    let round_over = run.pass.todo == Seq::<DeferredTx>::empty();
    let taken_over = run.scheduler.deferred == Seq::<DeferredTx>::empty();
    &&& run.scheduler.config == model.config
    &&& run.scheduler.generation == model.generation
    &&& run.tried == run.pass.scanned <= max_scan
    &&& match run.asked {
        Asked::Round => round_over,
        Asked::Last => round_over,
        Asked::Fresh => round_over && taken_over,
        Asked::Pop => round_over && taken_over && run.pass.scanned < max_scan,
        Asked::Transaction(attempt) => taken_over && (attempt.origin is Fresh ==> round_over),
    }
}

/// Whether nothing is put off between two rounds.
spec fn nothing_left_over(run: Run) -> bool {
    run.asked is Round || run.asked is Last ==> run.scheduler.next_deferred == Seq::<
        DeferredTx,
    >::empty()
}

proof fn lemma_ids_of_sum(a: Seq<DeferredTx>, b: Seq<DeferredTx>)
    ensures
        ids(a + b) == ids(a).add(ids(b)),
{
    let f = |entry: DeferredTx| entry.id;
    lemma_multiset_commutative(a.map_values(f), b.map_values(f));
    assert((a + b).map_values(f) == a.map_values(f) + b.map_values(f));
}

proof fn lemma_no_ids()
    ensures
        ids(Seq::<DeferredTx>::empty()) == Multiset::<TransactionPriorityId>::empty(),
{
    broadcast use {vstd::seq_lib::group_to_multiset_ensures, vstd::multiset::group_multiset_axioms};

    let none = Seq::<TransactionPriorityId>::empty();
    assert(Seq::<DeferredTx>::empty().map_values(|entry: DeferredTx| entry.id) == none);
    assert(none.to_multiset() == Multiset::<TransactionPriorityId>::empty());
}

proof fn lemma_ids_of_one(entry: DeferredTx)
    ensures
        ids(seq![entry]) == Multiset::singleton(entry.id),
{
    broadcast use {vstd::seq_lib::group_to_multiset_ensures, vstd::multiset::group_multiset_axioms};

    let none = Seq::<TransactionPriorityId>::empty();
    assert(none.to_multiset() == Multiset::<TransactionPriorityId>::empty());
    assert(seq![entry].map_values(|entry: DeferredTx| entry.id) == none.push(entry.id));
    assert(ids(seq![entry]) == Multiset::singleton(entry.id));
}

/// Looking for the next entry to retry keeps a run in order, and keeps what it
/// holds.
proof fn lemma_next_retry(run: Run, model: RiftModel)
    requires
        run.scheduler.config == model.config,
        run.scheduler.generation == model.generation,
        run.scheduler.deferred == Seq::<DeferredTx>::empty(),
        run.tried == run.pass.scanned,
        run.pass.scanned <= model.config.max_scanned_transactions_per_scheduling_pass,
    ensures
        run_in_order(run.next_retry(), model),
        nothing_left_over(run.next_retry()),
        run.next_retry().held() == ids(run.scheduler.next_deferred).add(ids(run.pass.todo)),
{
    let next = run.next_retry();
    let k = run.pass.passed_over(run.scheduler) as int;
    law_what_is_passed_over(run.pass, run.scheduler);
    let request = if k < run.pass.todo.len() {
        Request::LookUp(Attempt { job: run.pass.todo[k], origin: Origin::Retry })
    } else {
        Request::CheckFresh
    };
    law_no_entry_is_lost(run.pass, run.scheduler, request);
    let tried = match request {
        Request::LookUp(attempt) => seq![attempt.job],
        _ => Seq::<DeferredTx>::empty(),
    };
    lemma_ids_of_sum(run.scheduler.next_deferred, run.pass.todo);
    lemma_ids_of_sum(next.scheduler.next_deferred + tried, next.pass.todo);
    lemma_ids_of_sum(next.scheduler.next_deferred, tried);
    lemma_no_ids();
    lemma_ids_of_one(run.pass.todo[k]);
    assert(next.held() =~= ids(run.scheduler.next_deferred).add(ids(run.pass.todo)));
}

/// Being told what becomes of a transaction moves it to one place.
proof fn lemma_told(run: Run, model: RiftModel, attempt: Attempt, outcome: Outcome)
    requires
        run_in_order(run, model),
        run.asked == Asked::Transaction(attempt),
    ensures
        ({
            let told = run.told(attempt.job, outcome);
            &&& run_in_order(told, model)
            &&& told.pass.todo == run.pass.todo
            &&& told.popped == run.popped
            &&& told.asked == run.asked
            &&& told.added.add(told.missing).add(ids(told.scheduler.next_deferred))
                == run.added.add(run.missing).add(ids(run.scheduler.next_deferred)).insert(
                attempt.job.id,
            )
        }),
{
    broadcast use vstd::multiset::group_multiset_axioms;

    let told = run.told(attempt.job, outcome);
    let before = run.scheduler.next_deferred;
    let after = told.scheduler.next_deferred;
    if after != before {
        assert(after == before + seq![after.last()]);
        assert(after.last().id == attempt.job.id);
        lemma_ids_of_sum(before, seq![after.last()]);
        lemma_ids_of_one(after.last());
    }
    assert(told.added.add(told.missing).add(ids(after)) =~= run.added.add(run.missing).add(
        ids(before),
    ).insert(attempt.job.id));
}

/// An answer keeps a run in order, and keeps account of every transaction.
proof fn lemma_answered(run: Run, model: RiftModel, answer: Answer)
    requires
        run_in_order(run, model),
    ensures
        run_in_order(run.answered(answer), model),
        nothing_left_over(run) ==> nothing_left_over(run.answered(answer)),
        ({
            let after = run.answered(answer);
            after.added.add(after.missing).add(after.held()).add(run.popped) == run.added.add(
                run.missing,
            ).add(run.held()).add(after.popped)
        }),
{
    broadcast use vstd::multiset::group_multiset_axioms;

    let after = run.answered(answer);
    let lhs = after.added.add(after.missing).add(after.held()).add(run.popped);
    let rhs = run.added.add(run.missing).add(run.held()).add(after.popped);
    lemma_no_ids();
    match run.asked {
        Asked::Round => {
            if run.pass.makes_round(run.scheduler, answer.queue_is_empty) {
                let round = Run {
                    scheduler: RiftModel { deferred: Seq::empty(), ..run.scheduler },
                    pass: PassModel { todo: run.scheduler.deferred, ..run.pass },
                    ..run
                };
                lemma_next_retry(round, model);
                assert(after.held() =~= run.held());
            }
        },
        Asked::Fresh => {
            assert(after.held() =~= run.held());
        },
        Asked::Pop => {
            match answer.popped {
                Some(id) => {
                    assert(after.held() =~= run.held().insert(id));
                },
                None => {
                    assert(after.held() =~= run.held());
                },
            }
        },
        Asked::Transaction(attempt) => {
            let told = run.told(attempt.job, answer.outcome);
            lemma_told(run, model, attempt, answer.outcome);
            match attempt.origin {
                Origin::Retry => {
                    lemma_next_retry(told, model);
                },
                Origin::Fresh => {},
            }
            assert(after.held() =~= ids(told.scheduler.next_deferred).add(ids(run.pass.todo)));
            assert(run.held() =~= ids(run.scheduler.next_deferred).add(ids(run.pass.todo)).insert(
                attempt.job.id,
            ));
            assert forall|id: TransactionPriorityId| #[trigger] lhs.count(id) == rhs.count(id) by {
                let told_of = told.added.add(told.missing).add(ids(told.scheduler.next_deferred));
                let known = run.added.add(run.missing).add(ids(run.scheduler.next_deferred));
                assert(told_of.count(id) == known.insert(attempt.job.id).count(id));
            }
        },
        Asked::Last => {},
    }
    assert(lhs =~= rhs);
}

proof fn lemma_run(scheduler: RiftModel, start: PassModel, answers: Seq<Answer>)
    requires
        start.todo == Seq::<DeferredTx>::empty(),
        start.scanned == 0,
    ensures
        ({
            let end = Run::begun(scheduler, start).after(answers);
            &&& run_in_order(end, scheduler)
            &&& scheduler.next_deferred == Seq::<DeferredTx>::empty() ==> nothing_left_over(end)
            &&& ids(scheduler.deferred).add(ids(scheduler.next_deferred)).add(end.popped)
                == end.added.add(end.missing).add(end.held())
        }),
    decreases answers.len(),
{
    broadcast use vstd::multiset::group_multiset_axioms;

    let begun = Run::begun(scheduler, start);
    let end = begun.after(answers);
    lemma_no_ids();
    if answers.len() > 0 {
        let earlier = begun.after(answers.drop_last());
        lemma_run(scheduler, start, answers.drop_last());
        lemma_answered(earlier, scheduler, answers.last());
        let held_first = ids(scheduler.deferred).add(ids(scheduler.next_deferred));
        let now = end.added.add(end.missing).add(end.held());
        assert forall|id: TransactionPriorityId| #[trigger]
            held_first.add(end.popped).count(id) == now.count(id) by {
            let then = earlier.added.add(earlier.missing).add(earlier.held());
            assert(now.add(earlier.popped).count(id) == then.add(end.popped).count(id));
            assert(held_first.add(earlier.popped).count(id) == then.count(id));
        }
        assert(held_first.add(end.popped) =~= now);
    } else {
        assert(ids(scheduler.deferred).add(ids(scheduler.next_deferred)).add(end.popped)
            =~= end.added.add(end.missing).add(end.held()));
    }
}

/// A pass tries at most `max_scanned_transactions_per_scheduling_pass`
/// transactions, whatever it is answered, and has scanned as many as it has
/// tried.
pub proof fn law_pass_tries_no_more_than_it_may(
    model: RiftModel,
    start: PassModel,
    answers: Seq<Answer>,
)
    requires
        start.todo == Seq::<DeferredTx>::empty(),
        start.scanned == 0,
    ensures
        ({
            let end = run_of(model, start, answers);
            &&& end.tried <= model.config.max_scanned_transactions_per_scheduling_pass
            &&& end.tried == end.pass.scanned
        }),
{
    lemma_run(model.begun(), start, answers);
}

/// At every moment of a pass, the transactions that it held at its start and
/// those that came from the queue are those that were added to a batch, those
/// that were not there any more, and those that are still held.
pub proof fn law_pass_keeps_account(model: RiftModel, start: PassModel, answers: Seq<Answer>)
    requires
        start.todo == Seq::<DeferredTx>::empty(),
        start.scanned == 0,
    ensures
        ({
            let now = run_of(model, start, answers);
            ids(model.deferred).add(ids(model.next_deferred)).add(now.popped) == now.added.add(
                now.missing,
            ).add(now.held())
        }),
{
    lemma_run(model.begun(), start, answers);
}

/// When a pass ends, every transaction that it held at its start or that came
/// from the queue was added to a batch, or was not there any more, or is handed
/// back; the scheduler holds nothing afterwards.
pub proof fn law_pass_hands_back_the_rest(
    model: RiftModel,
    start: PassModel,
    answers: Seq<Answer>,
    batches: usize,
    elapsed_ns: u64,
)
    requires
        model.next_deferred == Seq::<DeferredTx>::empty(),
        start.todo == Seq::<DeferredTx>::empty(),
        start.scanned == 0,
        run_of(model, start, answers).asked is Last,
    ensures
        ({
            let end = run_of(model, start, answers);
            let after = after_pass(model, start, answers, batches, elapsed_ns);
            let handed_back = end.scheduler.deferred.map_values(|entry: DeferredTx| entry.id);
            &&& ids(model.deferred).add(end.popped) == end.added.add(end.missing).add(
                handed_back.to_multiset(),
            )
            &&& after.deferred == Seq::<DeferredTx>::empty()
            &&& after.next_deferred == Seq::<DeferredTx>::empty()
        }),
{
    broadcast use vstd::multiset::group_multiset_axioms;

    let end = run_of(model, start, answers);
    lemma_run(model.begun(), start, answers);
    lemma_no_ids();
    assert(end.held() =~= ids(end.scheduler.deferred));
    assert(ids(model.deferred).add(ids(model.next_deferred)) =~= ids(model.deferred));
}

} // verus!

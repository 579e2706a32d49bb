//! Laws of the scheduler of [`crate::rift_hybrid_scheduler`], stated over the
//! model that its contracts use.
use vstd::multiset::Multiset;
use vstd::prelude::*;

use crate::heat::{
    generation_after, generations_between, is_written, score, HotAccountMeta,
};
use crate::heat_laws::{
    law_cooling_normalises, law_heat_is_bounded, law_heating_is_local, law_heating_records_writes,
    lemma_no_writes,
};
use crate::laws::{law_backoff_doubles, lemma_total_backoff_grows, lifetime, total_backoff};
use crate::model::{backoff, lemma_filter_comes_from};
use crate::outside::AccountKey;
use crate::rift::{
    heating, tallied, FootprintView, RiftSchedulerConfig, CONFLICT_THRESHOLD, MAX_ACCOUNT_HEAT,
    MAX_GENERATION_AGE,
};
use crate::rift_hybrid_scheduler::{
    cooling, ready_in, waiting_in, DeferredTx, PassModel, RiftModel,
    MAX_DEFERRED_GENERATION_LIFETIME,
};

verus! {

// Screening

/// A transaction that only reads has no conflict score, whatever it reads, and
/// leaves every account as hot as it was.
pub proof fn law_reads_do_not_conflict(model: RiftModel, job: DeferredTx, tx: FootprintView)
    requires
        forall|i: int| 0 <= i < tx.account_keys.len() ==> !is_written(tx.writable, i),
    ensures
        score(model.hotspots, tx.writes()) == 0,
        !(model.screening(job, tx) is Defer || model.screening(job, tx) is Drop),
        model.marking(tx) == model,
{
    lemma_no_writes(tx.account_keys, tx.writable, tx.account_keys.len());
}

/// A transaction is tried exactly if its accounts are cool enough and it has
/// not outlived [`MAX_DEFERRED_GENERATION_LIFETIME`], however often it has been
/// retried.
pub proof fn law_what_is_tried(model: RiftModel, job: DeferredTx, tx: FootprintView)
    ensures
        model.screening(job, tx) is Try <==> {
            &&& score(model.hotspots, tx.writes()) < CONFLICT_THRESHOLD
            &&& generations_between(model.generation, job.created_generation)
                <= MAX_DEFERRED_GENERATION_LIFETIME
        },
{
}

/// A transaction whose first attempt lies more than
/// [`MAX_DEFERRED_GENERATION_LIFETIME`] generations back is not tried again.
pub proof fn law_expired_transactions_are_not_tried(
    model: RiftModel,
    job: DeferredTx,
    tx: FootprintView,
)
    requires
        generations_between(model.generation, job.created_generation)
            > MAX_DEFERRED_GENERATION_LIFETIME,
    ensures
        !(model.screening(job, tx) is Try),
{
}

// A pass

/// What a pass is told of an entry.
pub enum Reply {
    /// The transaction is not there any more.
    Missing,
    /// It writes hot accounts, or has waited too long, or else a thread takes
    /// it, after this number of batches was sent to make room for it.
    Taken(FootprintView, usize),
    /// As above, or else its locks conflict.
    Conflicts(FootprintView),
    /// As above, or else no thread can take it.
    NoThread(FootprintView),
}

impl Reply {
    /// The transaction, if it is there.
    pub open spec fn tx(self) -> Option<FootprintView> {
        match self {
            Reply::Missing => None,
            Reply::Taken(tx, _) => Some(tx),
            Reply::Conflicts(tx) => Some(tx),
            Reply::NoThread(tx) => Some(tx),
        }
    }
}

/// The scheduler after a pass has dealt with one entry.
pub open spec fn after_entry(model: RiftModel, job: DeferredTx, reply: Reply) -> RiftModel {
    match reply.tx() {
        None => model,
        Some(tx) => if model.screening(job, tx) is Try {
            match reply {
                Reply::Missing => model,
                Reply::Taken(_, batches) => model.sent(batches).added(tx),
                Reply::Conflicts(_) => model.conflicted(job, tx),
                Reply::NoThread(_) => model.without_thread(job),
            }
        } else {
            model.screened(job, tx)
        },
    }
}

/// The scheduler after a pass has dealt with the first `n` entries.
pub open spec fn after_entries(
    model: RiftModel,
    jobs: Seq<DeferredTx>,
    replies: Seq<Reply>,
    n: nat,
) -> RiftModel
    decreases n,
{
    if n == 0 {
        model
    } else {
        let earlier = after_entries(model, jobs, replies, (n - 1) as nat);
        after_entry(earlier, jobs[n - 1], replies[n - 1])
    }
}

/// The scheduler after a whole pass.
pub open spec fn after_pass(model: RiftModel, replies: Seq<Reply>, elapsed_ns: u64) -> RiftModel {
    let jobs = ready_in(model.deferred, model.next_generation());
    after_entries(model.begun(), jobs, replies, jobs.len()).finished(
        jobs.len() as usize,
        elapsed_ns,
    )
}

/// An entry that is dealt with is scheduled or gone, or it is put off, or it is
/// counted as given up: exactly one of these. What was waiting goes on
/// waiting.
pub proof fn law_no_entry_is_lost(model: RiftModel, job: DeferredTx, reply: Reply)
    ensures
        ({
            let after = after_entry(model, job, reply);
            let done = reply is Missing || (reply is Taken && model.screening(
                job,
                reply.tx()->0,
            ) is Try);
            let kept = after.next_deferred.len() == model.next_deferred.len() + 1;
            let given_up = after.metrics.dropped_txs == tallied(model.metrics.dropped_txs, 1);
            &&& after.deferred == model.deferred
            &&& done ==> after.next_deferred == model.next_deferred && after.metrics.dropped_txs
                == model.metrics.dropped_txs
            &&& !done ==> kept != given_up
            &&& kept ==> after.metrics.dropped_txs == model.metrics.dropped_txs
            &&& kept ==> after.next_deferred.drop_last() == model.next_deferred
            &&& kept ==> after.next_deferred.last().id == job.id
            &&& kept ==> after.next_deferred.last().created_generation == job.created_generation
            &&& !kept ==> after.next_deferred == model.next_deferred
        }),
{
}

/// An entry that is put off has been retried once more, and not more often than
/// allowed; an entry that has used up its retries is not put off again.
pub proof fn law_retries_are_bounded(model: RiftModel, job: DeferredTx, reply: Reply)
    ensures
        ({
            let after = after_entry(model, job, reply);
            let kept = after.next_deferred.len() == model.next_deferred.len() + 1;
            &&& kept ==> job.retry_count < model.config.max_retry_count
            &&& kept ==> after.next_deferred.last().retry_count == job.retry_count + 1
            &&& kept ==> after.next_deferred.last().retry_count <= model.config.max_retry_count
        }),
{
}

/// An entry that met hot accounts, or locks in conflict, waits for as long as
/// its number of retries asks for; one that no thread could take waits for one
/// generation.
pub proof fn law_backoff_follows_retries(model: RiftModel, job: DeferredTx, reply: Reply)
    ensures
        ({
            let after = after_entry(model, job, reply);
            let kept = after.next_deferred.len() == model.next_deferred.len() + 1;
            let delay = if model.screening(job, reply.tx()->0) is Try && reply is NoThread {
                1
            } else {
                backoff(job.retry_count)
            };
            kept ==> after.next_deferred.last().ready_generation == generation_after(
                model.generation,
                delay,
            )
        }),
{
}

/// Whether `after` comes from `before` by one more failed attempt in
/// `generation`.
pub open spec fn is_retry_of(
    after: DeferredTx,
    before: DeferredTx,
    generation: u32,
    max_retry_count: u8,
) -> bool {
    &&& after.id == before.id
    &&& after.created_generation == before.created_generation
    &&& after.retry_count == before.retry_count + 1
    &&& after.retry_count <= max_retry_count
    &&& after.ready_generation <= generation + backoff(before.retry_count)
}

/// Every entry of the queue after a pass was in it before. Either it was not
/// ready and is what it was, or it was ready and has been retried once more,
/// not more often than allowed, and waits no longer than its backoff.
pub proof fn law_queue_after_pass(
    model: RiftModel,
    replies: Seq<Reply>,
    elapsed_ns: u64,
    entry: DeferredTx,
)
    requires
        model.next_deferred == Seq::<DeferredTx>::empty(),
        after_pass(model, replies, elapsed_ns).deferred.contains(entry),
    ensures
        exists|old_entry: DeferredTx| #[trigger]
            model.deferred.contains(old_entry) && {
                if old_entry.ready_generation > model.next_generation() {
                    entry == old_entry
                } else {
                    is_retry_of(
                        entry,
                        old_entry,
                        model.next_generation(),
                        model.config.max_retry_count,
                    )
                }
            },
{
    let generation = model.next_generation();
    let jobs = ready_in(model.deferred, generation);
    let waiting = waiting_in(model.deferred, generation);
    let end = after_entries(model.begun(), jobs, replies, jobs.len());
    lemma_entries_keep_what_waits(model.begun(), jobs, replies, jobs.len());
    assert(after_pass(model, replies, elapsed_ns).deferred == waiting + end.next_deferred);
    let i = choose|i: int|
        0 <= i < (waiting + end.next_deferred).len() && (waiting + end.next_deferred)[i] == entry;
    if i < waiting.len() {
        assert(waiting[i] == entry);
        assert(waiting.contains(entry));
        lemma_filter_comes_from(
            model.deferred,
            |d: DeferredTx| d.ready_generation > generation,
            entry,
        );
    } else {
        let j = i - waiting.len();
        assert(end.next_deferred[j] == entry);
        let k = lemma_put_off_comes_from_job(model.begun(), jobs, replies, jobs.len(), j);
        assert(jobs.contains(jobs[k]));
        lemma_filter_comes_from(
            model.deferred,
            |d: DeferredTx| d.ready_generation <= generation,
            jobs[k],
        );
    }
}

/// A pass leaves the entries that wait where they are, and does not change the
/// parameters or the generation.
proof fn lemma_entries_keep_what_waits(
    model: RiftModel,
    jobs: Seq<DeferredTx>,
    replies: Seq<Reply>,
    n: nat,
)
    ensures
        after_entries(model, jobs, replies, n).deferred == model.deferred,
        after_entries(model, jobs, replies, n).config == model.config,
        after_entries(model, jobs, replies, n).generation == model.generation,
    decreases n,
{
    if n > 0 {
        lemma_entries_keep_what_waits(model, jobs, replies, (n - 1) as nat);
    }
}

/// What a pass puts off is one of its entries, retried once more.
proof fn lemma_put_off_comes_from_job(
    model: RiftModel,
    jobs: Seq<DeferredTx>,
    replies: Seq<Reply>,
    n: nat,
    j: int,
) -> (k: int)
    requires
        n <= jobs.len(),
        model.next_deferred == Seq::<DeferredTx>::empty(),
        0 <= j < after_entries(model, jobs, replies, n).next_deferred.len(),
    ensures
        0 <= k < n,
        is_retry_of(
            after_entries(model, jobs, replies, n).next_deferred[j],
            jobs[k],
            model.generation,
            model.config.max_retry_count,
        ),
    decreases n,
{
    if n == 0 {
        0
    } else {
        let earlier = after_entries(model, jobs, replies, (n - 1) as nat);
        lemma_entries_keep_what_waits(model, jobs, replies, (n - 1) as nat);
        law_no_entry_is_lost(earlier, jobs[n - 1], replies[n - 1]);
        law_retries_are_bounded(earlier, jobs[n - 1], replies[n - 1]);
        law_backoff_follows_retries(earlier, jobs[n - 1], replies[n - 1]);
        law_backoff_doubles(jobs[n - 1].retry_count);
        if j < earlier.next_deferred.len() {
            lemma_put_off_comes_from_job(model, jobs, replies, (n - 1) as nat, j)
        } else {
            n - 1
        }
    }
}

/// Whether every entry of the queue is one that a pass may have left there: it
/// has failed at least once, has not used up its retries, and does not wait
/// longer than its backoff.
pub open spec fn settled(model: RiftModel) -> bool {
    &&& model.next_deferred == Seq::<DeferredTx>::empty()
    &&& forall|d: DeferredTx| #[trigger]
        model.deferred.contains(d) ==> {
            &&& 1 <= d.retry_count <= model.config.max_retry_count
            &&& d.ready_generation <= model.generation + backoff((d.retry_count - 1) as u8)
        }
}

/// A new scheduler is settled, and passes keep it so, until the generation
/// wraps.
pub proof fn law_passes_stay_settled(
    config: RiftSchedulerConfig,
    model: RiftModel,
    replies: Seq<Reply>,
    elapsed_ns: u64,
)
    requires
        settled(model),
        model.generation < u32::MAX,
    ensures
        settled(RiftModel::initial(config)),
        settled(after_pass(model, replies, elapsed_ns)),
{
    let after = after_pass(model, replies, elapsed_ns);
    lemma_pass_advances(model, replies, elapsed_ns);
    assert forall|d: DeferredTx| #[trigger] after.deferred.contains(d) implies {
        &&& 1 <= d.retry_count <= after.config.max_retry_count
        &&& d.ready_generation <= after.generation + backoff((d.retry_count - 1) as u8)
    } by {
        law_queue_after_pass(model, replies, elapsed_ns, d);
    }
}

/// A pass advances the generation, and leaves the parameters alone.
proof fn lemma_pass_advances(model: RiftModel, replies: Seq<Reply>, elapsed_ns: u64)
    ensures
        after_pass(model, replies, elapsed_ns).generation == model.next_generation(),
        after_pass(model, replies, elapsed_ns).config == model.config,
        after_pass(model, replies, elapsed_ns).next_deferred == Seq::<DeferredTx>::empty(),
{
    let jobs = ready_in(model.deferred, model.next_generation());
    lemma_entries_keep_what_waits(model.begun(), jobs, replies, jobs.len());
}

/// Whether no entry stays for more than `bound` passes.
pub open spec fn leaves_within(model: RiftModel, bound: int) -> bool {
    forall|d: DeferredTx| #[trigger]
        model.deferred.contains(d) ==> lifetime(
            d.ready_generation,
            d.retry_count,
            model.generation,
            model.config.max_retry_count,
        ) <= bound
}

/// Every pass brings each entry of the queue one pass closer to leaving it,
/// whatever becomes of the entries that are tried.
pub proof fn law_every_pass_shortens_the_wait(
    model: RiftModel,
    replies: Seq<Reply>,
    elapsed_ns: u64,
    bound: int,
)
    requires
        model.next_deferred == Seq::<DeferredTx>::empty(),
        model.generation < u32::MAX,
        leaves_within(model, bound),
    ensures
        leaves_within(after_pass(model, replies, elapsed_ns), bound - 1),
{
    let after = after_pass(model, replies, elapsed_ns);
    let max = model.config.max_retry_count;
    lemma_pass_advances(model, replies, elapsed_ns);
    assert forall|d: DeferredTx| #[trigger] after.deferred.contains(d) implies lifetime(
        d.ready_generation,
        d.retry_count,
        after.generation,
        max,
    ) <= bound - 1 by {
        law_queue_after_pass(model, replies, elapsed_ns, d);
        let before = choose|old_entry: DeferredTx| #[trigger]
            model.deferred.contains(old_entry) && {
                if old_entry.ready_generation > model.next_generation() {
                    d == old_entry
                } else {
                    is_retry_of(d, old_entry, model.next_generation(), max)
                }
            };
        law_backoff_doubles(before.retry_count);
        assert(lifetime(before.ready_generation, before.retry_count, model.generation, max)
            <= bound);
    }
}

/// The scheduler after passes, each with its replies.
pub open spec fn after_passes(model: RiftModel, passes: Seq<(Seq<Reply>, u64)>) -> RiftModel
    decreases passes.len(),
{
    if passes.len() == 0 {
        model
    } else {
        after_passes(
            after_pass(model, passes.first().0, passes.first().1),
            passes.drop_first(),
        )
    }
}

/// The queue drains: from any state that passes can leave, it is empty after
/// as many passes as all backoffs together have generations, whatever becomes
/// of the entries that are tried.
pub proof fn law_queue_drains(model: RiftModel, passes: Seq<(Seq<Reply>, u64)>)
    requires
        settled(model),
        model.generation + passes.len() <= u32::MAX,
        passes.len() >= total_backoff(0, model.config.max_retry_count as nat),
    ensures
        after_passes(model, passes).deferred == Seq::<DeferredTx>::empty(),
{
    let max = model.config.max_retry_count;
    assert forall|d: DeferredTx| #[trigger] model.deferred.contains(d) implies lifetime(
        d.ready_generation,
        d.retry_count,
        model.generation,
        max,
    ) <= passes.len() by {
        law_backoff_doubles((d.retry_count - 1) as u8);
        lemma_total_backoff_grows((d.retry_count - 1) as nat, max as nat);
    }
    lemma_queue_empties(model, passes);
}

proof fn lemma_queue_empties(model: RiftModel, passes: Seq<(Seq<Reply>, u64)>)
    requires
        model.next_deferred == Seq::<DeferredTx>::empty(),
        leaves_within(model, passes.len() as int),
        model.generation + passes.len() <= u32::MAX,
    ensures
        after_passes(model, passes).deferred == Seq::<DeferredTx>::empty(),
    decreases passes.len(),
{
    if passes.len() == 0 {
        if model.deferred.len() > 0 {
            assert(model.deferred.contains(model.deferred[0]));
        }
    } else {
        let (replies, elapsed_ns) = passes.first();
        law_every_pass_shortens_the_wait(model, replies, elapsed_ns, passes.len() as int);
        lemma_pass_advances(model, replies, elapsed_ns);
        lemma_queue_empties(after_pass(model, replies, elapsed_ns), passes.drop_first());
    }
}

/// Beginning a pass parts the queue in two and loses nothing.
pub proof fn law_pass_parts_the_queue(model: RiftModel)
    ensures
        ready_in(model.deferred, model.next_generation()).to_multiset().add(
            model.begun().deferred.to_multiset(),
        ) == model.deferred.to_multiset(),
{
    lemma_split_keeps_all(model.deferred, model.next_generation());
}

proof fn lemma_split_keeps_all(queue: Seq<DeferredTx>, generation: u32)
    ensures
        ready_in(queue, generation).to_multiset().add(waiting_in(queue, generation).to_multiset())
            == queue.to_multiset(),
    decreases queue.len(),
{
    broadcast use {vstd::seq_lib::group_to_multiset_ensures, vstd::multiset::group_multiset_axioms};

    reveal(Seq::filter);
    let none = Multiset::<DeferredTx>::empty();
    if queue.len() == 0 {
        assert(queue.to_multiset() == none);
        assert(ready_in(queue, generation).to_multiset() == none);
        assert(waiting_in(queue, generation).to_multiset() == none);
    } else {
        let shorter = queue.drop_last();
        lemma_split_keeps_all(shorter, generation);
        assert(queue == shorter.push(queue.last()));
        if queue.last().ready_generation <= generation {
            assert(ready_in(queue, generation) == ready_in(shorter, generation).push(queue.last()));
            assert(waiting_in(queue, generation) == waiting_in(shorter, generation));
        } else {
            assert(ready_in(queue, generation) == ready_in(shorter, generation));
            assert(waiting_in(queue, generation) == waiting_in(shorter, generation).push(
                queue.last(),
            ));
        }
        assert(ready_in(queue, generation).to_multiset().add(
            waiting_in(queue, generation).to_multiset(),
        ) =~= queue.to_multiset());
    }
}

/// The batches that a pass has sent and the counter of all batches grow by the
/// same number each time.
pub proof fn law_batches_are_counted_once(
    model: RiftModel,
    pass: PassModel,
    before: u64,
    batches: usize,
)
    requires
        model.metrics.total_batches_sent == tallied(before, pass.num_sent as u64),
        pass.num_sent + batches <= usize::MAX,
    ensures
        model.sent(batches).metrics.total_batches_sent == tallied(
            before,
            pass.sent(batches).num_sent as u64,
        ),
{
}

/// A budget does not grow, and does not go below zero.
pub proof fn law_budget_only_shrinks(pass: PassModel, cost: u64)
    ensures
        pass.added(cost).remaining_budget <= pass.remaining_budget,
        cost <= pass.remaining_budget ==> pass.added(cost).remaining_budget + cost
            == pass.remaining_budget,
        cost > pass.remaining_budget ==> pass.added(cost).remaining_budget == 0,
{
}

// Heat

/// Every record is of the current generation, warm, within its bound, and of an
/// account that was written within [`MAX_GENERATION_AGE`] generations.
pub open spec fn heat_is_normalized(model: RiftModel) -> bool {
    forall|k: AccountKey| #[trigger]
        model.hotspots.contains_key(k) ==> {
            &&& model.hotspots[k].generation == model.generation
            &&& 0 < model.hotspots[k].heat <= MAX_ACCOUNT_HEAT
            &&& generations_between(model.generation, model.hotspots[k].touched)
                <= MAX_GENERATION_AGE
        }
}

/// No record is hotter than [`MAX_ACCOUNT_HEAT`].
pub open spec fn heat_is_bounded(model: RiftModel) -> bool {
    forall|k: AccountKey| #[trigger]
        model.hotspots.contains_key(k) ==> model.hotspots[k].heat <= MAX_ACCOUNT_HEAT
}

/// At every moment of a pass the stored heat is that of the current generation,
/// so that a score needs no decay of its own, and accounts that have not been
/// written for too long are forgotten.
pub proof fn law_heat_is_normalized_throughout_a_pass(
    model: RiftModel,
    jobs: Seq<DeferredTx>,
    replies: Seq<Reply>,
    n: nat,
)
    requires
        heat_is_bounded(model),
    ensures
        heat_is_normalized(after_entries(model.begun(), jobs, replies, n)),
    decreases n,
{
    if n == 0 {
        let begun = model.begun();
        assert forall|k: AccountKey| #[trigger] begun.hotspots.contains_key(k) implies {
            &&& begun.hotspots[k].generation == begun.generation
            &&& 0 < begun.hotspots[k].heat <= MAX_ACCOUNT_HEAT
            &&& generations_between(begun.generation, begun.hotspots[k].touched)
                <= MAX_GENERATION_AGE
        } by {
            law_cooling_normalises(cooling(), model.hotspots, begun.generation, k);
        }
    } else {
        law_heat_is_normalized_throughout_a_pass(model, jobs, replies, (n - 1) as nat);
        let earlier = after_entries(model.begun(), jobs, replies, (n - 1) as nat);
        match replies[n - 1].tx() {
            Some(tx) => {
                lemma_marking_keeps_heat_normalized(earlier, tx);
                let after = after_entry(earlier, jobs[n - 1], replies[n - 1]);
                assert(after.generation == earlier.generation);
                assert(after.hotspots == earlier.hotspots || after.hotspots == earlier.marking(
                    tx,
                ).hotspots);
            },
            None => {},
        }
    }
}

/// No account ever gets hotter than [`MAX_ACCOUNT_HEAT`].
pub proof fn law_heat_stays_bounded(
    config: RiftSchedulerConfig,
    model: RiftModel,
    replies: Seq<Reply>,
    elapsed_ns: u64,
)
    requires
        heat_is_bounded(model),
    ensures
        heat_is_bounded(RiftModel::initial(config)),
        heat_is_bounded(after_pass(model, replies, elapsed_ns)),
{
    let jobs = ready_in(model.deferred, model.next_generation());
    law_heat_is_normalized_throughout_a_pass(model, jobs, replies, jobs.len());
    let end = after_entries(model.begun(), jobs, replies, jobs.len());
    assert(after_pass(model, replies, elapsed_ns).hotspots == end.hotspots);
    assert forall|k: AccountKey| #[trigger] end.hotspots.contains_key(k) implies end.hotspots[k].heat
        <= MAX_ACCOUNT_HEAT by {}
}

proof fn lemma_marking_keeps_heat_normalized(model: RiftModel, tx: FootprintView)
    requires
        heat_is_normalized(model),
    ensures
        heat_is_normalized(model.marking(tx)),
{
    let after = model.marking(tx);
    law_heat_is_bounded(
        heating(),
        model.hotspots,
        tx.writes(),
        model.generation,
        MAX_ACCOUNT_HEAT,
    );
    assert forall|k: AccountKey| #[trigger] after.hotspots.contains_key(k) implies {
        &&& after.hotspots[k].generation == after.generation
        &&& 0 < after.hotspots[k].heat <= MAX_ACCOUNT_HEAT
        &&& generations_between(after.generation, after.hotspots[k].touched) <= MAX_GENERATION_AGE
    } by {
        if tx.writes().contains(k) {
            law_heating_records_writes(heating(), model.hotspots, tx.writes(), model.generation, k);
            lemma_written_is_warm(model.hotspots, tx.writes(), model.generation, k);
        } else {
            law_heating_is_local(heating(), model.hotspots, tx.writes(), model.generation, k);
        }
    }
}

/// An account that was just written is not cold.
proof fn lemma_written_is_warm(
    table: Map<AccountKey, HotAccountMeta>,
    keys: Seq<AccountKey>,
    generation: u32,
    key: AccountKey,
)
    requires
        keys.contains(key),
    ensures
        heating().mark(table, keys, generation)[key].heat > 0,
    decreases keys.len(),
{
    if key != keys.last() {
        let i = choose|i: int| 0 <= i < keys.len() && keys[i] == key;
        assert(keys.drop_last()[i] == key);
        lemma_written_is_warm(table, keys.drop_last(), generation, key);
    }
}

} // verus!

use agave_rift_scheduler::heat::HotAccountMeta;
use agave_rift_scheduler::rift::{
    RiftSchedulerConfig, TransactionFootprint, TransactionPriorityId,
};
use agave_rift_scheduler::rift_scheduler::{
    Attempt, DeferredTx, Origin, Placement, Request, RiftPass, RiftScheduler, SchedulingSummary,
    Trial,
};
use solana_pubkey::Pubkey;

const KEY: [u8; 32] = [7; 32];
const OTHER: [u8; 32] = [8; 32];

fn small_config() -> RiftSchedulerConfig {
    RiftSchedulerConfig {
        target_scheduled_cus: 1000,
        max_scanned_transactions_per_scheduling_pass: 3,
        target_transactions_per_batch: 4,
        target_entry_bytes_per_batch: 500,
        hotspot_capacity: 1,
        max_retry_count: 2,
    }
}

fn new_scheduler() -> RiftScheduler {
    RiftScheduler::new(small_config(), 48)
}

fn write_to(key: [u8; 32]) -> TransactionFootprint {
    TransactionFootprint { account_keys: vec![key], writable: vec![true], serialized_size: 100 }
}

fn named(id: usize) -> TransactionPriorityId {
    TransactionPriorityId { priority: 1, id }
}

fn waiting(id: usize, retry_count: u8, ready_generation: u32) -> DeferredTx {
    DeferredTx { id: named(id), retry_count, ready_generation }
}

fn warm(scheduler: &mut RiftScheduler, key: [u8; 32], times: usize) {
    for _ in 0..times {
        scheduler.mark_hot_accounts(&write_to(key));
    }
}

fn open(scheduler: &mut RiftScheduler, budget: u64, cus: &[u64]) -> RiftPass {
    match scheduler.begin_pass(budget, cus, 5, 6) {
        Ok(pass) => pass,
        Err(_) => panic!("expected a pass"),
    }
}

fn attempted(request: Request) -> Attempt {
    match request {
        Request::LookUp(attempt) => attempt,
        _ => panic!("expected a look-up"),
    }
}

fn tried(request: Request) -> Trial {
    match request {
        Request::TrySchedule(trial) => trial,
        _ => panic!("expected a trial"),
    }
}

fn added_to(request: Request) -> Placement {
    match request {
        Request::AddToBatch(placement) => placement,
        _ => panic!("expected a transaction to be added"),
    }
}

fn weighed_for(request: Request) -> Placement {
    match request {
        Request::Weigh(placement) => placement,
        _ => panic!("expected a thread to be weighed"),
    }
}

/// Takes a fresh transaction from the queue up to its trial.
fn fresh_trial(scheduler: &mut RiftScheduler, pass: &mut RiftPass, id: usize) -> Trial {
    assert!(matches!(scheduler.fresh_checked(pass, false), Request::Pop));
    let attempt = attempted(scheduler.popped(pass, Some(named(id))));
    assert_eq!(attempt.origin, Origin::Fresh);
    tried(scheduler.found(pass, attempt, write_to(KEY)))
}

#[test]
fn idle_pass_without_budget() {
    let mut scheduler = new_scheduler();
    let outcome = scheduler.begin_pass(100, &[60, 40], 5, 6);
    match outcome {
        Ok(_) => panic!("nothing is left to spend"),
        Err(summary) => assert_eq!(
            summary,
            SchedulingSummary {
                starting_queue_size: 5,
                starting_buffer_size: 6,
                num_scheduled: 0,
                num_unschedulable_conflicts: 0,
                num_unschedulable_threads: 0,
            }
        ),
    }
    assert_eq!(scheduler.metrics.scheduler_passes, 1);
    assert_eq!(scheduler.current_generation, 1);
}

#[test]
fn idle_pass_without_threads() {
    let mut scheduler = new_scheduler();
    assert!(scheduler.begin_pass(u64::MAX, &[500, 501], 0, 0).is_err());
    assert!(scheduler.begin_pass(u64::MAX, &[500, 499], 0, 0).is_ok());
}

#[test]
fn pass_starts_on_threads_below_their_share() {
    let mut scheduler = new_scheduler();
    let mut pass = open(&mut scheduler, 10_000, &[332, 333, 0]);
    assert!(matches!(scheduler.round_checked(&mut pass, false), Request::CheckFresh));
    let trial = fresh_trial(&mut scheduler, &mut pass, 1);
    assert!(trial.threads.contains(0));
    assert!(!trial.threads.contains(1));
    assert!(trial.threads.contains(2));
    assert_eq!(trial.threads.num_threads(), 2);
}

#[test]
fn score_halves_old_heat_once() {
    let mut scheduler = new_scheduler();
    warm(&mut scheduler, KEY, 21);
    assert_eq!(scheduler.tx_conflict_score(&write_to(KEY)), 21);
    scheduler.current_generation = 1;
    assert_eq!(scheduler.tx_conflict_score(&write_to(KEY)), 10);
    scheduler.current_generation = 16;
    assert_eq!(scheduler.tx_conflict_score(&write_to(KEY)), 10);
    scheduler.current_generation = 17;
    assert_eq!(scheduler.tx_conflict_score(&write_to(KEY)), 0);
    scheduler.current_generation = 1;
    warm(&mut scheduler, OTHER, 5);
    let both = TransactionFootprint {
        account_keys: vec![KEY, OTHER, KEY],
        writable: vec![true, true, false],
        serialized_size: 1,
    };
    assert_eq!(scheduler.tx_conflict_score(&both), 15);
}

#[test]
fn score_that_does_not_fit_is_told() {
    let mut scheduler = new_scheduler();
    for n in 0..2u8 {
        scheduler.hotspot_accounts.insert(
            Pubkey::new_from_array([n; 32]),
            HotAccountMeta { generation: 0, touched: 0, heat: u16::MAX },
        );
    }
    // 65,537 times 65,535 is the largest sum that fits.
    let mut tx = TransactionFootprint {
        account_keys: vec![[0; 32]; 65_537],
        writable: vec![true; 65_537],
        serialized_size: 1,
    };
    assert_eq!(scheduler.checked_conflict_score(&tx), Some(u32::MAX));
    assert_eq!(scheduler.tx_conflict_score(&tx), u32::MAX);
    tx.account_keys.push([2; 32]);
    tx.writable.push(true);
    assert_eq!(scheduler.checked_conflict_score(&tx), Some(u32::MAX));
    tx.account_keys.push([1; 32]);
    tx.writable.push(true);
    assert_eq!(scheduler.checked_conflict_score(&tx), None);
}

#[test]
fn batch_scheduler_bounds_heat() {
    let mut scheduler = new_scheduler();
    warm(&mut scheduler, KEY, 300);
    assert_eq!(scheduler.tx_conflict_score(&write_to(KEY)), 255);
}

#[test]
fn retry_backoff_doubles() {
    let scheduler = new_scheduler();
    assert_eq!(scheduler.retry_backoff_generations(0), 1);
    assert_eq!(scheduler.retry_backoff_generations(5), 32);
    assert_eq!(scheduler.retry_backoff_generations(8), 256);
    assert_eq!(scheduler.retry_backoff_generations(200), 256);
}

#[test]
fn cleanup_waits_until_the_table_is_full() {
    let mut scheduler = new_scheduler();
    warm(&mut scheduler, KEY, 40);
    scheduler.current_generation = 50;
    scheduler.cleanup_hotspots();
    assert_eq!(scheduler.hotspot_accounts.len(), 1);

    // Two records are twice the capacity: the expired one goes.
    warm(&mut scheduler, OTHER, 40);
    scheduler.cleanup_hotspots();
    assert_eq!(scheduler.hotspot_accounts.len(), 1);
    assert!(scheduler.hotspot_accounts.contains_key(&Pubkey::new_from_array(OTHER)));
}

#[test]
fn cleanup_takes_heat_but_keeps_the_generation() {
    let mut scheduler = new_scheduler();
    warm(&mut scheduler, KEY, 100);
    warm(&mut scheduler, OTHER, 15);
    scheduler.current_generation = 9;
    scheduler.cleanup_hotspots();
    let left: Vec<(Pubkey, HotAccountMeta)> =
        scheduler.hotspot_accounts.iter().map(|(key, meta)| (*key, *meta)).collect();
    assert_eq!(
        left,
        vec![(Pubkey::new_from_array(KEY), HotAccountMeta { generation: 0, touched: 0, heat: 6 })]
    );
}

#[test]
fn round_passes_over_what_is_not_ready() {
    let mut scheduler = new_scheduler();
    scheduler.deferred = vec![waiting(1, 1, 9), waiting(2, 1, 1), waiting(3, 1, 9)];
    let mut pass = open(&mut scheduler, 100, &[0]);
    let attempt = attempted(scheduler.round_checked(&mut pass, true));
    assert_eq!(attempt, Attempt { job: waiting(2, 1, 1), origin: Origin::Retry });
    assert_eq!(scheduler.next_deferred, vec![waiting(1, 1, 9)]);
    assert!(matches!(scheduler.missing(&mut pass, attempt), Request::CheckFresh));
    assert_eq!(scheduler.next_deferred, vec![waiting(1, 1, 9), waiting(3, 1, 9)]);
    assert!(matches!(scheduler.fresh_checked(&pass, true), Request::CheckRound));
    assert_eq!(scheduler.deferred, vec![waiting(1, 1, 9), waiting(3, 1, 9)]);
    assert!(scheduler.next_deferred.is_empty());
}

#[test]
fn idle_rounds_change_nothing() {
    let mut scheduler = new_scheduler();
    scheduler.deferred = vec![waiting(1, 1, 9), waiting(2, 1, 9)];
    let mut pass = open(&mut scheduler, 100, &[0]);
    for _ in 0..3 {
        assert!(matches!(scheduler.round_checked(&mut pass, true), Request::CheckFresh));
        assert!(matches!(scheduler.fresh_checked(&pass, true), Request::CheckRound));
        assert_eq!(scheduler.deferred, vec![waiting(1, 1, 9), waiting(2, 1, 9)]);
        assert!(scheduler.next_deferred.is_empty());
    }
}

#[test]
fn pass_stops_scanning_at_its_limit() {
    let mut scheduler = new_scheduler();
    scheduler.deferred = (0..5).map(|id| waiting(id, 1, 0)).collect();
    let mut pass = open(&mut scheduler, 100, &[0]);
    let mut request = scheduler.round_checked(&mut pass, false);
    for id in 0..3 {
        let attempt = attempted(request);
        assert_eq!(attempt.job.id.id, id);
        request = scheduler.missing(&mut pass, attempt);
    }
    assert!(matches!(request, Request::CheckFresh));
    assert!(matches!(scheduler.fresh_checked(&pass, false), Request::CheckRound));
    assert!(matches!(scheduler.round_checked(&mut pass, false), Request::SendLast));
    let (_, ids) = scheduler.finish(pass, 0, 0);
    assert_eq!(ids, vec![named(3), named(4)]);
    assert!(scheduler.deferred.is_empty());
    assert_eq!(scheduler.metrics.total_scanned, 3);
}

#[test]
fn empty_pop_ends_the_round() {
    let mut scheduler = new_scheduler();
    scheduler.next_deferred = vec![waiting(4, 1, 9)];
    let mut pass = open(&mut scheduler, 100, &[0]);
    assert!(matches!(scheduler.popped(&mut pass, None), Request::CheckRound));
    assert_eq!(scheduler.deferred, vec![waiting(4, 1, 9)]);
}

#[test]
fn pass_ends_when_there_is_nothing_to_look_at() {
    let mut scheduler = new_scheduler();
    let mut pass = open(&mut scheduler, 100, &[0]);
    assert!(matches!(scheduler.round_checked(&mut pass, true), Request::SendLast));
}

#[test]
fn hot_accounts_are_screened_out_while_retries_last() {
    let mut scheduler = new_scheduler();
    warm(&mut scheduler, KEY, 16);
    scheduler.deferred = vec![waiting(1, 1, 0), waiting(2, 2, 0)];
    let mut pass = open(&mut scheduler, 100, &[0]);
    let attempt = attempted(scheduler.round_checked(&mut pass, true));
    // One generation has halved the heat to 8, which is just too hot.
    let request = scheduler.found(&mut pass, attempt, write_to(KEY));
    assert_eq!(scheduler.next_deferred, vec![waiting(1, 2, 3)]);
    assert_eq!(scheduler.metrics.deferred_retries, 1);

    // The other one has used up its retries, and is tried.
    let attempt = attempted(request);
    assert_eq!(attempt.job, waiting(2, 2, 0));
    let trial = tried(scheduler.found(&mut pass, attempt, write_to(KEY)));
    assert_eq!(trial.attempt.job, waiting(2, 2, 0));
    assert_eq!(scheduler.metrics.deferred_retries, 1);
}

#[test]
fn readers_are_not_screened_out() {
    let mut scheduler = new_scheduler();
    warm(&mut scheduler, KEY, 200);
    scheduler.deferred = vec![waiting(1, 0, 0)];
    let mut pass = open(&mut scheduler, 100, &[0]);
    let attempt = attempted(scheduler.round_checked(&mut pass, true));
    let reader = TransactionFootprint {
        account_keys: vec![KEY],
        writable: vec![false],
        serialized_size: 1,
    };
    tried(scheduler.found(&mut pass, attempt, reader));
}

#[test]
fn fresh_transaction_goes_through_a_whole_pass() {
    let mut scheduler = new_scheduler();
    let mut pass = open(&mut scheduler, 1000, &[0, 10]);
    assert!(matches!(scheduler.round_checked(&mut pass, false), Request::CheckFresh));

    let trial = fresh_trial(&mut scheduler, &mut pass, 1);
    assert_eq!(trial.attempt.job, waiting(1, 0, 1));
    // 400 + 100 bytes just fit.
    let placement = added_to(scheduler.scheduled(trial, 1, 30, 400));
    assert_eq!(placement.transaction_bytes, 100);
    assert_eq!(placement.thread_id, 1);
    assert_eq!(placement.cost, 30);
    let placement = weighed_for(scheduler.added(&mut pass, placement, 1, 499));
    assert_eq!(scheduler.metrics.total_batch_fill_ratio_ppm, 250_000);
    // 10 + 489 is below the share of 500.
    assert!(matches!(scheduler.weighed(&mut pass, placement, 10, 489), Request::CheckFresh));

    let trial = fresh_trial(&mut scheduler, &mut pass, 2);
    assert!(trial.threads.contains(1));
    let placement = match scheduler.scheduled(trial, 1, 40, 401) {
        Request::SendThenAdd(placement) => placement,
        _ => panic!("expected batches to be sent first"),
    };
    let placement = added_to(scheduler.sent_before(&mut pass, placement, 2));
    let placement = match scheduler.added(&mut pass, placement, 4, 100) {
        Request::SendThenWeigh(placement) => placement,
        _ => panic!("expected a full batch to be sent"),
    };
    assert_eq!(scheduler.metrics.total_batch_fill_ratio_ppm, 1_250_000);
    let placement = weighed_for(scheduler.sent_after(&mut pass, placement, 1));
    // 11 + 489 is the share: the thread takes no more.
    assert!(matches!(scheduler.weighed(&mut pass, placement, 11, 489), Request::CheckFresh));

    let trial = fresh_trial(&mut scheduler, &mut pass, 3);
    assert!(trial.threads.contains(0));
    assert!(!trial.threads.contains(1));
    assert!(matches!(scheduler.without_thread(&mut pass, trial), Request::CheckFresh));
    assert_eq!(scheduler.next_deferred, vec![waiting(3, 1, 2)]);

    assert!(matches!(scheduler.fresh_checked(&pass, false), Request::CheckRound));
    assert!(matches!(scheduler.round_checked(&mut pass, false), Request::SendLast));
    let (summary, ids) = scheduler.finish(pass, 4, 99);
    assert_eq!(
        summary,
        SchedulingSummary {
            starting_queue_size: 5,
            starting_buffer_size: 6,
            num_scheduled: 2,
            num_unschedulable_conflicts: 0,
            num_unschedulable_threads: 1,
        }
    );
    assert_eq!(ids, vec![named(3)]);
    assert!(scheduler.deferred.is_empty());
    assert!(scheduler.next_deferred.is_empty());
    assert_eq!(scheduler.metrics.scheduled_txs, 2);
    assert_eq!(scheduler.metrics.total_batches_sent, 7);
    assert_eq!(scheduler.metrics.total_scanned, 3);
    assert_eq!(scheduler.metrics.unschedulable_threads, 1);
    assert_eq!(scheduler.metrics.total_schedule_time_ns, 99);
}

#[test]
fn full_bytes_send_a_batch() {
    let mut scheduler = new_scheduler();
    let mut pass = open(&mut scheduler, 1000, &[0]);
    scheduler.round_checked(&mut pass, false);
    let trial = fresh_trial(&mut scheduler, &mut pass, 1);
    let placement = added_to(scheduler.scheduled(trial, 0, 30, 400));
    assert!(matches!(
        scheduler.added(&mut pass, placement, 1, 500),
        Request::SendThenWeigh(_)
    ));
}

#[test]
fn spent_budget_ends_the_pass() {
    let mut scheduler = new_scheduler();
    let mut pass = open(&mut scheduler, 50, &[20]);
    scheduler.round_checked(&mut pass, false);
    let trial = fresh_trial(&mut scheduler, &mut pass, 1);
    let placement = added_to(scheduler.scheduled(trial, 0, 31, 0));
    let placement = weighed_for(scheduler.added(&mut pass, placement, 1, 100));
    assert!(matches!(scheduler.weighed(&mut pass, placement, 20, 31), Request::CheckFresh));
    assert!(matches!(scheduler.fresh_checked(&pass, true), Request::CheckRound));
    assert!(matches!(scheduler.round_checked(&mut pass, false), Request::SendLast));
}

#[test]
fn full_threads_end_the_pass() {
    let mut scheduler = new_scheduler();
    let mut pass = open(&mut scheduler, 5000, &[20]);
    scheduler.round_checked(&mut pass, false);
    let trial = fresh_trial(&mut scheduler, &mut pass, 1);
    let placement = added_to(scheduler.scheduled(trial, 0, 980, 0));
    let placement = weighed_for(scheduler.added(&mut pass, placement, 1, 100));
    scheduler.weighed(&mut pass, placement, 20, 980);
    assert!(matches!(scheduler.fresh_checked(&pass, false), Request::CheckRound));
    assert!(matches!(scheduler.round_checked(&mut pass, false), Request::SendLast));
}

#[test]
fn conflicts_are_never_dropped() {
    let mut scheduler = new_scheduler();
    scheduler.deferred = vec![waiting(1, u8::MAX, 0)];
    let mut pass = open(&mut scheduler, 100, &[0]);
    let attempt = attempted(scheduler.round_checked(&mut pass, true));
    let trial = tried(scheduler.found(&mut pass, attempt, write_to(KEY)));
    assert!(matches!(scheduler.conflicted(&mut pass, trial), Request::CheckFresh));
    assert_eq!(scheduler.next_deferred, vec![waiting(1, u8::MAX, 257)]);
    assert_eq!(scheduler.metrics.lock_conflicts, 1);
    assert_eq!(scheduler.tx_conflict_score(&write_to(KEY)), 1);
}

#[test]
fn pass_accounts_for_everything_it_held_or_popped() {
    let mut scheduler = new_scheduler();
    scheduler.deferred = vec![waiting(1, 1, 9), waiting(2, 1, 0), waiting(3, 1, 0)];
    let mut pass = open(&mut scheduler, 1000, &[0]);
    let mut queue = vec![named(5), named(4)];
    let mut added = Vec::new();
    let mut missing = Vec::new();
    let mut tried = 0;
    let mut request = Request::CheckRound;
    loop {
        request = match request {
            Request::CheckRound => scheduler.round_checked(&mut pass, queue.is_empty()),
            Request::CheckFresh => scheduler.fresh_checked(&pass, queue.is_empty()),
            Request::Pop => scheduler.popped(&mut pass, queue.pop()),
            Request::LookUp(attempt) => {
                tried += 1;
                if attempt.job.id.id == 2 {
                    missing.push(attempt.job.id.id);
                    scheduler.missing(&mut pass, attempt)
                } else {
                    scheduler.found(&mut pass, attempt, write_to(KEY))
                }
            }
            Request::TrySchedule(trial) => {
                if trial.attempt.job.id.id == 3 {
                    scheduler.conflicted(&mut pass, trial)
                } else {
                    scheduler.scheduled(trial, 0, 1, 0)
                }
            }
            Request::AddToBatch(placement) => {
                added.push(placement.attempt.job.id.id);
                scheduler.added(&mut pass, placement, 1, 100)
            }
            Request::Weigh(placement) => scheduler.weighed(&mut pass, placement, 0, 1),
            Request::SendLast => break,
            _ => panic!("nothing is full"),
        };
    }
    let (_, handed_back) = scheduler.finish(pass, 0, 0);
    assert_eq!(tried, 3);
    assert_eq!(added, vec![4]);
    assert_eq!(missing, vec![2]);
    assert_eq!(handed_back, vec![named(1), named(3)]);
    assert_eq!(queue, vec![named(5)]);
    assert!(scheduler.deferred.is_empty() && scheduler.next_deferred.is_empty());
}

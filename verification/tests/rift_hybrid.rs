use agave_rift_scheduler::heat::HotAccountMeta;
use agave_rift_scheduler::rift::{
    RiftSchedulerConfig, TransactionFootprint, TransactionPriorityId,
};
use agave_rift_scheduler::rift_hybrid_scheduler::{
    DeferredTx, Placement, Request, RiftPass, RiftScheduler, Trial,
};
use solana_pubkey::Pubkey;

const KEY: [u8; 32] = [7; 32];
const OTHER: [u8; 32] = [8; 32];

fn config() -> RiftSchedulerConfig {
    RiftSchedulerConfig::for_stage(64, 10_000)
}

fn footprint(keys: &[[u8; 32]], writable: &[bool], serialized_size: u64) -> TransactionFootprint {
    TransactionFootprint {
        account_keys: keys.to_vec(),
        writable: writable.to_vec(),
        serialized_size,
    }
}

fn writer(key: [u8; 32]) -> TransactionFootprint {
    footprint(&[key], &[true], 100)
}

fn entry(id: usize, retry_count: u8, ready_generation: u32) -> DeferredTx {
    DeferredTx {
        id: TransactionPriorityId { priority: 1, id },
        retry_count,
        ready_generation,
        created_generation: 0,
    }
}

fn heat(scheduler: &mut RiftScheduler, key: [u8; 32], times: usize) {
    for _ in 0..times {
        scheduler.mark_hot_accounts(&writer(key));
    }
}

fn looked_up(request: Request) -> DeferredTx {
    match request {
        Request::LookUp(job) => job,
        _ => panic!("expected a look-up"),
    }
}

fn trial(request: Request) -> Trial {
    match request {
        Request::TrySchedule(trial) => trial,
        _ => panic!("expected a trial"),
    }
}

fn to_send(request: Request) -> Placement {
    match request {
        Request::SendBatches(placement) => placement,
        _ => panic!("expected batches to be sent"),
    }
}

fn to_add(request: Request) -> Placement {
    match request {
        Request::AddToBatch(placement) => placement,
        _ => panic!("expected a transaction to be added"),
    }
}

fn begin(scheduler: &mut RiftScheduler) -> (RiftPass, Request) {
    scheduler.begin_pass(1000, 4)
}

#[test]
fn usual_parameters() {
    let config = RiftSchedulerConfig::for_stage(64, 10_000);
    assert_eq!(config.target_scheduled_cus, 15_000_000);
    assert_eq!(config.max_scanned_transactions_per_scheduling_pass, 100_000);
    assert_eq!(config.target_transactions_per_batch, 64);
    assert_eq!(config.target_entry_bytes_per_batch, 1500);
    assert_eq!(config.hotspot_capacity, 16_384);
    assert_eq!(config.max_retry_count, 6);
}

#[test]
fn rift_heat_decays_by_one_bit_per_generation() {
    assert_eq!(RiftScheduler::decayed_heat(200, 0), 200);
    assert_eq!(RiftScheduler::decayed_heat(200, 3), 25);
    assert_eq!(RiftScheduler::decayed_heat(u16::MAX, 15), 1);
    assert_eq!(RiftScheduler::decayed_heat(u16::MAX, 16), 0);
    assert_eq!(RiftScheduler::decayed_heat(u16::MAX, u32::MAX), 0);
}

#[test]
fn rift_score_counts_written_accounts() {
    let mut scheduler = RiftScheduler::new(config());
    assert_eq!(scheduler.tx_conflict_score(&writer(KEY)), 0);
    heat(&mut scheduler, KEY, 3);
    heat(&mut scheduler, OTHER, 2);
    assert_eq!(scheduler.hotspot_accounts.len(), 2);
    assert_eq!(scheduler.tx_conflict_score(&writer(KEY)), 3);
    assert_eq!(scheduler.tx_conflict_score(&footprint(&[KEY, OTHER], &[true, true], 1)), 5);
    assert_eq!(scheduler.tx_conflict_score(&footprint(&[KEY, OTHER], &[false, true], 1)), 2);
    assert_eq!(scheduler.tx_conflict_score(&footprint(&[KEY, KEY], &[true, true], 1)), 6);
    assert_eq!(scheduler.tx_conflict_score(&footprint(&[KEY, OTHER], &[true], 1)), 3);
}

#[test]
fn rift_heat_is_bounded() {
    let mut scheduler = RiftScheduler::new(config());
    heat(&mut scheduler, KEY, 300);
    assert_eq!(scheduler.tx_conflict_score(&writer(KEY)), 255);
}

#[test]
fn rift_cleanup_normalizes_and_forgets() {
    let mut scheduler = RiftScheduler::new(config());
    heat(&mut scheduler, KEY, 9);
    heat(&mut scheduler, OTHER, 3);
    scheduler.current_generation = 2;
    scheduler.cleanup_hotspots();
    assert_eq!(scheduler.hotspot_accounts.len(), 1);
    assert_eq!(scheduler.tx_conflict_score(&writer(KEY)), 2);
    scheduler.cleanup_hotspots();
    assert_eq!(scheduler.tx_conflict_score(&writer(KEY)), 2);
    scheduler.current_generation = 19;
    scheduler.cleanup_hotspots();
    assert!(scheduler.hotspot_accounts.is_empty());
}

#[test]
fn rift_forgets_accounts_by_their_last_write() {
    let mut scheduler = RiftScheduler::new(config());
    scheduler.hotspot_accounts.insert(
        Pubkey::new_from_array(KEY),
        HotAccountMeta { generation: 16, touched: 0, heat: 200 },
    );
    scheduler.current_generation = 16;
    scheduler.cleanup_hotspots();
    assert_eq!(scheduler.tx_conflict_score(&writer(KEY)), 200);
    scheduler.current_generation = 17;
    scheduler.cleanup_hotspots();
    assert!(scheduler.hotspot_accounts.is_empty());
}

#[test]
fn hot_transactions_are_put_off_however_old() {
    let mut scheduler = RiftScheduler::new(config());
    scheduler.current_generation = 99;
    heat(&mut scheduler, KEY, 16);
    scheduler.deferred = vec![entry(1, 1, 0)];
    let (mut pass, request) = begin(&mut scheduler);
    let job = looked_up(request);
    scheduler.found(&mut pass, job, writer(KEY));
    scheduler.finish(pass, 0);
    assert_eq!(scheduler.deferred, vec![entry(1, 2, 102)]);
    assert_eq!(scheduler.metrics.dropped_txs, 0);
}

#[test]
fn pass_over_an_empty_queue_finishes_at_once() {
    let mut scheduler = RiftScheduler::new(config());
    let (pass, request) = begin(&mut scheduler);
    assert!(matches!(request, Request::Finish));
    let summary = scheduler.finish(pass, 17);
    assert_eq!(summary.scheduled, 0);
    assert_eq!(summary.deferred, 0);
    assert_eq!(summary.scanned, 0);
    assert_eq!(summary.generation, 1);
    assert_eq!(scheduler.metrics.scheduler_passes, 1);
    assert_eq!(scheduler.metrics.total_schedule_time_ns, 17);
}

#[test]
fn pass_looks_only_at_what_is_ready() {
    let mut scheduler = RiftScheduler::new(config());
    scheduler.deferred = vec![entry(1, 1, 1), entry(2, 1, 9), entry(3, 2, 0)];
    let (mut pass, request) = begin(&mut scheduler);
    assert_eq!(looked_up(request), entry(1, 1, 1));
    let request = scheduler.missing(&mut pass);
    assert_eq!(looked_up(request), entry(3, 2, 0));
    let request = scheduler.missing(&mut pass);
    assert!(matches!(request, Request::Finish));
    let summary = scheduler.finish(pass, 0);
    assert_eq!((summary.scheduled, summary.deferred, summary.scanned), (0, 1, 2));
    assert_eq!(scheduler.deferred, vec![entry(2, 1, 9)]);
    assert_eq!(scheduler.metrics.total_scanned, 2);
}

#[test]
fn hot_accounts_put_off_a_transaction() {
    let mut scheduler = RiftScheduler::new(config());
    heat(&mut scheduler, KEY, 16);
    scheduler.deferred = vec![entry(1, 3, 0)];
    let (mut pass, request) = begin(&mut scheduler);
    let job = looked_up(request);
    // One generation has halved the heat to 8, which is just too hot.
    let request = scheduler.found(&mut pass, job, writer(KEY));
    assert!(matches!(request, Request::Finish));
    let summary = scheduler.finish(pass, 0);
    assert_eq!((summary.scheduled, summary.deferred, summary.scanned), (0, 1, 1));
    assert_eq!(scheduler.deferred, vec![entry(1, 4, 9)]);
    assert_eq!(scheduler.metrics.lock_conflicts, 1);
    assert_eq!(scheduler.metrics.dropped_txs, 0);
}

#[test]
fn hot_accounts_end_a_transaction_without_retries() {
    let mut scheduler = RiftScheduler::new(config());
    heat(&mut scheduler, KEY, 16);
    scheduler.deferred = vec![entry(1, 6, 0)];
    let (mut pass, request) = begin(&mut scheduler);
    let job = looked_up(request);
    let request = scheduler.found(&mut pass, job, writer(KEY));
    assert!(matches!(request, Request::Finish));
    let summary = scheduler.finish(pass, 0);
    assert_eq!((summary.scheduled, summary.deferred), (0, 0));
    assert_eq!(scheduler.metrics.lock_conflicts, 1);
    assert_eq!(scheduler.metrics.dropped_txs, 1);
}

#[test]
fn expired_transactions_are_given_up() {
    let mut scheduler = RiftScheduler::new(config());
    scheduler.current_generation = 63;
    scheduler.deferred = vec![entry(1, 1, 0)];
    let (mut pass, request) = begin(&mut scheduler);
    let job = looked_up(request);
    // Sixty-four generations are not too many.
    let trial = trial(scheduler.found(&mut pass, job, writer(KEY)));
    assert_eq!(trial.job, entry(1, 1, 0));
    let request = scheduler.conflicted(&mut pass, trial);
    assert!(matches!(request, Request::Finish));
    scheduler.finish(pass, 0);
    assert_eq!(scheduler.deferred, vec![entry(1, 2, 66)]);

    scheduler.current_generation = 65;
    let (mut pass, request) = begin(&mut scheduler);
    let job = looked_up(request);
    let request = scheduler.found(&mut pass, job, writer(OTHER));
    assert!(matches!(request, Request::Finish));
    scheduler.finish(pass, 0);
    assert!(scheduler.deferred.is_empty());
    assert_eq!(scheduler.metrics.dropped_txs, 1);
    assert_eq!(scheduler.metrics.lock_conflicts, 0);
}

#[test]
fn readers_are_tried_whatever_they_read() {
    let mut scheduler = RiftScheduler::new(config());
    heat(&mut scheduler, KEY, 200);
    scheduler.deferred = vec![entry(1, 1, 0)];
    let (mut pass, request) = begin(&mut scheduler);
    let job = looked_up(request);
    let trial = trial(scheduler.found(&mut pass, job, footprint(&[KEY], &[false], 100)));
    assert_eq!(trial.remaining_budget, 1000);
    for thread in 0..4 {
        assert!(trial.threads.contains(thread));
    }
    assert!(!trial.threads.contains(4));
    assert_eq!(trial.threads.num_threads(), 4);
}

#[test]
fn all_sixty_four_threads_can_be_used() {
    let mut scheduler = RiftScheduler::new(config());
    scheduler.deferred = vec![entry(1, 1, 0)];
    let (mut pass, request) = scheduler.begin_pass(1000, 64);
    let job = looked_up(request);
    let trial = trial(scheduler.found(&mut pass, job, writer(KEY)));
    assert_eq!(trial.threads.num_threads(), 64);
}

#[test]
fn transaction_that_fits_is_added() {
    let mut scheduler = RiftScheduler::new(config());
    scheduler.deferred = vec![entry(1, 1, 0), entry(2, 1, 0)];
    let (mut pass, request) = begin(&mut scheduler);
    let job = looked_up(request);
    let trial1 = trial(scheduler.found(&mut pass, job, writer(KEY)));
    // 1400 + 100 bytes are just not too many.
    let placement = to_add(scheduler.scheduled(trial1, 2, 300, 1400));
    assert_eq!(placement.thread_id, 2);
    assert_eq!(placement.cost, 300);
    assert_eq!(placement.job, entry(1, 1, 0));
    let request = scheduler.added(&mut pass, placement);
    assert_eq!(scheduler.metrics.scheduled_txs, 1);
    assert_eq!(scheduler.tx_conflict_score(&writer(KEY)), 1);

    let job = looked_up(request);
    let trial2 = trial(scheduler.found(&mut pass, job, writer(OTHER)));
    assert_eq!(trial2.remaining_budget, 700);
    let placement = to_add(scheduler.scheduled(trial2, 2, 900, 0));
    let request = scheduler.added(&mut pass, placement);
    assert!(matches!(request, Request::Finish));
    let summary = scheduler.finish(pass, 0);
    assert_eq!((summary.scheduled, summary.deferred, summary.scanned), (2, 0, 2));
    assert_eq!(scheduler.metrics.total_batches_sent, 0);
}

#[test]
fn batches_are_sent_to_make_room_and_counted_once() {
    let mut scheduler = RiftScheduler::new(config());
    scheduler.deferred = vec![entry(1, 1, 0), entry(2, 1, 0)];
    let (mut pass, request) = begin(&mut scheduler);
    let job = looked_up(request);
    let trial1 = trial(scheduler.found(&mut pass, job, writer(KEY)));
    let placement = to_send(scheduler.scheduled(trial1, 0, 1, 1401));
    let placement = to_add(scheduler.sent(&mut pass, placement, 3));
    assert_eq!(scheduler.metrics.total_batches_sent, 3);
    let request = scheduler.added(&mut pass, placement);

    let job = looked_up(request);
    let trial2 = trial(scheduler.found(&mut pass, job, writer(KEY)));
    let placement = to_send(scheduler.scheduled(trial2, 0, 1, 1401));
    let placement = to_add(scheduler.sent(&mut pass, placement, 2));
    assert_eq!(scheduler.metrics.total_batches_sent, 5);
    let request = scheduler.added(&mut pass, placement);
    assert!(matches!(request, Request::Finish));
}

#[test]
fn conflicting_locks_heat_accounts_and_put_off() {
    let mut scheduler = RiftScheduler::new(config());
    scheduler.deferred = vec![entry(1, 2, 0)];
    let (mut pass, request) = begin(&mut scheduler);
    let job = looked_up(request);
    let trial = trial(scheduler.found(&mut pass, job, writer(KEY)));
    let request = scheduler.conflicted(&mut pass, trial);
    assert!(matches!(request, Request::Finish));
    scheduler.finish(pass, 0);
    assert_eq!(scheduler.tx_conflict_score(&writer(KEY)), 1);
    assert_eq!(scheduler.deferred, vec![entry(1, 3, 5)]);
    assert_eq!(scheduler.metrics.lock_conflicts, 0);
}

#[test]
fn lack_of_a_thread_puts_off_for_one_generation() {
    let mut scheduler = RiftScheduler::new(config());
    scheduler.deferred = vec![entry(1, 5, 0), entry(2, 6, 0)];
    let (mut pass, request) = begin(&mut scheduler);
    let job = looked_up(request);
    let trial1 = trial(scheduler.found(&mut pass, job, writer(KEY)));
    let request = scheduler.without_thread(&mut pass, trial1);
    let job = looked_up(request);
    let trial2 = trial(scheduler.found(&mut pass, job, writer(KEY)));
    let request = scheduler.without_thread(&mut pass, trial2);
    assert!(matches!(request, Request::Finish));
    let summary = scheduler.finish(pass, 0);
    assert_eq!((summary.scheduled, summary.deferred, summary.scanned), (0, 1, 2));
    assert_eq!(scheduler.deferred, vec![entry(1, 6, 2)]);
    assert_eq!(scheduler.metrics.unschedulable_threads, 2);
    assert_eq!(scheduler.metrics.dropped_txs, 1);
    assert!(scheduler.hotspot_accounts.is_empty());
}

#[test]
fn waiting_entries_stay_ahead_of_those_put_off() {
    let mut scheduler = RiftScheduler::new(config());
    scheduler.deferred = vec![entry(1, 1, 0), entry(2, 1, 9)];
    let (mut pass, request) = begin(&mut scheduler);
    let job = looked_up(request);
    let trial = trial(scheduler.found(&mut pass, job, writer(KEY)));
    scheduler.without_thread(&mut pass, trial);
    scheduler.finish(pass, 0);
    assert_eq!(scheduler.deferred, vec![entry(2, 1, 9), entry(1, 2, 2)]);
    assert!(scheduler.next_deferred.is_empty());
}

#[test]
fn rift_queue_drains_when_every_lock_conflicts() {
    let mut scheduler = RiftScheduler::new(config());
    scheduler.deferred = vec![entry(1, 1, 1)];
    let mut attempts = 0;
    let mut passes = 0;
    while !scheduler.deferred.is_empty() {
        let (mut pass, mut request) = begin(&mut scheduler);
        passes += 1;
        while let Request::LookUp(job) = request {
            attempts += 1;
            request = match scheduler.found(&mut pass, job, writer(KEY)) {
                Request::TrySchedule(trial) => scheduler.conflicted(&mut pass, trial),
                other => other,
            };
        }
        scheduler.finish(pass, 0);
        assert!(passes <= 63);
    }
    // Retries 1 to 6, in generations 1, 3, 7, 15, 31 and 63.
    assert_eq!(attempts, 6);
    assert_eq!(passes, 63);
    assert_eq!(scheduler.metrics.dropped_txs, 1);
}

#[test]
fn rift_counters_wrap() {
    let mut scheduler = RiftScheduler::new(config());
    scheduler.metrics.scheduler_passes = u64::MAX;
    scheduler.current_generation = u32::MAX;
    let (pass, _) = begin(&mut scheduler);
    let summary = scheduler.finish(pass, 0);
    assert_eq!(scheduler.metrics.scheduler_passes, 0);
    assert_eq!(summary.generation, 0);
}

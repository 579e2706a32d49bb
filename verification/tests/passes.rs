use agave_rift_scheduler::heat::HotAccountMeta;
use agave_rift_scheduler::{
    AccountId, HybridScheduler, SchedulerConfig, SchedulerMetrics, SchedulingSummary, Transaction,
};

fn write(id: usize, cost: u64, account: u64) -> Transaction {
    Transaction::new(id, cost, vec![AccountId(account)], vec![true])
}

/// A scheduler on which every account that was written once stays contended.
fn stubborn(max_retry_count: u8) -> HybridScheduler {
    HybridScheduler::with_config(SchedulerConfig {
        conflict_threshold: 1,
        hotspot_decay_shift: 0,
        max_generation_age: u32::MAX,
        max_retry_count,
        ..SchedulerConfig::default()
    })
}

/// Number of passes without fresh work after which the queue is empty.
fn passes_until_drained(scheduler: &mut HybridScheduler) -> usize {
    let mut passes = 0;
    while scheduler.metrics().deferred_txs > 0 {
        scheduler.schedule(&[], u64::MAX);
        passes += 1;
        assert!(passes < 5000);
    }
    passes
}

#[test]
fn default_values() {
    let config = SchedulerConfig::default();
    assert_eq!(config.conflict_threshold, 1);
    assert_eq!(config.max_generation_age, 16);
    assert_eq!(config.hotspot_decay_shift, 1);
    assert_eq!(config.max_retry_count, 6);
    assert_eq!(config.hotspot_capacity, 4096);
    assert_eq!(config.initial_heat, 2);
    assert_eq!(config.max_account_heat, 255);
    assert_eq!(HybridScheduler::default().config, config);
    assert_eq!(HybridScheduler::default().current_generation, 0);
    assert_eq!(*HybridScheduler::default().metrics(), SchedulerMetrics::default());
    assert_eq!(SchedulerMetrics::default().scheduled_txs, 0);
    assert_eq!(SchedulingSummary::default().scanned, 0);
}

#[test]
fn transactions_are_copied_whole() {
    let tx = Transaction::new(7, 9, vec![AccountId(1), AccountId(2)], vec![true, false]);
    let copy = tx.clone();
    assert_eq!(copy.id, 7);
    assert_eq!(copy.cost, 9);
    assert_eq!(copy.account_keys, vec![AccountId(1), AccountId(2)]);
    assert_eq!(copy.writable, vec![true, false]);
}

#[test]
fn scores_add_up_written_heat() {
    let mut scheduler = HybridScheduler::default();
    scheduler.mark_hot_accounts(&write(1, 1, 10));
    scheduler.mark_hot_accounts(&write(2, 1, 10));
    scheduler.mark_hot_accounts(&write(3, 1, 20));
    let both = Transaction::new(
        4,
        1,
        vec![AccountId(10), AccountId(20), AccountId(30)],
        vec![true, true, true],
    );
    assert_eq!(scheduler.tx_conflict_score(&both), 6);
    let twice = Transaction::new(5, 1, vec![AccountId(10), AccountId(10)], vec![true, true]);
    assert_eq!(scheduler.tx_conflict_score(&twice), 8);
    let reader = Transaction::new(6, 1, vec![AccountId(10), AccountId(20)], vec![false, true]);
    assert_eq!(scheduler.tx_conflict_score(&reader), 2);
}

#[test]
fn accounts_without_a_flag_are_read_only() {
    let mut scheduler = HybridScheduler::default();
    let tx = Transaction {
        id: 1,
        cost: 1,
        account_keys: vec![AccountId(1), AccountId(2)],
        writable: vec![true],
    };
    scheduler.mark_hot_accounts(&tx);
    assert_eq!(scheduler.hotspot_accounts.len(), 1);
    assert_eq!(scheduler.tx_conflict_score(&tx), 2);
}

#[test]
fn writes_do_not_touch_other_accounts() {
    let mut scheduler = HybridScheduler::default();
    scheduler.mark_hot_accounts(&write(1, 1, 10));
    scheduler.current_generation = 1;
    scheduler.mark_hot_accounts(&write(2, 1, 20));
    assert_eq!(scheduler.hotspot_accounts[&10], HotAccountMeta { generation: 0, touched: 0, heat: 2 });
    assert_eq!(scheduler.hotspot_accounts[&20], HotAccountMeta { generation: 1, touched: 1, heat: 2 });
    assert_eq!(scheduler.tx_conflict_score(&write(3, 1, 10)), 2);
}

#[test]
fn heat_stays_within_its_bound() {
    let mut scheduler = HybridScheduler::with_config(SchedulerConfig {
        conflict_threshold: 1000,
        hotspot_decay_shift: 0,
        initial_heat: 100,
        ..SchedulerConfig::default()
    });
    let batch: Vec<Transaction> = (0..5).map(|i| write(i, 1, 10)).collect();
    let summary = scheduler.schedule(&batch, 100);
    assert_eq!(summary.scheduled, 5);
    assert_eq!(scheduler.hotspot_accounts[&10].heat, 255);
}

#[test]
fn heat_is_of_the_current_generation_after_a_pass() {
    let mut scheduler = HybridScheduler::with_config(SchedulerConfig {
        initial_heat: 40,
        ..SchedulerConfig::default()
    });
    scheduler.schedule(&[write(1, 1, 10)], 100);
    scheduler.schedule(&[write(2, 1, 20)], 100);
    assert_eq!(scheduler.hotspot_accounts[&10], HotAccountMeta { generation: 2, touched: 1, heat: 20 });
    assert_eq!(scheduler.hotspot_accounts[&20], HotAccountMeta { generation: 2, touched: 2, heat: 40 });
    assert_eq!(scheduler.metrics().hot_accounts, 2);
}

#[test]
fn cleaning_up_twice_is_cleaning_up_once() {
    let mut scheduler = HybridScheduler::default();
    scheduler.mark_hot_accounts(&write(1, 1, 10));
    scheduler.mark_hot_accounts(&write(2, 1, 10));
    scheduler.mark_hot_accounts(&write(3, 1, 20));
    scheduler.current_generation = 2;
    scheduler.cleanup_hotspots();
    assert_eq!(scheduler.hotspot_accounts.len(), 1);
    assert_eq!(scheduler.hotspot_accounts[&10], HotAccountMeta { generation: 2, touched: 0, heat: 1 });
    scheduler.cleanup_hotspots();
    assert_eq!(scheduler.hotspot_accounts.len(), 1);
    assert_eq!(scheduler.hotspot_accounts[&10], HotAccountMeta { generation: 2, touched: 0, heat: 1 });
}

#[test]
fn threshold_of_zero_admits_nothing() {
    let mut scheduler = HybridScheduler::with_config(SchedulerConfig {
        conflict_threshold: 0,
        ..SchedulerConfig::default()
    });
    let summary = scheduler.schedule(&[Transaction::new(1, 0, vec![], vec![])], 10);
    assert_eq!(summary.deferred, 1);
    assert_eq!(scheduler.metrics().lock_conflicts, 1);
}

#[test]
fn every_outcome_of_one_attempt() {
    let mut scheduler = stubborn(1);
    scheduler.current_generation = 10;
    let mut budget = 5;
    let mut scheduled = 0;
    let mut deferred = 0;
    let mut dropped = 0;

    scheduler.try_schedule_or_defer(
        write(1, 3, 7),
        0,
        &mut budget,
        &mut scheduled,
        &mut deferred,
        &mut dropped,
    );
    assert_eq!((budget, scheduled, deferred, dropped), (2, 1, 0, 0));

    // Contended, with and without retries left.
    scheduler.try_schedule_or_defer(
        write(2, 0, 7),
        0,
        &mut budget,
        &mut scheduled,
        &mut deferred,
        &mut dropped,
    );
    scheduler.try_schedule_or_defer(
        write(3, 0, 7),
        1,
        &mut budget,
        &mut scheduled,
        &mut deferred,
        &mut dropped,
    );
    assert_eq!((budget, scheduled, deferred, dropped), (2, 1, 1, 1));
    assert_eq!(scheduler.metrics().lock_conflicts, 2);

    // Too expensive, with and without retries left.
    scheduler.try_schedule_or_defer(
        write(4, 3, 8),
        0,
        &mut budget,
        &mut scheduled,
        &mut deferred,
        &mut dropped,
    );
    scheduler.try_schedule_or_defer(
        write(5, 3, 8),
        1,
        &mut budget,
        &mut scheduled,
        &mut deferred,
        &mut dropped,
    );
    assert_eq!((budget, scheduled, deferred, dropped), (2, 1, 2, 2));
    assert_eq!(scheduler.metrics().lock_conflicts, 2);

    let waiting: Vec<(usize, u8, u32)> = scheduler
        .deferred
        .iter()
        .map(|d| (d.tx.id, d.retry_count, d.ready_generation))
        .collect();
    assert_eq!(waiting, vec![(2, 1, 11), (4, 1, 11)]);
}

#[test]
fn retries_wait_for_their_backoff() {
    let mut scheduler = stubborn(6);
    scheduler.schedule(&[write(1, 1, 5)], 10);
    scheduler.schedule(&[write(2, 1, 5)], 10);
    let mut tried_in = Vec::new();
    for _ in 0..40 {
        let summary = scheduler.schedule(&[], 10);
        if summary.scanned > 0 {
            tried_in.push(summary.generation);
        }
    }
    // First tried in generation 2, then after 1, 2, 4, 8 and 16 more.
    assert_eq!(tried_in, vec![3, 5, 9, 17, 33]);
    assert_eq!(scheduler.deferred[0].ready_generation, 65);
    assert_eq!(scheduler.deferred[0].retry_count, 6);
}

#[test]
fn summary_adds_up_and_nothing_is_lost() {
    let mut scheduler = stubborn(2);
    let batch: Vec<Transaction> = (0..6).map(|i| write(i, 10, (i % 2) as u64)).collect();
    let first = scheduler.schedule(&batch, 15);
    // 0 is scheduled; 1 does not fit the budget; 2 and 4 meet contention; so
    // do 3 and 5 not, but they do not fit either.
    assert_eq!((first.scheduled, first.deferred, first.dropped, first.scanned), (1, 5, 0, 6));
    assert_eq!(scheduler.metrics().lock_conflicts, 2);
    let mut waiting: Vec<usize> = scheduler.deferred.iter().map(|d| d.tx.id).collect();
    waiting.sort();
    assert_eq!(waiting, vec![1, 2, 3, 4, 5]);
    assert_eq!(scheduler.metrics().deferred_txs, 5);

    let mut handled = first.scheduled;
    while scheduler.metrics().deferred_txs > 0 {
        let summary = scheduler.schedule(&[], 15);
        assert_eq!(summary.scheduled + summary.deferred + summary.dropped, summary.scanned);
        handled += summary.scheduled + summary.dropped;
    }
    assert_eq!(handled, 6);
    assert_eq!(scheduler.metrics().scheduled_txs + scheduler.metrics().dropped_txs, 6);
}

#[test]
fn retries_come_before_fresh_transactions() {
    let mut scheduler = HybridScheduler::with_config(SchedulerConfig {
        conflict_threshold: 100,
        ..SchedulerConfig::default()
    });
    scheduler.schedule(&[write(1, 10, 1)], 5);
    let summary = scheduler.schedule(&[write(2, 10, 2)], 10);
    assert_eq!((summary.scheduled, summary.deferred), (1, 1));
    assert_eq!(scheduler.deferred[0].tx.id, 2);
}

#[test]
fn budget_is_never_exceeded() {
    let mut scheduler = HybridScheduler::with_config(SchedulerConfig {
        conflict_threshold: 1000,
        ..SchedulerConfig::default()
    });
    let batch: Vec<Transaction> = (0..10).map(|i| write(i, 7, i as u64)).collect();
    let summary = scheduler.schedule(&batch, 30);
    assert_eq!((summary.scheduled, summary.deferred), (4, 6));
}

#[test]
fn cost_makes_no_difference_to_contention() {
    for cost in [0, 1, u64::MAX] {
        let mut scheduler = stubborn(6);
        scheduler.schedule(&[write(1, 1, 5)], u64::MAX);
        let summary = scheduler.schedule(&[write(2, cost, 5)], u64::MAX);
        assert_eq!((summary.scheduled, summary.deferred, summary.dropped), (0, 1, 0));
        assert_eq!(scheduler.metrics().lock_conflicts, 1);
    }
}

#[test]
fn independent_transactions_are_all_scheduled() {
    let mut scheduler = HybridScheduler::default();
    let batch: Vec<Transaction> = (0..100).map(|i| write(i, 1, i as u64)).collect();
    let summary = scheduler.schedule(&batch, 100);
    assert_eq!((summary.scheduled, summary.deferred, summary.dropped), (100, 0, 0));
}

#[test]
fn counters_follow_the_passes() {
    let mut scheduler = stubborn(0);
    for pass in 1..=5u64 {
        let summary = scheduler.schedule(&[write(1, 1, 5)], 10);
        assert_eq!(summary.generation as u64, pass);
        assert_eq!(scheduler.metrics().scheduler_passes, pass);
    }
    assert_eq!(scheduler.metrics().scheduled_txs, 1);
    assert_eq!(scheduler.metrics().dropped_txs, 4);
    assert_eq!(scheduler.metrics().lock_conflicts, 4);
}

#[test]
fn generation_wraps_to_zero() {
    let mut scheduler = HybridScheduler::default();
    scheduler.current_generation = u32::MAX - 1;
    assert_eq!(scheduler.schedule(&[write(1, 1, 5)], 10).generation, u32::MAX);
    let summary = scheduler.schedule(&[write(2, 1, 5)], 10);
    assert_eq!(summary.generation, 0);
    assert_eq!((summary.scheduled, summary.deferred), (0, 1));
    assert_eq!(scheduler.deferred[0].ready_generation, 1);
}

#[test]
fn backoff_wraps_with_the_generation() {
    let mut scheduler = HybridScheduler::default();
    scheduler.current_generation = u32::MAX - 1;
    let summary = scheduler.schedule(&[write(1, 11, 5)], 10);
    assert_eq!(summary.deferred, 1);
    assert_eq!(scheduler.deferred[0].ready_generation, 0);
    assert_eq!(scheduler.schedule(&[], 11).scheduled, 1);
}

#[test]
fn nine_retries_drain_in_511_passes() {
    let mut scheduler = stubborn(9);
    scheduler.schedule(&[write(1, 1, 5)], 10);
    scheduler.schedule(&[write(2, 1, 5)], 10);
    assert_eq!(passes_until_drained(&mut scheduler), 511);
    assert_eq!(scheduler.metrics().dropped_txs, 1);
}

#[test]
fn ten_retries_take_another_256_passes() {
    let mut scheduler = stubborn(10);
    scheduler.schedule(&[write(1, 1, 5)], 10);
    scheduler.schedule(&[write(2, 1, 5)], 10);
    assert_eq!(passes_until_drained(&mut scheduler), 767);
    assert_eq!(scheduler.metrics().dropped_txs, 1);
}

#[test]
fn idle_accounts_cool_down_in_sixteen_passes() {
    let mut scheduler = HybridScheduler::with_config(SchedulerConfig {
        initial_heat: u16::MAX,
        max_account_heat: u16::MAX,
        ..SchedulerConfig::default()
    });
    scheduler.schedule(&[write(1, 1, 5)], 10);
    for _ in 0..15 {
        scheduler.schedule(&[], 10);
    }
    assert_eq!(scheduler.hotspot_accounts[&5], HotAccountMeta { generation: 16, touched: 1, heat: 1 });
    scheduler.schedule(&[], 10);
    assert_eq!(scheduler.metrics().hot_accounts, 0);
}

#[test]
fn retry_succeeds_when_the_way_is_clear() {
    let mut scheduler = HybridScheduler::default();
    scheduler.schedule(&[write(1, 20, 5)], 10);
    assert_eq!(scheduler.schedule(&[], 19).deferred, 1);
    let summary = scheduler.schedule(&[], 20);
    assert_eq!((summary.scheduled, summary.scanned), (1, 1));
    assert!(scheduler.deferred.is_empty());
}

#[test]
fn accounts_are_forgotten_by_age_without_decay() {
    let mut scheduler = HybridScheduler::with_config(SchedulerConfig {
        hotspot_decay_shift: 0,
        max_generation_age: 2,
        ..SchedulerConfig::default()
    });
    scheduler.mark_hot_accounts(&write(1, 1, 7));
    for generation in [1, 2] {
        scheduler.current_generation = generation;
        scheduler.cleanup_hotspots();
        assert_eq!(scheduler.hotspot_accounts[&7].heat, 2);
    }
    scheduler.current_generation = 3;
    scheduler.cleanup_hotspots();
    assert!(scheduler.hotspot_accounts.is_empty());
}

#[test]
fn untouched_accounts_are_forgotten_by_passes() {
    let mut scheduler = HybridScheduler::with_config(SchedulerConfig {
        hotspot_decay_shift: 0,
        max_generation_age: 3,
        ..SchedulerConfig::default()
    });
    scheduler.schedule(&[write(1, 1, 7)], 10);
    for _ in 0..3 {
        scheduler.schedule(&[], 10);
        assert_eq!(scheduler.metrics().hot_accounts, 1);
    }
    scheduler.schedule(&[], 10);
    assert_eq!(scheduler.metrics().hot_accounts, 0);
}

#[test]
fn another_write_keeps_an_account() {
    let mut scheduler = HybridScheduler::with_config(SchedulerConfig {
        conflict_threshold: 100,
        hotspot_decay_shift: 0,
        max_generation_age: 2,
        ..SchedulerConfig::default()
    });
    scheduler.schedule(&[write(1, 1, 7)], 10);
    scheduler.schedule(&[], 10);
    scheduler.schedule(&[write(2, 1, 7)], 10);
    scheduler.schedule(&[], 10);
    scheduler.schedule(&[], 10);
    assert_eq!(
        scheduler.hotspot_accounts[&7],
        HotAccountMeta { generation: 5, touched: 3, heat: 4 }
    );
    scheduler.schedule(&[], 10);
    assert!(scheduler.hotspot_accounts.is_empty());
}

#[test]
fn ceiling_bounds_the_first_write() {
    let mut scheduler = HybridScheduler::with_config(SchedulerConfig {
        initial_heat: 300,
        max_account_heat: 255,
        ..SchedulerConfig::default()
    });
    scheduler.mark_hot_accounts(&Transaction::new(1, 1, vec![AccountId(7)], vec![true]));
    assert_eq!(scheduler.hotspot_accounts[&7].heat, 255);
}

#[test]
fn equal_calls_give_equal_results() {
    let mut one = HybridScheduler::default();
    let mut other = HybridScheduler::default();
    for pass in 0..30u64 {
        let batch: Vec<Transaction> = (0..20)
            .map(|i| write(i, pass % 7, (i as u64 * 31 + pass) % 11))
            .collect();
        assert_eq!(one.schedule(&batch, 40), other.schedule(&batch, 40));
        assert_eq!(one.metrics(), other.metrics());
    }
}

#[test]
fn transactions_are_put_off_as_often_as_they_may_be_retried() {
    for max_retry_count in 0..5u8 {
        let mut scheduler = stubborn(max_retry_count);
        scheduler.schedule(&[write(1, 1, 5)], 10);
        let mut put_off = scheduler.schedule(&[write(2, 1, 5)], 10).deferred;
        for _ in 0..40 {
            put_off += scheduler.schedule(&[], 10).deferred;
        }
        assert_eq!(put_off, max_retry_count as usize);
        assert_eq!(scheduler.metrics().dropped_txs, 1);
    }
}

#[test]
fn queue_entries_are_well_timed() {
    let mut scheduler = stubborn(12);
    scheduler.schedule(&[write(1, 1, 5)], 10);
    scheduler.schedule(&[write(2, 1, 5), write(3, 11, 6)], 10);
    for _ in 0..800 {
        let generation = scheduler.schedule(&[], 10).generation;
        for d in &scheduler.deferred {
            assert!(1 <= d.retry_count && d.retry_count <= 12);
            assert!(generation < d.ready_generation);
            assert!(d.ready_generation <= generation + 256);
        }
    }
}

use agave_rift_scheduler::{AccountId, HybridScheduler, SchedulerConfig, Transaction};

#[test]
fn defers_conflicting_hot_accounts() {
    let mut scheduler = HybridScheduler::default();
    let hot = Transaction::new(1, 8, vec![AccountId(42)], vec![true]);
    let conflicting = Transaction::new(2, 4, vec![AccountId(42)], vec![true]);

    let first = scheduler.schedule(&[hot], 16);
    assert_eq!(first.scheduled, 1);

    let second = scheduler.schedule(&[conflicting], 16);
    assert_eq!(second.scheduled, 0);
    assert_eq!(second.deferred, 1);
    assert!(scheduler.metrics().lock_conflicts > 0);
}

#[test]
fn cleanup_removes_stale_hotspots() {
    let mut scheduler = HybridScheduler::default();
    let tx = Transaction::new(1, 3, vec![AccountId(7)], vec![true]);
    scheduler.mark_hot_accounts(&tx);
    scheduler.current_generation = 64;
    scheduler.cleanup_hotspots();
    assert!(scheduler.hotspot_accounts.is_empty());
}

/// A deferred transaction is retried on a later pass, and gets scheduled once
/// the conflict clears.
#[test]
fn deferred_transactions_are_retried_and_eventually_scheduled() {
    let mut scheduler = HybridScheduler::default();

    let hot = Transaction::new(1, 5, vec![AccountId(99)], vec![true]);
    let conflict = Transaction::new(2, 5, vec![AccountId(99)], vec![true]);

    let first = scheduler.schedule(&[hot], 50);
    assert_eq!(first.scheduled, 1);

    let second = scheduler.schedule(&[conflict], 50);
    assert_eq!(second.scheduled, 0);
    assert_eq!(second.deferred, 1);
    assert_eq!(scheduler.metrics().deferred_txs, 1);

    // Advance one more generation with no new incoming work: the deferred
    // transaction is scheduled once the hot account has decayed enough.
    let third = scheduler.schedule(&[], 50);
    assert_eq!(third.scheduled, 1, "deferred transaction was never retried");
    assert_eq!(scheduler.metrics().deferred_txs, 0);
}

/// A zero-cost transaction that touches a hot account is deferred like any
/// other.
#[test]
fn zero_cost_tx_does_not_bypass_conflict_detection() {
    let mut scheduler = HybridScheduler::with_config(SchedulerConfig {
        conflict_threshold: 1,
        ..SchedulerConfig::default()
    });

    let hot = Transaction::new(1, 8, vec![AccountId(42)], vec![true]);
    let first = scheduler.schedule(&[hot], 100);
    assert_eq!(first.scheduled, 1);

    let zero_cost_conflict = Transaction::new(2, 0, vec![AccountId(42)], vec![true]);
    let second = scheduler.schedule(&[zero_cost_conflict], 100);

    assert_eq!(
        second.scheduled, 0,
        "zero-cost tx bypassed conflict detection"
    );
    assert_eq!(second.deferred, 1);
}

/// A deferred transaction is dropped, and counted as such, once it exceeds
/// `max_retry_count`: it is not retried forever.
#[test]
fn deferred_transaction_is_dropped_after_max_retries() {
    let mut scheduler = HybridScheduler::with_config(SchedulerConfig {
        conflict_threshold: 1,
        max_retry_count: 2,
        // Disable decay so the account stays hot for the whole test,
        // guaranteeing every single retry re-conflicts.
        hotspot_decay_shift: 0,
        ..SchedulerConfig::default()
    });

    let hot = Transaction::new(1, 1, vec![AccountId(5)], vec![true]);
    scheduler.schedule(&[hot], 10);

    let conflict = Transaction::new(2, 1, vec![AccountId(5)], vec![true]);
    let first_defer = scheduler.schedule(&[conflict], 10);
    assert_eq!(first_defer.deferred, 1);

    for _ in 0..20 {
        scheduler.schedule(&[], 10);
        if scheduler.metrics().deferred_txs == 0 {
            break;
        }
    }

    assert_eq!(
        scheduler.metrics().deferred_txs,
        0,
        "deferred tx should eventually be dropped, not retried forever"
    );
    assert!(
        scheduler.metrics().dropped_txs >= 1,
        "expected the tx to be dropped after exceeding max_retry_count"
    );
}



/// Test that hot accounts gradually cool down over generations.
///
/// With default initial_heat=2 and decay_shift=1, after 2 empty passes
/// the age becomes 2, so heat = 2 >> 2 = 0 and the account is evicted.
/// Use initial_heat=40 so decay is observable: 40 → 20 → 10 → still hot.
#[test]
fn hotspot_decay_reduces_heat_gradually() {
    let mut scheduler = HybridScheduler::with_config(SchedulerConfig {
        hotspot_decay_shift: 1,
        max_generation_age: 32,
        initial_heat: 40,
        ..SchedulerConfig::default()
    });

    let tx = Transaction::new(1, 2, vec![AccountId(100)], vec![true]);
    scheduler.schedule(&[tx], 100);
    assert_eq!(scheduler.metrics().hot_accounts, 1);

    // Gen+1: age=1, heat = 40 >> 1 = 20 — still tracked.
    let _ = scheduler.schedule(&[], 100);
    assert_eq!(scheduler.metrics().hot_accounts, 1, "hot after 1 pass");

    // Gen+2: heat = 20 >> 1 = 10 — still tracked.
    let _ = scheduler.schedule(&[], 100);
    assert!(scheduler.metrics().hot_accounts > 0, "hot after 2 passes");
}

/// Test that budget exhaustion defers transactions (not conflicts).
///
/// Budget is per scheduling-pass and resets each call.
/// Both txs must be in the SAME pass so the second sees a depleted budget.
#[test]
fn budget_exhaustion_defers_without_conflict() {
    let mut scheduler = HybridScheduler::with_config(SchedulerConfig {
        conflict_threshold: 100, // very high — no conflicts
        ..SchedulerConfig::default()
    });

    let expensive = Transaction::new(1, 50, vec![AccountId(1)], vec![true]);
    let another   = Transaction::new(2, 60, vec![AccountId(2)], vec![true]);

    // Single pass, budget=100. expensive(50) schedules first, consuming 50 units.
    // another(60) then needs 60 but only 50 remain — budget exhaustion → deferred.
    let summary = scheduler.schedule(&[expensive, another], 100);
    assert_eq!(summary.scheduled, 1, "only the first tx fits the budget");
    assert_eq!(summary.deferred,  1, "second tx deferred due to budget exhaustion");
    assert_eq!(scheduler.metrics().lock_conflicts, 0, "no lock conflicts, only budget");
}

/// Test that a deferred transaction is retried and succeeds once the
/// hot account cools down.
///
/// Timeline (default: initial_heat=2, decay_shift=1, threshold=1):
///   Gen1: schedule([hot])      -> mark_hot(42, heat=2), scheduled=1
///   Gen2: schedule([conflict]) -> score=2>=1, conflict, backoff=1<<0=1,
///                                 ready_gen=3, deferred=1
///   Gen3: schedule([])         -> cleanup: age=2, heat=2>>2=0 → evicted
///                                 drain ready (gen=3<=3) → score=0 → SCHEDULED
#[test]
fn retried_transaction_succeeds_when_conflict_clears() {
    let mut scheduler = HybridScheduler::default();

    let hot      = Transaction::new(1, 5, vec![AccountId(42)], vec![true]);
    let conflict = Transaction::new(2, 5, vec![AccountId(42)], vec![true]);

    // Gen1: hot account scheduled and marked.
    let _ = scheduler.schedule(&[hot], 50);

    // Gen2: conflict detected, deferred with backoff=1 (ready at gen3).
    let defer1 = scheduler.schedule(&[conflict], 50);
    assert_eq!(defer1.deferred, 1);

    // Gen3: backoff elapsed, hotspot decayed to 0 → deferred tx scheduled.
    let final_pass = scheduler.schedule(&[], 50);
    assert_eq!(
        final_pass.scheduled, 1,
        "deferred tx should be scheduled once the hotspot cools"
    );
    assert_eq!(scheduler.metrics().deferred_txs, 0);
}

/// Test max_retry_count prevents infinite retry loops
#[test]
fn max_retry_count_drops_transaction() {
    let mut scheduler = HybridScheduler::with_config(SchedulerConfig {
        conflict_threshold: 1,
        max_retry_count: 2,
        hotspot_decay_shift: 0, // disable decay to guarantee conflict every time
        ..SchedulerConfig::default()
    });

    // Create a permanently hot account
    let hot = Transaction::new(1, 1, vec![AccountId(7)], vec![true]);
    scheduler.schedule(&[hot], 10);

    // Try to schedule a conflicting transaction
    let conflict = Transaction::new(2, 1, vec![AccountId(7)], vec![true]);
    let first = scheduler.schedule(&[conflict], 10);
    assert_eq!(first.deferred, 1);

    // Retry up to max_retry_count times
    for _ in 0..10 {
        scheduler.schedule(&[], 10);
        if scheduler.metrics().deferred_txs == 0 {
            break;
        }
    }

    // Should be dropped (not deferred forever)
    assert_eq!(
        scheduler.metrics().deferred_txs,
        0,
        "transaction should be dropped after max_retry_count, not retried forever"
    );
    assert!(
        scheduler.metrics().dropped_txs >= 1,
        "expected dropped_txs to increment"
    );
}

/// Test that multiple independent accounts don't interfere
#[test]
fn multiple_independent_accounts_schedule_separately() {
    let mut scheduler = HybridScheduler::default();

    let tx1 = Transaction::new(1, 5, vec![AccountId(10)], vec![true]);
    let tx2 = Transaction::new(2, 5, vec![AccountId(20)], vec![true]);
    let tx3 = Transaction::new(3, 5, vec![AccountId(30)], vec![true]);

    let summary = scheduler.schedule(&[tx1, tx2, tx3], 50);
    assert_eq!(summary.scheduled, 3);
    assert_eq!(summary.deferred, 0);
}

/// Test that read-only accounts (writable=false) don't contribute to conflict score
#[test]
fn read_only_accounts_do_not_cause_conflicts() {
    let mut scheduler = HybridScheduler::default();

    // First tx writes to account 50
    let writer = Transaction::new(1, 3, vec![AccountId(50)], vec![true]);
    let first = scheduler.schedule(&[writer], 50);
    assert_eq!(first.scheduled, 1);

    // Second tx reads from the same account 50 (read-only)
    let reader = Transaction::new(2, 3, vec![AccountId(50)], vec![false]);
    let second = scheduler.schedule(&[reader], 50);

    // Should schedule immediately (no conflict on read-only)
    assert_eq!(second.scheduled, 1);
    assert_eq!(second.deferred, 0);
}

/// Test budget backoff: deferred tx retries next generation
#[test]
fn deferred_by_budget_retries_next_generation() {
    let mut scheduler = HybridScheduler::default();

    let expensive = Transaction::new(1, 60, vec![AccountId(1)], vec![true]);

    let first = scheduler.schedule(&[expensive], 50);
    assert_eq!(first.deferred, 1); // budget exhausted

    // Same tx should retry next generation and succeed
    let second = scheduler.schedule(&[], 100);
    assert_eq!(second.scheduled, 1);
    assert_eq!(scheduler.metrics().deferred_txs, 0);
}

/// Test that generation counter wraps correctly
#[test]
fn generation_counter_wraps_safely() {
    let mut scheduler = HybridScheduler::default();

    // Simulate many generations by scheduling empty work
    for _ in 0..1000 {
        let _ = scheduler.schedule(&[], 100);
    }

    // Should not panic or underflow on large generation values
    let tx = Transaction::new(1, 1, vec![AccountId(1)], vec![true]);
    let result = scheduler.schedule(&[tx], 100);
    assert_eq!(result.scheduled, 1);
}

/// Test metrics accumulate correctly across passes
#[test]
fn metrics_accumulate_across_scheduling_passes() {
    let mut scheduler = HybridScheduler::default();

    let tx1 = Transaction::new(1, 5, vec![AccountId(1)], vec![true]);
    let tx2 = Transaction::new(2, 5, vec![AccountId(1)], vec![true]);

    let first = scheduler.schedule(&[tx1], 50);
    assert_eq!(scheduler.metrics().scheduled_txs, 1);

    let second = scheduler.schedule(&[tx2], 50);
    assert_eq!(second.deferred, 1);
    assert_eq!(scheduler.metrics().scheduled_txs, 1); // no new scheduled
    assert_eq!(scheduler.metrics().lock_conflicts, 1);

    // After retry succeeds
    let _ = scheduler.schedule(&[], 50);
    let _ = scheduler.schedule(&[], 50);
    assert_eq!(scheduler.metrics().scheduled_txs, 2);
}

/// Test that zero-cost transaction in conflict scenario still defers
#[test]
fn zero_cost_tx_in_high_conflict_defers() {
    let mut scheduler = HybridScheduler::with_config(SchedulerConfig {
        conflict_threshold: 1,
        ..SchedulerConfig::default()
    });

    let hot = Transaction::new(1, 100, vec![AccountId(99)], vec![true]);
    scheduler.schedule(&[hot], 1000);

    // Zero-cost transaction on hot account
    let zero_cost = Transaction::new(2, 0, vec![AccountId(99)], vec![true]);
    let result = scheduler.schedule(&[zero_cost], 1000);

    assert_eq!(
        result.deferred, 1,
        "zero-cost tx should defer on conflict, not bypass"
    );
}

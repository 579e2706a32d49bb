# agave_rift_scheduler

A deterministic, contention-adaptive transaction scheduler, verified with Verus.

Accounts that are written get hot and cool down from generation to generation.
A transaction that writes hot accounts is put off, waits for a backoff that
doubles with every retry, and is given up after a bounded number of retries.

```rust
use agave_rift_scheduler::{AccountId, HybridScheduler, SchedulerConfig, Transaction};

let mut scheduler = HybridScheduler::with_config(SchedulerConfig {
    conflict_threshold: 4,
    ..SchedulerConfig::default()
});
let txs = vec![Transaction::new(1, 8, vec![AccountId(42)], vec![true])];
let summary = scheduler.schedule(&txs, 12);
```

## Layout

| Module | Contents |
|--------|----------|
| `heat`, `heat_laws` | how accounts gain and lose heat |
| `types`, `model`, `hybrid`, `laws` | `HybridScheduler`: its data, what it means, its code, its laws |
| `rift` | what the two schedulers for the banking stage share |
| `rift_hybrid_scheduler`, `rift_hybrid_laws` | retries with backoff, bounded in number and in time |
| `rift_scheduler`, `rift_scheduler_laws` | batches, thread by thread |
| `outside` | what is taken for granted of other crates |

The schedulers for the banking stage decide and leave the doing to their
caller: each step returns a request, and the answer to it is the next step.
`app/` holds an example run, the drivers that perform the requests, and a
harness that runs the scheduler on arbitrary input.

## Limits

- The queue is empty after as many idle passes as all backoffs together have
  generations: 63 for six retries, 511 for nine, 2,047 for fifteen.
- Entries that wait for a generation before the counter wraps wait until it
  comes round again.

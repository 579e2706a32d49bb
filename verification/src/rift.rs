//! What the schedulers for the banking stage of a validator have in common.
//!
//! These schedulers decide; what they decide on is done elsewhere. A pass is a
//! conversation: the scheduler asks for something to be done (to look up a
//! transaction, to lock its accounts, to send batches), and is told what came
//! of it.
use vstd::prelude::*;

use crate::heat::{writes_at, written, written_among, Heating, HotAccountMeta};
use crate::outside::{max_block_units, records, table_get, table_insert, AccountKey, HotTable};

verus! {

/// Conflict score from which on a transaction is not tried.
pub const CONFLICT_THRESHOLD: u32 = 8;

/// Generations without a write after which a hot account is forgotten.
pub const MAX_GENERATION_AGE: u32 = 16;

/// Heat that a write adds to an account.
pub const HEAT_GAIN: u16 = 1;

/// Bound on the heat of an account.
pub const MAX_ACCOUNT_HEAT: u16 = 255;

/// How writes heat accounts.
pub open spec fn heating() -> Heating {
    Heating { gain: HEAT_GAIN, cap: MAX_ACCOUNT_HEAT }
}

/// Names a transaction of the container, with its priority.
#[derive(Clone, Copy, Debug, PartialEq, Eq, Structural)]
pub struct TransactionPriorityId {
    pub priority: u64,
    pub id: usize,
}

/// What a scheduler needs to know of a transaction.
#[derive(Debug)]
pub struct TransactionFootprint {
    pub account_keys: Vec<AccountKey>,
    /// `writable[i]` tells whether the account `account_keys[i]` is written.
    pub writable: Vec<bool>,
    /// Size of the serialized transaction in bytes.
    pub serialized_size: u64,
}

/// Mathematical model of a [`TransactionFootprint`].
#[verifier::ext_equal]
pub struct FootprintView {
    pub account_keys: Seq<AccountKey>,
    pub writable: Seq<bool>,
    pub serialized_size: u64,
}

impl View for TransactionFootprint {
    type V = FootprintView;

    open spec fn view(&self) -> FootprintView {
        FootprintView {
            account_keys: self.account_keys@,
            writable: self.writable@,
            serialized_size: self.serialized_size,
        }
    }
}

impl FootprintView {
    /// The accounts that the transaction writes, in order.
    pub open spec fn writes(self) -> Seq<AccountKey> {
        written(self.account_keys, self.writable)
    }
}

/// Parameters of a scheduler for the banking stage.
#[derive(Clone, Copy, Debug, PartialEq, Eq, Structural)]
pub struct RiftSchedulerConfig {
    /// Compute units that may be on their way, over all threads.
    pub target_scheduled_cus: u64,
    /// Transactions that a pass looks at, at most.
    pub max_scanned_transactions_per_scheduling_pass: usize,
    /// Transactions in a full batch.
    pub target_transactions_per_batch: usize,
    /// Bytes in a full batch.
    pub target_entry_bytes_per_batch: u64,
    /// Room that is made for hot accounts at the start.
    pub hotspot_capacity: usize,
    /// Number of retries after which a transaction is not put off any more.
    pub max_retry_count: u8,
}

impl RiftSchedulerConfig {
    /// Whether the room that the parameters ask for can be allocated at all:
    /// a deferred transaction takes 32 bytes, a hot account up to 128.
    pub open spec fn can_be_reserved(self) -> bool {
        &&& self.max_scanned_transactions_per_scheduling_pass <= isize::MAX / 32
        &&& self.hotspot_capacity <= isize::MAX / 128
    }

    /// The usual parameters, for a stage that aims at batches of
    /// `target_transactions_per_batch` transactions, and whose data shreds
    /// typically hold `data_shred_bytes_per_batch` bytes per batch: an entry
    /// should take 15 percent of these, and the transactions on their way a
    /// quarter of a block.
    pub fn for_stage(
        target_transactions_per_batch: usize,
        data_shred_bytes_per_batch: u64,
    ) -> (config: Self)
        requires
            data_shred_bytes_per_batch * 15 <= u64::MAX,
        ensures
            config == (RiftSchedulerConfig {
                target_scheduled_cus: 15_000_000,
                max_scanned_transactions_per_scheduling_pass: 100_000,
                target_transactions_per_batch,
                target_entry_bytes_per_batch: (data_shred_bytes_per_batch * 15 / 100) as u64,
                hotspot_capacity: 16_384,
                max_retry_count: 6,
            }),
            config.can_be_reserved(),
    {
        RiftSchedulerConfig {
            target_scheduled_cus: max_block_units() / 4,
            max_scanned_transactions_per_scheduling_pass: 100_000,
            target_transactions_per_batch,
            target_entry_bytes_per_batch: data_shred_bytes_per_batch * 15 / 100,
            hotspot_capacity: 16_384,
            max_retry_count: 6,
        }
    }
}

/// A counter after `n` more, on 64 bits that wrap.
pub open spec fn tallied(counter: u64, n: u64) -> u64 {
    (if counter + n <= u64::MAX {
        counter + n
    } else {
        counter + n - 0x1_0000_0000_0000_0000
    }) as u64
}

/// A budget after `cost` was spent. It does not go below zero.
pub open spec fn spent(budget: u64, cost: u64) -> u64 {
    (if cost <= budget {
        budget - cost
    } else {
        0
    }) as u64
}

/// Heats the accounts that `tx` writes.
pub(crate) fn mark_writes(table: &mut HotTable, tx: &TransactionFootprint, generation: u32)
    ensures
        records(*final(table)) == heating().mark(records(*old(table)), tx@.writes(), generation),
{
    let rule = Heating { gain: HEAT_GAIN, cap: MAX_ACCOUNT_HEAT };
    for i in 0..tx.account_keys.len()
        invariant
            rule == heating(),
            records(*table) == rule.mark(
                records(*old(table)),
                written_among(tx@.account_keys, tx@.writable, i as nat),
                generation,
            ),
    {
        if writes_at(&tx.writable, i) {
            let key: AccountKey = tx.account_keys[i];
            proof {
                let earlier = written_among(tx@.account_keys, tx@.writable, i as nat);
                assert(earlier.push(key).drop_last() == earlier);
            }
            let before: Option<HotAccountMeta> = table_get(table, &key);
            let after: HotAccountMeta = rule.heat_up(before, generation);
            table_insert(table, key, after);
        }
    }
}

} // verus!

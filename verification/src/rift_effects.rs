//! What the schedulers for the banking stage have in common does, told of
//! inputs and results.
use vstd::prelude::*;

use crate::heat::{score, HotAccountMeta};
use crate::heat_laws::{
    law_account_named_once_is_heated, law_one_more_key_adds_its_heat,
    law_one_more_key_is_a_write_if_flagged, law_one_more_write_heats_its_account,
    law_score_covers_every_key,
    law_unwritten_account_keeps_its_record, law_what_is_written,
};
use crate::outside::AccountKey;
use crate::rift::{
    heating, spent, tallied, FootprintView, RiftSchedulerConfig, TransactionFootprint,
};

verus! {

/// The model of a transaction is made of its fields.
pub proof fn law_footprints_show_every_field(tx: TransactionFootprint)
    ensures
        tx@.account_keys == tx.account_keys@,
        tx@.writable == tx.writable@,
        tx@.serialized_size == tx.serialized_size,
{
}

/// Counters are counted modulo 2^64.
pub proof fn law_counters_wrap(counter: u64, n: u64)
    ensures
        tallied(counter, n) == (counter + n) % 0x1_0000_0000_0000_0000,
{
}

/// What is spent is gone from a budget, which does not go below zero.
pub proof fn law_spending(budget: u64, cost: u64)
    ensures
        cost <= budget ==> spent(budget, cost) + cost == budget,
        cost > budget ==> spent(budget, cost) == 0,
{
}

/// The room that parameters ask for can be reserved if 32 bytes for each
/// transaction and 128 for each hot account can be addressed.
pub proof fn law_when_room_can_be_reserved(config: RiftSchedulerConfig)
    requires
        config.max_scanned_transactions_per_scheduling_pass * 32 <= isize::MAX,
        config.hotspot_capacity * 128 <= isize::MAX,
    ensures
        config.can_be_reserved(),
{
}

/// The score of a transaction is at least the heat of every account that it
/// writes, at whichever position.
pub proof fn law_score_covers_every_written_account(
    hotspots: Map<AccountKey, HotAccountMeta>,
    tx: FootprintView,
    i: int,
)
    requires
        0 <= i < tx.account_keys.len(),
        i < tx.writable.len(),
        tx.writable[i],
        hotspots.contains_key(tx.account_keys[i]),
    ensures
        score(hotspots, tx.writes()) >= hotspots[tx.account_keys[i]].heat,
{
    law_what_is_written(tx.account_keys, tx.writable, tx.account_keys[i]);
    law_score_covers_every_key(hotspots, tx.writes(), tx.account_keys[i]);
}

/// One more account raises the score by exactly its heat if the transaction
/// writes it, as far as 32 bits can tell, and not at all if it does not. One
/// without accounts has no score.
pub proof fn law_one_more_account_adds_its_heat(
    hotspots: Map<AccountKey, HotAccountMeta>,
    tx: FootprintView,
    account: AccountKey,
    serialized_size: u64,
)
    ensures
        ({
            let longer = FootprintView {
                account_keys: tx.account_keys.push(account),
                writable: tx.writable,
                serialized_size,
            };
            let at = tx.account_keys.len() as int;
            let more = if at < tx.writable.len() && tx.writable[at] && hotspots.contains_key(
                account,
            ) {
                hotspots[account].heat as int
            } else {
                0
            };
            let sum = score(hotspots, tx.writes()) + more;
            &&& sum <= 0xffff_ffff ==> score(hotspots, longer.writes()) == sum
            &&& sum > 0xffff_ffff ==> score(hotspots, longer.writes()) == 0xffff_ffff
            &&& tx.account_keys.len() == 0 ==> score(hotspots, tx.writes()) == 0
        }),
{
    law_one_more_key_is_a_write_if_flagged(tx.account_keys, tx.writable, account);
    law_one_more_key_adds_its_heat(hotspots, tx.writes(), account);
    if tx.account_keys.len() == 0 {
        assert(tx.account_keys == Seq::<AccountKey>::empty());
    }
}

/// Marking raises the heat of an account that a transaction writes at position
/// `i`, and at no other, by one, up to 255, and records it as written in this
/// generation.
pub proof fn law_marking_heats_written_accounts(
    hotspots: Map<AccountKey, HotAccountMeta>,
    generation: u32,
    tx: FootprintView,
    i: int,
)
    requires
        0 <= i < tx.account_keys.len(),
        i < tx.writable.len(),
        tx.writable[i],
        forall|j: int|
            0 <= j < tx.account_keys.len() && j != i && j < tx.writable.len() && tx.writable[j]
                ==> #[trigger] tx.account_keys[j] != tx.account_keys[i],
    ensures
        ({
            let after = heating().mark(hotspots, tx.writes(), generation);
            let k = tx.account_keys[i];
            let heat = if hotspots.contains_key(k) {
                hotspots[k].heat as int
            } else {
                0
            };
            &&& after.contains_key(k)
            &&& after[k].generation == generation
            &&& after[k].touched == generation
            &&& heat < 255 ==> after[k].heat == heat + 1
            &&& heat >= 255 ==> after[k].heat == 255
        }),
{
    law_account_named_once_is_heated(
        heating(),
        hotspots,
        tx.account_keys,
        tx.writable,
        generation,
        i,
    );
}

/// One more account that a transaction writes gets one more heat, up to 255, on
/// top of what the others have left, even if it is one of them; one more that it
/// does not write changes nothing. A transaction without accounts heats none.
pub proof fn law_one_more_written_account_is_heated(
    hotspots: Map<AccountKey, HotAccountMeta>,
    generation: u32,
    tx: FootprintView,
    account: AccountKey,
    serialized_size: u64,
)
    ensures
        ({
            let longer = FootprintView {
                account_keys: tx.account_keys.push(account),
                writable: tx.writable,
                serialized_size,
            };
            let before = heating().mark(hotspots, tx.writes(), generation);
            let after = heating().mark(hotspots, longer.writes(), generation);
            let at = tx.account_keys.len() as int;
            let writes = at < tx.writable.len() && tx.writable[at];
            let heat = if before.contains_key(account) {
                before[account].heat as int
            } else {
                0
            };
            &&& !writes ==> after == before
            &&& writes ==> after == before.insert(
                account,
                HotAccountMeta {
                    generation,
                    touched: generation,
                    heat: (if heat < 255 {
                        heat + 1
                    } else {
                        255
                    }) as u16,
                },
            )
            &&& tx.account_keys.len() == 0 ==> before == hotspots
        }),
{
    law_one_more_key_is_a_write_if_flagged(tx.account_keys, tx.writable, account);
    law_one_more_write_heats_its_account(heating(), hotspots, tx.writes(), account, generation);
    if tx.account_keys.len() == 0 {
        assert(tx.account_keys == Seq::<AccountKey>::empty());
    }
}

/// Marking leaves the accounts alone that a transaction does not write.
pub proof fn law_marking_leaves_other_accounts(
    hotspots: Map<AccountKey, HotAccountMeta>,
    generation: u32,
    tx: FootprintView,
    other: AccountKey,
)
    requires
        forall|j: int|
            0 <= j < tx.account_keys.len() && j < tx.writable.len() && tx.writable[j]
                ==> #[trigger] tx.account_keys[j] != other,
    ensures
        ({
            let after = heating().mark(hotspots, tx.writes(), generation);
            &&& after.contains_key(other) == hotspots.contains_key(other)
            &&& hotspots.contains_key(other) ==> after[other] == hotspots[other]
        }),
{
    law_unwritten_account_keeps_its_record(
        heating(),
        hotspots,
        tx.account_keys,
        tx.writable,
        generation,
        other,
    );
}

} // verus!

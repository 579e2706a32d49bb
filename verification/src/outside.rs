//! Items of other crates that the library relies on, and what it takes for
//! granted of each.
use ahash::AHashMap;
use agave_scheduling_utils::thread_aware_account_locks::ThreadSet;
use solana_pubkey::Pubkey;
use vstd::prelude::*;

use crate::heat::{HotAccountMeta, Upkeep};

verus! {

/// [`solana_pubkey::Pubkey`], the address of an account: 32 bytes.
#[verifier::external_type_specification]
#[verifier::external_body]
pub struct ExPubkey(solana_pubkey::Pubkey);

/// [`ahash::RandomState`], the hasher of an [`AHashMap`].
#[verifier::external_type_specification]
#[verifier::external_body]
pub struct ExAHashState(ahash::RandomState);

/// [`ahash::AHashMap`].
#[verifier::external_type_specification]
#[verifier::external_body]
#[verifier::reject_recursive_types(K)]
#[verifier::reject_recursive_types(V)]
#[verifier::reject_recursive_types(S)]
pub struct ExAHashMap<K, V, S>(ahash::AHashMap<K, V, S>);

/// [`ThreadSet`], a set of worker threads.
#[verifier::external_type_specification]
#[verifier::external_body]
pub struct ExThreadSet(ThreadSet);

/// The bytes of an account's address.
pub type AccountKey = [u8; 32];

/// The table of hot accounts.
pub type HotTable = AHashMap<Pubkey, HotAccountMeta>;

/// The records that a table holds, by the bytes of the account's address.
pub uninterp spec fn records(table: HotTable) -> Map<AccountKey, HotAccountMeta>;

/// The records of an empty table.
pub open spec fn no_records() -> Map<AccountKey, HotAccountMeta> {
    Map::empty()
}

/// The threads that a set holds, by their numbers.
pub uninterp spec fn threads_in(set: ThreadSet) -> Set<usize>;

/// `AHashMap::with_capacity`: the new table is empty. A table that would take
/// more than `isize::MAX` bytes makes it panic; an entry takes up to 128.
#[verifier::external_body]
pub(crate) fn table_with_capacity(capacity: usize) -> (table: HotTable)
    requires
        capacity <= isize::MAX / 128,
    ensures
        records(table) == no_records(),
{
    AHashMap::with_capacity(capacity)
}

/// `AHashMap::get`: the record of the account, if there is one. Accounts are
/// told apart by the bytes that `Pubkey::new_from_array` takes.
#[verifier::external_body]
pub(crate) fn table_get(table: &HotTable, key: &AccountKey) -> (record: Option<HotAccountMeta>)
    ensures
        record == (if records(*table).contains_key(*key) {
            Some(records(*table)[*key])
        } else {
            None
        }),
{
    table.get(&Pubkey::new_from_array(*key)).copied()
}

/// `AHashMap::insert`: afterwards the account has the given record, and the
/// records of the others are what they were. Accounts are told apart by the
/// bytes that `Pubkey::new_from_array` takes.
#[verifier::external_body]
pub(crate) fn table_insert(table: &mut HotTable, key: AccountKey, record: HotAccountMeta)
    ensures
        records(*final(table)) == records(*old(table)).insert(key, record),
{
    table.insert(Pubkey::new_from_array(key), record);
}

/// `AHashMap::len`: the number of records.
#[verifier::external_body]
pub(crate) fn table_len(table: &HotTable) -> (len: usize)
    ensures
        len == records(*table).len(),
{
    table.len()
}

/// `AHashMap::retain`: [`Upkeep::keep`] is applied to every record; those for
/// which it returns `true` remain, as it leaves them.
#[verifier::external_body]
pub(crate) fn table_retain(table: &mut HotTable, rule: &Upkeep, generation: u32)
    requires
        rule.sound(),
    ensures
        records(*final(table)) == rule.applied(records(*old(table)), generation),
{
    table.retain(|_, record| rule.keep(record, generation))
}

/// `ThreadSet::any`: the threads `0..num_threads`. There can be 64 of them.
#[verifier::external_body]
pub(crate) fn threads_any(num_threads: usize) -> (set: ThreadSet)
    requires
        num_threads <= 64,
    ensures
        threads_in(set) == Set::new(|t: usize| t < num_threads),
{
    ThreadSet::any(num_threads)
}

/// `ThreadSet::remove`: the thread is no longer in the set.
#[verifier::external_body]
pub(crate) fn threads_remove(set: &mut ThreadSet, thread_id: usize)
    requires
        thread_id < 64,
    ensures
        threads_in(*final(set)) == threads_in(*old(set)).remove(thread_id),
{
    set.remove(thread_id)
}

/// `ThreadSet::is_empty`: whether no thread is in the set.
#[verifier::external_body]
pub(crate) fn threads_is_empty(set: &ThreadSet) -> (empty: bool)
    ensures
        empty == (threads_in(*set) == Set::<usize>::empty()),
{
    set.is_empty()
}

/// `solana_cost_model::block_cost_limits::MAX_BLOCK_UNITS`: the compute units
/// that a block is allowed.
#[verifier::external_body]
pub(crate) fn max_block_units() -> (units: u64)
    ensures
        units == 60_000_000,
{
    solana_cost_model::block_cost_limits::MAX_BLOCK_UNITS
}

} // verus!

//! Heat of write-contended accounts: how it is gained, how it cools, and what
//! it contributes to the conflict score of a transaction.
//!
//! Tables are modelled as maps from an account key to a [`HotAccountMeta`];
//! the key type is left open, so that every scheduler of the crate speaks of
//! the same mathematics.
use vstd::arithmetic::div_mod::lemma_basic_div;
use vstd::arithmetic::power2::{lemma2_to64, lemma_pow2_strictly_increases, pow2};
use vstd::prelude::*;

use crate::heat_laws::law_no_age_no_decay;

verus! {

/// What the table of hot accounts records of one account.
#[derive(Clone, Copy, Debug, PartialEq, Eq, Structural)]
pub struct HotAccountMeta {
    /// Generation in which the record was last brought up to date.
    pub generation: u32,
    /// Generation in which the account was last written.
    pub touched: u32,
    /// Heat that the account had in `generation`.
    pub heat: u16,
}

/// Bits that heat has.
pub const HEAT_BITS: u32 = 16;

/// The smaller of two integers.
pub open spec fn least(a: int, b: int) -> int {
    if a <= b {
        a
    } else {
        b
    }
}

/// Number of generations from `then` to `now`, on a counter that wraps.
pub open spec fn generations_between(now: u32, then: u32) -> u32 {
    (if now >= then {
        now - then
    } else {
        now - then + 0x1_0000_0000
    }) as u32
}

/// The generation after `generation`, on a counter that wraps.
pub open spec fn generation_after(generation: u32, distance: u32) -> u32 {
    (if generation + distance <= u32::MAX {
        generation + distance
    } else {
        generation + distance - 0x1_0000_0000
    }) as u32
}

/// Heat that is left after `age` generations: it is halved `shift` times per
/// generation.
pub open spec fn decayed(heat: u16, age: u32, shift: u32) -> u16 {
    (heat as nat / pow2((age * shift) as nat)) as u16
}

/// Whether the account at position `i` is written. A position without a flag
/// is read only.
pub open spec fn is_written(writable: Seq<bool>, i: int) -> bool {
    0 <= i < writable.len() && writable[i]
}

/// The keys at the written positions among the first `n`, in order.
pub open spec fn written_among<K>(keys: Seq<K>, writable: Seq<bool>, n: nat) -> Seq<K>
    decreases n,
{
    if n == 0 {
        Seq::empty()
    } else {
        let earlier = written_among(keys, writable, (n - 1) as nat);
        if is_written(writable, n - 1) {
            earlier.push(keys[n - 1])
        } else {
            earlier
        }
    }
}

/// The keys at the written positions, in order. A key that occurs twice among
/// them occurs twice.
pub open spec fn written<K>(keys: Seq<K>, writable: Seq<bool>) -> Seq<K> {
    written_among(keys, writable, keys.len())
}

/// Heat of `key`; an account that is not recorded is cold.
pub open spec fn heat_of<K>(table: Map<K, HotAccountMeta>, key: K) -> nat {
    if table.contains_key(key) {
        table[key].heat as nat
    } else {
        0
    }
}

/// Sum of the heats of `keys`; a key that occurs twice counts twice.
pub open spec fn total_heat<K>(table: Map<K, HotAccountMeta>, keys: Seq<K>) -> nat
    decreases keys.len(),
{
    if keys.len() == 0 {
        0
    } else {
        total_heat(table, keys.drop_last()) + heat_of(table, keys.last())
    }
}

/// The total heat of `keys`, as far as a `u32` can tell.
pub open spec fn score<K>(table: Map<K, HotAccountMeta>, keys: Seq<K>) -> u32 {
    least(total_heat(table, keys) as int, u32::MAX as int) as u32
}

/// Rule by which a write heats an account: `gain` is added, up to `cap`. An
/// account that is not recorded is cold.
pub struct Heating {
    pub gain: u16,
    pub cap: u16,
}

impl Heating {
    /// The record of an account after a write in `generation`.
    pub open spec fn touched(self, before: Option<HotAccountMeta>, generation: u32) -> HotAccountMeta {
        let heat: u16 = match before {
            Some(meta) => meta.heat,
            None => 0,
        };
        HotAccountMeta {
            generation,
            touched: generation,
            heat: least(heat + self.gain, self.cap as int) as u16,
        }
    }

    /// The table after one write to `key` in `generation`.
    pub open spec fn touch<K>(
        self,
        table: Map<K, HotAccountMeta>,
        key: K,
        generation: u32,
    ) -> Map<K, HotAccountMeta> {
        let before = if table.contains_key(key) {
            Some(table[key])
        } else {
            None
        };
        table.insert(key, self.touched(before, generation))
    }

    /// The table after writes to `keys`, one after the other.
    pub open spec fn mark<K>(
        self,
        table: Map<K, HotAccountMeta>,
        keys: Seq<K>,
        generation: u32,
    ) -> Map<K, HotAccountMeta>
        decreases keys.len(),
    {
        if keys.len() == 0 {
            table
        } else {
            self.touch(self.mark(table, keys.drop_last(), generation), keys.last(), generation)
        }
    }

    /// Computes the record of an account after a write.
    pub fn heat_up(&self, before: Option<HotAccountMeta>, generation: u32) -> (after: HotAccountMeta)
        ensures
            after == self.touched(before, generation),
    {
        let raised: u16 = match before {
            Some(meta) => meta.heat.saturating_add(self.gain),
            None => self.gain,
        };
        let heat: u16 = if raised <= self.cap {
            raised
        } else {
            self.cap
        };
        HotAccountMeta { generation, touched: generation, heat }
    }
}

/// Rule by which records age: they expire when the account has not been written
/// for more than `max_age` generations, and lose `shift` bits of heat per
/// generation until then.
pub struct Cooling {
    pub max_age: u32,
    pub shift: u32,
}

impl Cooling {
    /// What becomes of a record in `generation`: nothing, once it has expired
    /// or cooled down completely.
    pub open spec fn cooled(self, meta: HotAccountMeta, generation: u32) -> Option<HotAccountMeta> {
        let age = generations_between(generation, meta.generation);
        let heat = decayed(meta.heat, age, self.shift);
        if generations_between(generation, meta.touched) > self.max_age || heat == 0 {
            None
        } else {
            Some(HotAccountMeta { generation, touched: meta.touched, heat })
        }
    }

    /// The records of `table` that remain in `generation`.
    pub open spec fn cool<K>(
        self,
        table: Map<K, HotAccountMeta>,
        generation: u32,
    ) -> Map<K, HotAccountMeta> {
        Map::new(
            |k: K| table.contains_key(k) && self.cooled(table[k], generation) is Some,
            |k: K| self.cooled(table[k], generation)->0,
        )
    }

    /// Computes what becomes of a record.
    pub fn cool_down(&self, meta: HotAccountMeta, generation: u32) -> (after: Option<HotAccountMeta>)
        ensures
            after == self.cooled(meta, generation),
    {
        if generation.wrapping_sub(meta.touched) > self.max_age {
            return None;
        }
        let age: u32 = generation.wrapping_sub(meta.generation);
        proof {
            law_no_age_no_decay(meta.heat, self.shift);
        }
        let heat: u16 = if age > 0 {
            decay(meta.heat, age, self.shift)
        } else {
            meta.heat
        };
        if heat > 0 {
            Some(HotAccountMeta { generation, touched: meta.touched, heat })
        } else {
            None
        }
    }
}

/// Rule by which records lose heat without being brought up to date: they
/// expire when the account has not been written for more than `max_age`
/// generations, and lose one bit of heat per generation since the last write
/// until then, but no more than `max_bits` at once.
pub struct Fading {
    pub max_age: u32,
    pub max_bits: u32,
}

impl Fading {
    /// Heat that is left of a record in `generation`.
    pub open spec fn left(self, meta: HotAccountMeta, generation: u32) -> u16 {
        let age = generations_between(generation, meta.touched);
        if age > self.max_age {
            0
        } else {
            (meta.heat as nat / pow2(least(age as int, self.max_bits as int) as nat)) as u16
        }
    }

    /// What becomes of a record in `generation`. It keeps its own generation.
    pub open spec fn faded(self, meta: HotAccountMeta, generation: u32) -> Option<HotAccountMeta> {
        let heat = self.left(meta, generation);
        if heat == 0 {
            None
        } else {
            Some(HotAccountMeta { heat, ..meta })
        }
    }

    /// Computes the heat that is left of a record.
    pub fn heat_left(&self, meta: HotAccountMeta, generation: u32) -> (heat: u16)
        requires
            self.max_bits < 16,
        ensures
            heat == self.left(meta, generation),
    {
        let age: u32 = generation.wrapping_sub(meta.touched);
        if age > self.max_age {
            return 0;
        }
        let bits: u16 = if age < self.max_bits {
            age as u16
        } else {
            self.max_bits as u16
        };
        proof {
            vstd::bits::lemma_u16_shr_is_div(meta.heat, bits);
        }
        meta.heat >> bits
    }
}

/// What is done with the records of a table now and then.
pub enum Upkeep {
    Cool(Cooling),
    Fade(Fading),
}

impl Upkeep {
    /// Whether the rule is one that heat can follow: it has 16 bits.
    pub open spec fn sound(self) -> bool {
        self matches Upkeep::Fade(fading) ==> fading.max_bits < 16
    }

    /// What becomes of a record in `generation`.
    pub open spec fn kept(self, meta: HotAccountMeta, generation: u32) -> Option<HotAccountMeta> {
        match self {
            Upkeep::Cool(cooling) => cooling.cooled(meta, generation),
            Upkeep::Fade(fading) => fading.faded(meta, generation),
        }
    }

    /// The records of `table` that remain in `generation`.
    pub open spec fn applied<K>(
        self,
        table: Map<K, HotAccountMeta>,
        generation: u32,
    ) -> Map<K, HotAccountMeta> {
        Map::new(
            |k: K| table.contains_key(k) && self.kept(table[k], generation) is Some,
            |k: K| self.kept(table[k], generation)->0,
        )
    }

    /// Brings a record up to date, and tells whether it remains.
    pub fn keep(&self, meta: &mut HotAccountMeta, generation: u32) -> (remains: bool)
        requires
            self.sound(),
        ensures
            remains == (self.kept(*old(meta), generation) is Some),
            remains ==> *final(meta) == self.kept(*old(meta), generation)->0,
    {
        match self {
            Upkeep::Cool(cooling) => {
                match cooling.cool_down(*meta, generation) {
                    Some(after) => {
                        *meta = after;
                        true
                    },
                    None => false,
                }
            },
            Upkeep::Fade(fading) => {
                let heat: u16 = fading.heat_left(*meta, generation);
                meta.heat = heat;
                heat > 0
            },
        }
    }
}

/// Computes [`is_written`].
pub fn writes_at(writable: &Vec<bool>, i: usize) -> (r: bool)
    ensures
        r == is_written(writable@, i as int),
{
    i < writable.len() && writable[i]
}

/// Computes [`decayed`].
pub fn decay(heat: u16, age: u32, shift: u32) -> (left: u16)
    ensures
        left == decayed(heat, age, shift),
{
    assert(age * shift <= 0xffff_ffff * 0xffff_ffff) by (nonlinear_arith)
        requires
            age <= 0xffff_ffff,
            shift <= 0xffff_ffff,
    ;
    let bits: u64 = (age as u64) * (shift as u64);
    assert(bits == age * shift);
    if bits >= HEAT_BITS as u64 {
        proof {
            lemma_all_bits_taken(heat, (age * shift) as nat);
        }
        return 0;
    }
    proof {
        vstd::bits::lemma_u16_shr_is_div(heat, bits as u16);
    }
    heat >> (bits as u16)
}

/// Nothing is left of heat that has lost all of its bits.
pub proof fn lemma_all_bits_taken(heat: u16, bits: nat)
    requires
        bits >= HEAT_BITS,
    ensures
        heat as nat / pow2(bits) == 0,
{
    lemma2_to64();
    if bits > 16 {
        lemma_pow2_strictly_increases(16, bits);
    }
    lemma_basic_div(heat as int, pow2(bits) as int);
}

} // verus!

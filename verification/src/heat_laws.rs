//! Laws of heating and cooling.
use vstd::arithmetic::div_mod::{lemma_div_denominator, lemma_div_is_ordered_by_denominator};
use vstd::arithmetic::power2::{
    lemma2_to64, lemma_pow2_adds, lemma_pow2_pos, lemma_pow2_strictly_increases, pow2,
};
use vstd::prelude::*;

use crate::heat::{
    decayed, generation_after, generations_between, is_written, lemma_all_bits_taken, score,
    total_heat, written, written_among, Cooling, Fading, Heating, HotAccountMeta, Upkeep,
    HEAT_BITS,
};

verus! {

/// Without a shift nothing decays.
pub proof fn law_no_shift_no_decay(heat: u16, age: u32)
    ensures
        decayed(heat, age, 0) == heat,
{
    lemma2_to64();
    assert(age * 0 == 0) by (nonlinear_arith);
    assert(heat as nat / 1nat == heat as nat);
}

/// Nothing decays within a generation.
pub proof fn law_no_age_no_decay(heat: u16, shift: u32)
    ensures
        decayed(heat, 0, shift) == heat,
{
    lemma2_to64();
    assert(0 * shift == 0) by (nonlinear_arith);
    assert(heat as nat / 1nat == heat as nat);
}

/// A shift of one halves the heat in each generation.
pub proof fn law_shift_of_one_halves(heat: u16)
    ensures
        decayed(heat, 1, 1) == heat / 2,
{
    lemma2_to64();
}

/// Heat does not grow with age.
pub proof fn law_older_is_not_hotter(heat: u16, age: u32, older: u32, shift: u32)
    requires
        age <= older,
    ensures
        decayed(heat, older, shift) <= decayed(heat, age, shift) <= heat,
{
    assert(0 <= age * shift <= older * shift) by (nonlinear_arith)
        requires
            age <= older,
    ;
    let few = (age * shift) as nat;
    let many = (older * shift) as nat;
    lemma_pow2_pos(few);
    lemma_pow2_pos(many);
    if few < many {
        lemma_pow2_strictly_increases(few, many);
    }
    lemma_div_is_ordered_by_denominator(heat as int, pow2(few) as int, pow2(many) as int);
    lemma_div_is_ordered_by_denominator(heat as int, 1, pow2(few) as int);
    assert(heat as int / 1 == heat as int);
}

/// Nothing is left after as many shifts as heat has bits.
pub proof fn law_all_heat_is_lost(heat: u16, age: u32, shift: u32)
    requires
        age * shift >= HEAT_BITS,
    ensures
        decayed(heat, age, shift) == 0,
{
    lemma_all_bits_taken(heat, (age * shift) as nat);
}

/// To cool for some generations and then for some more is to cool for all of
/// them at once.
pub proof fn law_decay_composes(heat: u16, first: u32, second: u32, shift: u32)
    requires
        first + second <= u32::MAX,
    ensures
        decayed(decayed(heat, first, shift), second, shift) == decayed(
            heat,
            (first + second) as u32,
            shift,
        ),
{
    let x = (first * shift) as nat;
    let y = (second * shift) as nat;
    assert(0 <= first * shift) by (nonlinear_arith);
    assert(0 <= second * shift) by (nonlinear_arith);
    assert(first * shift + second * shift == (first + second) * shift) by (nonlinear_arith);
    lemma_pow2_pos(x);
    lemma_pow2_pos(y);
    lemma_pow2_adds(x, y);
    lemma_div_denominator(heat as int, pow2(x) as int, pow2(y) as int);
    law_older_is_not_hotter(heat, 0, first, shift);
    law_no_age_no_decay(heat, shift);
    assert(heat as nat / pow2(x) <= heat) by {
        lemma_div_is_ordered_by_denominator(heat as int, 1, pow2(x) as int);
    }
    assert(decayed(heat, first, shift) == heat as nat / pow2(x));
}

/// After cooling every record is up to date and warm, belongs to an account
/// that was hot before and has been written within `max_age` generations, and
/// is no hotter than it was. When the account was written is not forgotten.
pub proof fn law_cooling_normalises<K>(
    cooling: Cooling,
    table: Map<K, HotAccountMeta>,
    generation: u32,
    key: K,
)
    requires
        cooling.cool(table, generation).contains_key(key),
    ensures
        ({
            let after = cooling.cool(table, generation)[key];
            &&& after.generation == generation
            &&& after.touched == table[key].touched
            &&& 0 < after.heat <= table[key].heat
            &&& table.contains_key(key)
            &&& generations_between(generation, after.touched) <= cooling.max_age
        }),
{
    let age = generations_between(generation, table[key].generation);
    law_older_is_not_hotter(table[key].heat, age, age, cooling.shift);
}

/// An account is forgotten exactly when it has not been written for more than
/// `max_age` generations or nothing is left of its heat.
pub proof fn law_what_cooling_forgets<K>(
    cooling: Cooling,
    table: Map<K, HotAccountMeta>,
    generation: u32,
    key: K,
)
    requires
        table.contains_key(key),
    ensures
        ({
            let meta = table[key];
            let age = generations_between(generation, meta.generation);
            !cooling.cool(table, generation).contains_key(key) <==> {
                ||| generations_between(generation, meta.touched) > cooling.max_age
                ||| decayed(meta.heat, age, cooling.shift) == 0
            }
        }),
{
}

/// To cool in one generation and again in a later one is to cool in the later
/// one at once: it makes no difference in how many steps a record is brought
/// up to date. (From the last write to the later generation the counter must
/// not go round.)
pub proof fn law_cooling_composes(cooling: Cooling, meta: HotAccountMeta, first: u32, second: u32)
    requires
        generations_between(first, meta.generation) + generations_between(second, first)
            == generations_between(second, meta.generation),
        generations_between(first, meta.touched) + generations_between(second, first)
            == generations_between(second, meta.touched),
    ensures
        match cooling.cooled(meta, first) {
            Some(between) => cooling.cooled(between, second) == cooling.cooled(meta, second),
            None => cooling.cooled(meta, second) is None,
        },
{
    let age = generations_between(first, meta.generation);
    let more = generations_between(second, first);
    law_decay_composes(meta.heat, age, more, cooling.shift);
    law_older_is_not_hotter(meta.heat, age, (age + more) as u32, cooling.shift);
}

/// To cool twice in one generation is to cool once.
pub proof fn law_cooling_is_idempotent<K>(
    cooling: Cooling,
    table: Map<K, HotAccountMeta>,
    generation: u32,
)
    ensures
        cooling.cool(cooling.cool(table, generation), generation) == cooling.cool(table, generation),
{
    let once = cooling.cool(table, generation);
    assert forall|k: K| once.contains_key(k) implies cooling.cooled(once[k], generation) == Some(
        #[trigger] once[k],
    ) by {
        law_no_age_no_decay(once[k].heat, cooling.shift);
    }
    assert(cooling.cool(once, generation) == once);
}

/// Where no account is written, nothing is.
pub proof fn lemma_no_writes<K>(keys: Seq<K>, writable: Seq<bool>, n: nat)
    requires
        n <= keys.len(),
        forall|i: int| 0 <= i < keys.len() ==> !is_written(writable, i),
    ensures
        written_among(keys, writable, n) == Seq::<K>::empty(),
    decreases n,
{
    if n > 0 {
        lemma_no_writes(keys, writable, (n - 1) as nat);
    }
}

/// Writes leave alone the accounts that they do not go to.
pub proof fn law_heating_is_local<K>(
    heating: Heating,
    table: Map<K, HotAccountMeta>,
    keys: Seq<K>,
    generation: u32,
    other: K,
)
    requires
        !keys.contains(other),
    ensures
        ({
            let after = heating.mark(table, keys, generation);
            &&& after.contains_key(other) == table.contains_key(other)
            &&& table.contains_key(other) ==> after[other] == table[other]
        }),
    decreases keys.len(),
{
    if keys.len() > 0 {
        assert(keys.last() == keys[keys.len() - 1]);
        assert(!keys.drop_last().contains(other)) by {
            if keys.drop_last().contains(other) {
                let i = choose|i: int| 0 <= i < keys.drop_last().len() && keys.drop_last()[i] == other;
                assert(keys[i] == other);
            }
        }
        law_heating_is_local(heating, table, keys.drop_last(), generation, other);
    }
}

/// Every account that is written has an up-to-date record afterwards.
pub proof fn law_heating_records_writes<K>(
    heating: Heating,
    table: Map<K, HotAccountMeta>,
    keys: Seq<K>,
    generation: u32,
    key: K,
)
    requires
        keys.contains(key),
    ensures
        heating.mark(table, keys, generation).contains_key(key),
        heating.mark(table, keys, generation)[key].generation == generation,
        heating.mark(table, keys, generation)[key].touched == generation,
    decreases keys.len(),
{
    let i = choose|i: int| 0 <= i < keys.len() && keys[i] == key;
    if key != keys.last() {
        assert(keys.drop_last()[i] == key);
        law_heating_records_writes(heating, table, keys.drop_last(), generation, key);
    }
}

/// No account gets hotter than the cap.
pub proof fn law_heat_is_bounded<K>(
    heating: Heating,
    table: Map<K, HotAccountMeta>,
    keys: Seq<K>,
    generation: u32,
    bound: u16,
)
    requires
        heating.cap <= bound,
        forall|k: K| #[trigger] table.contains_key(k) ==> table[k].heat <= bound,
    ensures
        forall|k: K| #[trigger]
            heating.mark(table, keys, generation).contains_key(k) ==> heating.mark(
                table,
                keys,
                generation,
            )[k].heat <= bound,
    decreases keys.len(),
{
    if keys.len() > 0 {
        let earlier = heating.mark(table, keys.drop_last(), generation);
        law_heat_is_bounded(heating, table, keys.drop_last(), generation, bound);
        assert forall|k: K| #[trigger]
            heating.mark(table, keys, generation).contains_key(k) implies heating.mark(
            table,
            keys,
            generation,
        )[k].heat <= bound by {
            if k != keys.last() {
                assert(earlier.contains_key(k));
            }
        }
    }
}

/// Writes to some accounts do not change the score of others.
pub proof fn law_disjoint_writes_do_not_interfere<K>(
    heating: Heating,
    table: Map<K, HotAccountMeta>,
    written: Seq<K>,
    generation: u32,
    keys: Seq<K>,
)
    requires
        forall|i: int| 0 <= i < keys.len() ==> !written.contains(#[trigger] keys[i]),
    ensures
        total_heat(heating.mark(table, written, generation), keys) == total_heat(table, keys),
        score(heating.mark(table, written, generation), keys) == score(table, keys),
    decreases keys.len(),
{
    if keys.len() > 0 {
        assert forall|i: int| 0 <= i < keys.drop_last().len() implies !written.contains(
            #[trigger] keys.drop_last()[i],
        ) by {
            assert(keys[i] == keys.drop_last()[i]);
        }
        law_disjoint_writes_do_not_interfere(heating, table, written, generation, keys.drop_last());
        assert(keys.last() == keys[keys.len() - 1]);
        law_heating_is_local(heating, table, written, generation, keys.last());
    }
}

// Generations

/// Generations are counted modulo 2^32: what lies between two of them is what
/// has to be added to the one to get to the other.
pub proof fn law_generations_wrap(now: u32, before: u32, distance: u32)
    ensures
        (before + generations_between(now, before)) % 0x1_0000_0000 == now,
        generation_after(before, distance) == (before + distance) % 0x1_0000_0000,
{
}

// Decay

/// What is left of heat is how often 2^(age * shift) goes into it.
pub proof fn law_decay_is_division(heat: u16, age: u32, shift: u32)
    ensures
        ({
            let left = decayed(heat, age, shift);
            let unit = pow2((age * shift) as nat);
            left * unit <= heat < (left + 1) * unit
        }),
{
    assert(0 <= age * shift) by (nonlinear_arith);
    let unit = pow2((age * shift) as nat) as int;
    lemma_pow2_pos((age * shift) as nat);
    law_older_is_not_hotter(heat, 0, age, shift);
    assert(heat as int / unit <= heat) by {
        lemma_div_is_ordered_by_denominator(heat as int, 1, unit);
    }
    let left = heat as int / unit;
    assert(0 <= left) by {
        vstd::arithmetic::div_mod::lemma_div_pos_is_pos(heat as int, unit);
    }
    assert(decayed(heat, age, shift) == left);
    vstd::arithmetic::div_mod::lemma_fundamental_div_mod(heat as int, unit);
    vstd::arithmetic::div_mod::lemma_mod_bound(heat as int, unit);
    assert(left * unit <= heat < (left + 1) * unit) by (nonlinear_arith)
        requires
            heat as int == unit * left + heat as int % unit,
            0 <= heat as int % unit < unit,
    ;
}

/// One more generation, and one more bit of shift, halve what is left once
/// more.
pub proof fn law_decay_halves_bit_by_bit(heat: u16, age: u32, shift: u32)
    ensures
        age < u32::MAX ==> decayed(heat, (age + 1) as u32, 1) == decayed(heat, age, 1) / 2,
        shift < u32::MAX ==> decayed(heat, 1, (shift + 1) as u32) == decayed(heat, 1, shift) / 2,
{
    if age < u32::MAX {
        law_decay_composes(heat, age, 1, 1);
        law_shift_of_one_halves(decayed(heat, age, 1));
    }
    if shift < u32::MAX {
        let bits = (1 * shift) as nat;
        lemma_pow2_pos(bits);
        lemma_pow2_adds(bits, 1);
        lemma2_to64();
        lemma_div_denominator(heat as int, pow2(bits) as int, 2);
        lemma_div_is_ordered_by_denominator(heat as int, 1, pow2(bits) as int);
        assert(heat as int / 1 == heat as int);
        assert(0 <= heat as int / pow2(bits) as int) by {
            vstd::arithmetic::div_mod::lemma_div_pos_is_pos(heat as int, pow2(bits) as int);
        }
        assert((1 * (shift + 1) as u32) as nat == bits + 1);
    }
}

// Writes

/// Each position with a flag that is set is a write, and nothing else is: one
/// more key is one more write exactly if there is a flag for it and it is set.
pub proof fn law_one_more_key_is_a_write_if_flagged<K>(keys: Seq<K>, writable: Seq<bool>, key: K)
    ensures
        written(Seq::<K>::empty(), writable) == Seq::<K>::empty(),
        written(keys.push(key), writable) == (if keys.len() < writable.len()
            && writable[keys.len() as int] {
            written(keys, writable).push(key)
        } else {
            written(keys, writable)
        }),
{
    lemma_writes_of_prefix(keys, writable, key, keys.len());
}

proof fn lemma_writes_of_prefix<K>(keys: Seq<K>, writable: Seq<bool>, key: K, n: nat)
    requires
        n <= keys.len(),
    ensures
        written_among(keys.push(key), writable, n) == written_among(keys, writable, n),
    decreases n,
{
    if n > 0 {
        lemma_writes_of_prefix(keys, writable, key, (n - 1) as nat);
    }
}

/// A key is written exactly if it stands at a position whose flag is set.
pub proof fn law_what_is_written<K>(keys: Seq<K>, writable: Seq<bool>, key: K)
    ensures
        written(keys, writable).contains(key) <==> exists|i: int|
            0 <= i < keys.len() && i < writable.len() && writable[i] && #[trigger] keys[i] == key,
{
    lemma_what_is_written_among(keys, writable, key, keys.len());
}

proof fn lemma_what_is_written_among<K>(keys: Seq<K>, writable: Seq<bool>, key: K, n: nat)
    requires
        n <= keys.len(),
    ensures
        written_among(keys, writable, n).contains(key) <==> exists|i: int|
            0 <= i < n && i < writable.len() && writable[i] && #[trigger] keys[i] == key,
    decreases n,
{
    if n > 0 {
        let earlier = written_among(keys, writable, (n - 1) as nat);
        lemma_what_is_written_among(keys, writable, key, (n - 1) as nat);
        if is_written(writable, n - 1) {
            let all = written_among(keys, writable, n);
            if earlier.contains(key) {
                let j = choose|j: int| 0 <= j < earlier.len() && earlier[j] == key;
                assert(all[j] == key);
            }
            if keys[n - 1] == key {
                assert(all[earlier.len() as int] == key);
            }
            if all.contains(key) {
                let j = choose|j: int| 0 <= j < all.len() && all[j] == key;
                if j < earlier.len() {
                    assert(earlier[j] == key);
                } else {
                    assert(keys[n - 1] == key);
                }
            }
        }
    }
}

// Scores

/// Every key adds its heat to the total, at whichever position; an account that
/// is not recorded adds nothing. A score is the total, as far as 32 bits can
/// tell.
pub proof fn law_one_more_key_adds_its_heat<K>(
    table: Map<K, HotAccountMeta>,
    keys: Seq<K>,
    key: K,
)
    ensures
        ({
            let heat = if table.contains_key(key) {
                table[key].heat as int
            } else {
                0
            };
            let total = total_heat(table, keys);
            &&& total_heat(table, Seq::<K>::empty()) == 0
            &&& total_heat(table, keys.push(key)) == total + heat
            &&& score(table, keys) == (if total <= 0xffff_ffff {
                total as int
            } else {
                0xffff_ffff
            })
            &&& score(table, keys.push(key)) == (if score(table, keys) + heat <= 0xffff_ffff {
                score(table, keys) + heat
            } else {
                0xffff_ffff
            })
        }),
{
    assert(keys.push(key).drop_last() == keys);
}

/// A score is at least the heat of every account.
pub proof fn law_score_covers_every_key<K>(table: Map<K, HotAccountMeta>, keys: Seq<K>, key: K)
    requires
        keys.contains(key),
        table.contains_key(key),
    ensures
        score(table, keys) >= table[key].heat,
        total_heat(table, keys) >= table[key].heat,
    decreases keys.len(),
{
    assert(keys == keys.drop_last().push(keys.last()));
    law_one_more_key_adds_its_heat(table, keys.drop_last(), keys.last());
    if key != keys.last() {
        let i = choose|i: int| 0 <= i < keys.len() && keys[i] == key;
        assert(keys.drop_last()[i] == key);
        law_score_covers_every_key(table, keys.drop_last(), key);
    }
}

// Heating

/// One more write raises the heat of its account by the gain, but not above the
/// cap, and is recorded as the last one; an account that is not recorded
/// starts at zero. The other accounts keep their records, and none appears or
/// disappears.
pub proof fn law_one_more_write_heats_its_account<K>(
    heating: Heating,
    table: Map<K, HotAccountMeta>,
    keys: Seq<K>,
    key: K,
    generation: u32,
)
    ensures
        heating.mark(table, Seq::<K>::empty(), generation) == table,
        ({
            let before = heating.mark(table, keys, generation);
            let after = heating.mark(table, keys.push(key), generation);
            let heat = if before.contains_key(key) {
                before[key].heat as int
            } else {
                0
            };
            &&& after.contains_key(key)
            &&& after[key].generation == generation
            &&& after[key].touched == generation
            &&& after[key].heat == (if heat + heating.gain <= heating.cap {
                heat + heating.gain
            } else {
                heating.cap as int
            })
            &&& forall|k: K|
                k != key ==> #[trigger] after.contains_key(k) == before.contains_key(k)
            &&& forall|k: K| k != key && before.contains_key(k) ==> #[trigger] after[k] == before[k]
        }),
{
    assert(keys.push(key).drop_last() == keys);
}

/// What the writes of a transaction do to an account that it names once.
proof fn lemma_heat_of_account_named_once<K>(
    heating: Heating,
    table: Map<K, HotAccountMeta>,
    keys: Seq<K>,
    writable: Seq<bool>,
    n: nat,
    i: int,
    generation: u32,
)
    requires
        n <= keys.len(),
        0 <= i < keys.len(),
        is_written(writable, i),
        forall|j: int|
            0 <= j < keys.len() && j != i && is_written(writable, j) ==> #[trigger] keys[j]
                != keys[i],
    ensures
        ({
            let after = heating.mark(table, written_among(keys, writable, n), generation);
            let heat = if table.contains_key(keys[i]) {
                table[keys[i]].heat as int
            } else {
                0
            };
            if n <= i {
                &&& after.contains_key(keys[i]) == table.contains_key(keys[i])
                &&& table.contains_key(keys[i]) ==> after[keys[i]] == table[keys[i]]
            } else {
                &&& after.contains_key(keys[i])
                &&& after[keys[i]].generation == generation
                &&& after[keys[i]].touched == generation
                &&& after[keys[i]].heat == (if heat + heating.gain <= heating.cap {
                    heat + heating.gain
                } else {
                    heating.cap as int
                })
            }
        }),
    decreases n,
{
    if n > 0 {
        let m = (n - 1) as nat;
        lemma_heat_of_account_named_once(heating, table, keys, writable, m, i, generation);
        if is_written(writable, m as int) {
            law_one_more_write_heats_its_account(
                heating,
                table,
                written_among(keys, writable, m),
                keys[m as int],
                generation,
            );
        }
    }
}

/// An account that is written at position `i`, and at no other, is heated by the
/// gain, up to the cap, and recorded as written in this generation.
pub proof fn law_account_named_once_is_heated<K>(
    heating: Heating,
    table: Map<K, HotAccountMeta>,
    keys: Seq<K>,
    writable: Seq<bool>,
    generation: u32,
    i: int,
)
    requires
        0 <= i < keys.len(),
        i < writable.len(),
        writable[i],
        forall|j: int|
            0 <= j < keys.len() && j != i && j < writable.len() && writable[j] ==> #[trigger] keys[j]
                != keys[i],
    ensures
        ({
            let after = heating.mark(table, written(keys, writable), generation);
            let heat = if table.contains_key(keys[i]) {
                table[keys[i]].heat as int
            } else {
                0
            };
            &&& after.contains_key(keys[i])
            &&& after[keys[i]].generation == generation
            &&& after[keys[i]].touched == generation
            &&& heat + heating.gain <= heating.cap ==> after[keys[i]].heat == heat + heating.gain
            &&& heat + heating.gain > heating.cap ==> after[keys[i]].heat == heating.cap
        }),
{
    lemma_heat_of_account_named_once(heating, table, keys, writable, keys.len(), i, generation);
}

/// An account that is written at no position keeps its record, and gets none if
/// it has none.
pub proof fn law_unwritten_account_keeps_its_record<K>(
    heating: Heating,
    table: Map<K, HotAccountMeta>,
    keys: Seq<K>,
    writable: Seq<bool>,
    generation: u32,
    other: K,
)
    requires
        forall|j: int|
            0 <= j < keys.len() && j < writable.len() && writable[j] ==> #[trigger] keys[j]
                != other,
    ensures
        ({
            let after = heating.mark(table, written(keys, writable), generation);
            &&& after.contains_key(other) == table.contains_key(other)
            &&& table.contains_key(other) ==> after[other] == table[other]
        }),
{
    law_what_is_written(keys, writable, other);
    law_heating_is_local(heating, table, written(keys, writable), generation, other);
}

// Cooling and fading

/// A record that remains has lost `shift` bits of heat for every generation
/// since it was last brought up to date, and is up to date; when its account
/// was written stays as it was. It remains exactly if heat is left and the
/// account was written within `max_age` generations.
pub proof fn law_what_cooling_leaves<K>(
    cooling: Cooling,
    table: Map<K, HotAccountMeta>,
    generation: u32,
    key: K,
)
    ensures
        ({
            let after = cooling.cool(table, generation);
            let meta = table[key];
            let age = (generation - meta.generation) % 0x1_0000_0000;
            let unwritten = (generation - meta.touched) % 0x1_0000_0000;
            let left = decayed(meta.heat, age as u32, cooling.shift);
            &&& after.contains_key(key) <==> table.contains_key(key) && unwritten <= cooling.max_age
                && left > 0
            &&& after.contains_key(key) ==> after[key].generation == generation
            &&& after.contains_key(key) ==> after[key].touched == meta.touched
            &&& after.contains_key(key) ==> after[key].heat == left
        }),
{
}

/// A record that fades loses no heat in the generation of the last write, one
/// bit for every generation since then as long as that is not more than
/// `max_bits`, and no more after that; when more than `max_age` generations
/// have passed, nothing is left.
pub proof fn law_what_fading_leaves(rule: Fading, meta: HotAccountMeta, generation: u32)
    ensures
        ({
            let age = (generation - meta.touched) % 0x1_0000_0000;
            let bits = if age <= rule.max_bits {
                age
            } else {
                rule.max_bits as int
            };
            &&& rule.left(meta, generation) == (if age > rule.max_age {
                0
            } else {
                decayed(meta.heat, bits as u32, 1)
            })
            &&& rule.faded(meta, generation) is Some <==> rule.left(meta, generation) > 0
            &&& rule.left(meta, generation) > 0 ==> rule.faded(meta, generation) == Some(
                HotAccountMeta {
                    generation: meta.generation,
                    touched: meta.touched,
                    heat: rule.left(meta, generation),
                },
            )
        }),
{
    let age = (generation - meta.touched) % 0x1_0000_0000;
    assert(age == generations_between(generation, meta.touched));
    let bits = if age <= rule.max_bits {
        age
    } else {
        rule.max_bits as int
    };
    assert((bits as u32) * 1 == bits);
}

/// Upkeep of a table is upkeep of each of its records: what remains of a table
/// is what remains of its records, and nothing appears.
pub proof fn law_upkeep_is_by_record<K>(
    rule: Upkeep,
    table: Map<K, HotAccountMeta>,
    generation: u32,
    key: K,
)
    ensures
        ({
            let after = rule.applied(table, generation);
            let kept = match rule {
                Upkeep::Cool(cooling) => cooling.cooled(table[key], generation),
                Upkeep::Fade(fading) => fading.faded(table[key], generation),
            };
            &&& after.contains_key(key) <==> table.contains_key(key) && kept is Some
            &&& after.contains_key(key) ==> kept == Some(after[key])
        }),
{
}

} // verus!

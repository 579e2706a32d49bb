use agave_rift_scheduler::heat::{
    decay, writes_at, Cooling, Fading, Heating, HotAccountMeta, Upkeep,
};
use agave_rift_scheduler::model::backoff_generations;
use agave_rift_scheduler::HybridScheduler;

/// The record of an account that was just written.
fn meta(generation: u32, heat: u16) -> HotAccountMeta {
    HotAccountMeta { generation, touched: generation, heat }
}

/// The record of an account that was written earlier.
fn cooled(generation: u32, touched: u32, heat: u16) -> HotAccountMeta {
    HotAccountMeta { generation, touched, heat }
}

#[test]
fn decay_halves_per_generation() {
    assert_eq!(HybridScheduler::decayed_heat(40, 0, 1), 40);
    assert_eq!(HybridScheduler::decayed_heat(40, 1, 1), 20);
    assert_eq!(HybridScheduler::decayed_heat(40, 2, 1), 10);
    assert_eq!(HybridScheduler::decayed_heat(40, 3, 2), 0);
    assert_eq!(decay(0x0f00, 2, 3), 0x003c);
}

#[test]
fn decay_without_shift_or_age_keeps_heat() {
    assert_eq!(HybridScheduler::decayed_heat(777, 1000, 0), 777);
    assert_eq!(HybridScheduler::decayed_heat(777, 0, 7), 777);
}

#[test]
fn nothing_is_left_after_sixteen_bits() {
    assert_eq!(HybridScheduler::decayed_heat(u16::MAX, 15, 1), 1);
    assert_eq!(HybridScheduler::decayed_heat(32_768, 15, 1), 1);
    assert_eq!(HybridScheduler::decayed_heat(32_768, 16, 1), 0);
    assert_eq!(HybridScheduler::decayed_heat(u16::MAX, 4, 4), 0);
    assert_eq!(HybridScheduler::decayed_heat(u16::MAX, 100, 1), 0);
    assert_eq!(HybridScheduler::decayed_heat(u16::MAX, u32::MAX, u32::MAX), 0);
    // A product of 2^32 is no shift of zero.
    assert_eq!(HybridScheduler::decayed_heat(u16::MAX, 0x1_0000, 0x1_0000), 0);
}

#[test]
fn older_is_not_hotter() {
    let mut last = u16::MAX;
    for age in 0..40 {
        let left = HybridScheduler::decayed_heat(54_321, age, 1);
        assert!(left <= last);
        last = left;
    }
    assert_eq!(last, 0);
}

#[test]
fn decay_composes() {
    for first in 0..20 {
        for second in 0..20 {
            let twice = decay(decay(u16::MAX, first, 1), second, 1);
            assert_eq!(twice, decay(u16::MAX, first + second, 1));
        }
    }
}

#[test]
fn first_write_respects_the_cap() {
    let heating = Heating { gain: 10, cap: 5 };
    assert_eq!(heating.heat_up(None, 3), meta(3, 5));
    assert_eq!(heating.heat_up(Some(meta(3, 5)), 4), meta(4, 5));
    let usual = Heating { gain: 2, cap: 255 };
    assert_eq!(usual.heat_up(None, 3), meta(3, 2));
}

#[test]
fn writes_add_up_to_the_cap() {
    let heating = Heating { gain: 2, cap: 255 };
    assert_eq!(heating.heat_up(Some(meta(1, 40)), 9), meta(9, 42));
    assert_eq!(heating.heat_up(Some(meta(1, 254)), 9), meta(9, 255));
    let unbounded = Heating { gain: u16::MAX, cap: u16::MAX };
    assert_eq!(unbounded.heat_up(Some(meta(1, 9)), 9), meta(9, u16::MAX));
}

#[test]
fn cooling_brings_records_up_to_date() {
    let cooling = Cooling { max_age: 16, shift: 1 };
    assert_eq!(cooling.cool_down(meta(5, 40), 5), Some(meta(5, 40)));
    assert_eq!(cooling.cool_down(meta(5, 40), 7), Some(cooled(7, 5, 10)));
    assert_eq!(cooling.cool_down(meta(5, 3), 7), None);
    assert_eq!(cooling.cool_down(meta(5, 0), 5), None);
}

#[test]
fn cooling_expires_records() {
    let cooling = Cooling { max_age: 16, shift: 0 };
    assert_eq!(cooling.cool_down(meta(4, 9), 20), Some(cooled(20, 4, 9)));
    assert_eq!(cooling.cool_down(meta(4, 9), 21), None);
    // What counts is the last write, not the last cooling.
    assert_eq!(cooling.cool_down(cooled(20, 4, 9), 21), None);
    assert_eq!(cooling.cool_down(cooled(20, 5, 9), 21), Some(cooled(21, 5, 9)));
}

#[test]
fn ages_are_counted_across_the_wrap() {
    let cooling = Cooling { max_age: 16, shift: 1 };
    assert_eq!(cooling.cool_down(meta(u32::MAX, 40), 1), Some(cooled(1, u32::MAX, 10)));
    assert_eq!(cooling.cool_down(meta(1, 40), u32::MAX), None);
}

#[test]
fn cooling_twice_is_cooling_once() {
    let rule = Upkeep::Cool(Cooling { max_age: 16, shift: 1 });
    let mut record = meta(5, 41);
    assert!(rule.keep(&mut record, 8));
    assert_eq!(record, cooled(8, 5, 5));
    assert!(rule.keep(&mut record, 8));
    assert_eq!(record, cooled(8, 5, 5));
}

#[test]
fn cooling_in_steps_is_cooling_at_once() {
    let cooling = Cooling { max_age: 5, shift: 1 };
    for heat in [1, 9, 255, u16::MAX] {
        for first in 3..10 {
            for second in first..10 {
                let steps = match cooling.cool_down(meta(3, heat), first) {
                    Some(between) => cooling.cool_down(between, second),
                    None => None,
                };
                assert_eq!(steps, cooling.cool_down(meta(3, heat), second));
            }
        }
    }
}

#[test]
fn fading_keeps_the_generation() {
    let fading = Fading { max_age: 16, max_bits: 4 };
    assert_eq!(fading.heat_left(meta(10, 200), 10), 200);
    assert_eq!(fading.heat_left(meta(10, 200), 11), 100);
    assert_eq!(fading.heat_left(meta(10, 200), 14), 12);
    assert_eq!(fading.heat_left(meta(10, 200), 26), 12);
    assert_eq!(fading.heat_left(meta(10, 200), 27), 0);

    let rule = Upkeep::Fade(fading);
    let mut record = meta(10, 200);
    assert!(rule.keep(&mut record, 12));
    assert_eq!(record, meta(10, 50));
    let mut cold = meta(10, 15);
    assert!(!rule.keep(&mut cold, 14));
}

#[test]
fn positions_without_a_flag_are_read_only() {
    let flags = vec![true, false];
    assert!(writes_at(&flags, 0));
    assert!(!writes_at(&flags, 1));
    assert!(!writes_at(&flags, 2));
}

#[test]
fn backoff_doubles_up_to_a_bound() {
    let delays: Vec<u32> = (0..12).map(backoff_generations).collect();
    assert_eq!(delays, vec![1, 2, 4, 8, 16, 32, 64, 128, 256, 256, 256, 256]);
    assert_eq!(backoff_generations(u8::MAX), 256);
}

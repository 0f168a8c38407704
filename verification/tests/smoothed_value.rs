use follow_camera::fixed::ONE;
use follow_camera::smoothed::{
    retained_fraction, SmoothedValue, FRACTION_ONE, SETTLE_DISTANCE, TICKS_PER_SECOND,
};

const FACTOR: u32 = 4294947517;

#[test]
fn new_value_rests_on_initial() {
    let value = SmoothedValue::new(1000, FACTOR, 5);
    assert_eq!(value.get_current(), 1000);
    assert_eq!(value.get_desired(), 1000);
    assert!(value.is_settled());
}

#[test]
fn move_desired_moves_only_the_target() {
    let mut value = SmoothedValue::new(1000, FACTOR, 5);
    value.move_desired(-250);
    assert_eq!(value.get_current(), 1000);
    assert_eq!(value.get_desired(), 750);
    assert!(!value.is_settled());
    value.move_desired(250);
    assert!(value.is_settled());
}

#[test]
fn move_desired_stops_at_the_ends_of_the_range() {
    let mut value = SmoothedValue::new(i64::MAX - 5, FACTOR, 5);
    value.move_desired(100);
    assert_eq!(value.get_desired(), i64::MAX);
    let mut value = SmoothedValue::new(i64::MIN + 5, FACTOR, 5);
    value.move_desired(i64::MIN);
    assert_eq!(value.get_desired(), i64::MIN);
}

#[test]
fn move_desired_clamp_stops_at_the_limits() {
    let mut value = SmoothedValue::new(1000, FACTOR, 5);
    value.move_desired_clamp(500, 0, 1200);
    assert_eq!(value.get_desired(), 1200);
    assert_eq!(value.get_current(), 1000);
    value.move_desired_clamp(-5000, 0, 1200);
    assert_eq!(value.get_desired(), 0);
    value.move_desired_clamp(700, 0, 1200);
    assert_eq!(value.get_desired(), 700);
    value.move_desired_clamp(i64::MAX, 0, 1200);
    assert_eq!(value.get_desired(), 1200);
    value.move_desired_clamp(i64::MIN, -3, 1200);
    assert_eq!(value.get_desired(), -3);
}

#[test]
fn move_desired_clamp_brings_an_outside_target_back() {
    let mut value = SmoothedValue::new(5000, FACTOR, 5);
    value.move_desired_clamp(0, 0, 1200);
    assert_eq!(value.get_desired(), 1200);
    assert_eq!(value.get_current(), 5000);
}

#[test]
fn retained_fraction_of_no_time_is_everything() {
    assert_eq!(retained_fraction(FACTOR, 0), FRACTION_ONE);
    assert_eq!(retained_fraction(0, 0), FRACTION_ONE);
}

#[test]
fn retained_fraction_is_a_power_of_the_factor() {
    assert_eq!(retained_fraction(FACTOR, 1), 4294947517);
    assert_eq!(retained_fraction(1 << 31, 3), 536870912);
    assert_eq!(retained_fraction(FACTOR, 1000), 4275233379);
    assert_eq!(retained_fraction(FACTOR, 16667), 3977639410);
    assert_eq!(retained_fraction(0, 5), 0);
}

#[test]
fn a_hundredth_of_the_gap_survives_a_second() {
    let kept = retained_fraction(FACTOR, TICKS_PER_SECOND);
    assert_eq!(kept, 42946284);
    assert!(kept * 100 <= FRACTION_ONE);
    assert!(kept * 101 >= FRACTION_ONE);
}

#[test]
fn update_moves_by_the_decayed_share_of_the_gap() {
    let mut value = SmoothedValue::new(0, FACTOR, 5 * 65536);
    value.move_desired(100 * ONE);
    let mut seen = Vec::new();
    for _ in 0..5 {
        value.update(16667);
        seen.push(value.get_current());
    }
    assert_eq!(seen, vec![484204, 932634, 1347932, 1732546, 2088744]);
    assert_eq!(value.get_desired(), 100 * ONE);
}

#[test]
fn update_moves_by_the_minimum_rate_where_decay_is_slower() {
    let mut value = SmoothedValue::new(0, u32::MAX, 5 * 65536);
    value.move_desired(100 * ONE);
    value.update(1_000_000);
    assert_eq!(value.get_current(), 5 * ONE);
    let mut value = SmoothedValue::new(1_000_000, u32::MAX, 3 * 65536);
    value.move_desired(-1_000_000);
    value.update(500_000);
    assert_eq!(value.get_current(), 1_000_000 - 3 * ONE / 2);
}

#[test]
fn update_snaps_onto_a_near_target() {
    let mut value = SmoothedValue::new(0, u32::MAX, 0);
    value.move_desired(SETTLE_DISTANCE as i64);
    value.update(0);
    assert_eq!(value.get_current(), SETTLE_DISTANCE as i64);
    assert!(value.is_settled());
    let mut value = SmoothedValue::new(0, u32::MAX, 0);
    value.move_desired(-(SETTLE_DISTANCE as i64) - 1);
    value.update(0);
    assert_eq!(value.get_current(), 0);
}

#[test]
fn update_without_time_keeps_a_far_value() {
    let mut value = SmoothedValue::new(10, FACTOR, 1 << 40);
    value.move_desired(1 << 30);
    value.update(0);
    assert_eq!(value.get_current(), 10);
}

#[test]
fn update_of_a_settled_value_changes_nothing() {
    let mut value = SmoothedValue::new(-77, FACTOR, 1000);
    let before = value;
    value.update(123456);
    assert_eq!(value, before);
}

#[test]
fn update_never_passes_the_target() {
    let steps: [u64; 8] = [1, 7, 16667, 1_000_000, u64::MAX, 3, 250_000, 1 << 40];
    for &target in &[5_000_000i64, -5_000_000, i64::MAX, i64::MIN] {
        for &rate in &[0u64, 1, 5 * 65536, u64::MAX] {
            for &factor in &[0u32, 1 << 31, FACTOR, u32::MAX] {
                let mut value = SmoothedValue::new(0, factor, rate);
                value.move_desired(target);
                let mut gap = (value.get_desired() as i128 - value.get_current() as i128).abs();
                for &step in &steps {
                    let before = value.get_current();
                    value.update(step);
                    let now = value.get_current();
                    let low = before.min(value.get_desired());
                    let high = before.max(value.get_desired());
                    assert!(low <= now && now <= high);
                    let left = (value.get_desired() as i128 - now as i128).abs();
                    assert!(left < gap || gap == 0);
                    gap = left;
                }
            }
        }
    }
}

#[test]
fn update_with_the_longest_step_reaches_a_target_at_the_far_end() {
    let mut value = SmoothedValue::new(i64::MIN, 0, 0);
    value.move_desired(i64::MAX);
    value.move_desired(i64::MAX);
    value.move_desired(1);
    assert_eq!(value.get_desired(), i64::MAX);
    value.update(1);
    assert_eq!(value.get_current(), i64::MAX);
}

#[test]
fn updates_reach_the_target() {
    let mut value = SmoothedValue::new(400 * ONE, FACTOR, 5 * 65536);
    value.move_desired(-250 * ONE);
    let mut frames = 0;
    while !value.is_settled() {
        value.update(16667);
        frames += 1;
        assert!(frames <= 84);
    }
    assert_eq!(frames, 84);
    assert_eq!(value.get_current(), 150 * ONE);
}

#[test]
fn a_moved_target_is_followed_in_turn() {
    let mut value = SmoothedValue::new(0, FACTOR, 65536);
    value.move_desired(10 * ONE);
    for _ in 0..10 {
        value.update(16667);
    }
    let halfway = value.get_current();
    assert!(0 < halfway && halfway < 10 * ONE);
    value.move_desired(-20 * ONE);
    let mut last = halfway;
    while !value.is_settled() {
        value.update(16667);
        assert!(value.get_current() < last);
        assert!(value.get_current() >= -10 * ONE);
        last = value.get_current();
    }
    assert_eq!(last, -10 * ONE);
}

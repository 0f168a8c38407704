use follow_camera::fixed::{floor_sqrt, saturate, scale, ONE};

#[test]
fn one_is_two_to_the_sixteenth() {
    assert_eq!(ONE, 1 << 16);
}

#[test]
fn saturate_keeps_what_fits() {
    assert_eq!(saturate(0), 0);
    assert_eq!(saturate(-12345), -12345);
    assert_eq!(saturate(i64::MAX as i128), i64::MAX);
    assert_eq!(saturate(i64::MIN as i128), i64::MIN);
}

#[test]
fn saturate_stops_at_the_ends() {
    assert_eq!(saturate(i64::MAX as i128 + 1), i64::MAX);
    assert_eq!(saturate(i64::MIN as i128 - 1), i64::MIN);
    assert_eq!(saturate(i128::MAX), i64::MAX);
    assert_eq!(saturate(i128::MIN), i64::MIN);
}

#[test]
fn scale_multiplies() {
    assert_eq!(scale(3 * ONE, 2 * ONE), 6 * ONE);
    assert_eq!(scale(ONE / 2, ONE / 2), ONE / 4);
    assert_eq!(scale(-3 * ONE, 2 * ONE), -6 * ONE);
    assert_eq!(scale(-3 * ONE, -2 * ONE), 6 * ONE);
    assert_eq!(scale(0, i64::MAX), 0);
    assert_eq!(scale(12345, ONE), 12345);
}

#[test]
fn scale_rounds_down() {
    assert_eq!(scale(1, 1), 0);
    assert_eq!(scale(-1, 1), -1);
    assert_eq!(scale(1, -1), -1);
    assert_eq!(scale(-1, -1), 0);
    assert_eq!(scale(100, 1311), 2);
    assert_eq!(scale(-100, 1311), -3);
    assert_eq!(scale(-65536, 1), -1);
    assert_eq!(scale(-65537, 1), -2);
}

#[test]
fn scale_stops_at_the_ends() {
    assert_eq!(scale(i64::MAX, 2 * ONE), i64::MAX);
    assert_eq!(scale(i64::MIN, 2 * ONE), i64::MIN);
    assert_eq!(scale(i64::MIN, i64::MIN), i64::MAX);
    assert_eq!(scale(i64::MIN, i64::MAX), i64::MIN);
    assert_eq!(scale(i64::MIN, ONE), i64::MIN);
    assert_eq!(scale(i64::MAX, ONE), i64::MAX);
}

#[test]
fn floor_sqrt_of_small_numbers() {
    let roots: [u64; 17] = [0, 1, 1, 1, 2, 2, 2, 2, 2, 3, 3, 3, 3, 3, 3, 3, 4];
    for n in 0..17 {
        assert_eq!(floor_sqrt(n as u128), roots[n]);
    }
}

#[test]
fn floor_sqrt_around_squares() {
    for &root in &[5u64, 65536, 4294967295, 4294967296, 37072760, u64::MAX] {
        let square = root as u128 * root as u128;
        assert_eq!(floor_sqrt(square), root);
        assert_eq!(floor_sqrt(square - 1), root - 1);
        if root < u64::MAX {
            assert_eq!(floor_sqrt(square + 1), root);
            assert_eq!(floor_sqrt(square + 2 * root as u128), root);
            assert_eq!(floor_sqrt(square + 2 * root as u128 + 1), root + 1);
        }
    }
}

#[test]
fn floor_sqrt_of_the_largest_number() {
    assert_eq!(floor_sqrt(u128::MAX), u64::MAX);
}

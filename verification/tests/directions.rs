use follow_camera::direction::{direction, DIRECTIONS};

#[test]
fn there_are_eight_directions() {
    assert_eq!(DIRECTIONS, 8);
}

#[test]
fn each_axis_lies_in_its_own_sector() {
    assert_eq!(direction(0, 1), 0);
    assert_eq!(direction(-1, 1), 1);
    assert_eq!(direction(-1, 0), 2);
    assert_eq!(direction(-1, -1), 3);
    assert_eq!(direction(0, -1), 4);
    assert_eq!(direction(1, -1), 5);
    assert_eq!(direction(1, 0), 6);
    assert_eq!(direction(1, 1), 7);
}

#[test]
fn the_vector_without_direction_gets_sector_zero() {
    assert_eq!(direction(0, 0), 0);
}

#[test]
fn sectors_meet_a_sixteenth_of_a_turn_off_the_axes() {
    assert_eq!(direction(414, 1000), 0);
    assert_eq!(direction(415, 1000), 7);
    assert_eq!(direction(-414, 1000), 0);
    assert_eq!(direction(-415, 1000), 1);
    assert_eq!(direction(1000, 414), 6);
    assert_eq!(direction(1000, 415), 7);
    assert_eq!(direction(1000, -414), 6);
    assert_eq!(direction(1000, -415), 5);
    assert_eq!(direction(-1000, 414), 2);
    assert_eq!(direction(-1000, 415), 1);
    assert_eq!(direction(-1000, -414), 2);
    assert_eq!(direction(-1000, -415), 3);
    assert_eq!(direction(414, -1000), 4);
    assert_eq!(direction(415, -1000), 5);
    assert_eq!(direction(-414, -1000), 4);
    assert_eq!(direction(-415, -1000), 3);
}

#[test]
fn sectors_meet_at_the_tangent_of_a_sixteenth_of_a_turn() {
    // tan(pi / 8) = sqrt(2) - 1 = 0.41421356237...
    assert_eq!(direction(41421356237, 100000000000), 0);
    assert_eq!(direction(41421356238, 100000000000), 7);
}

#[test]
fn opposite_directions_lie_in_opposite_sectors() {
    let vectors: [(i64, i64); 9] = [
        (0, 1),
        (3, 7),
        (-3, 7),
        (7, 3),
        (-7, -3),
        (414, 1000),
        (415, -1000),
        (i64::MAX, 1),
        (-12345, i64::MAX),
    ];
    for &(x, z) in &vectors {
        assert_eq!(direction(-x, -z), (direction(x, z) + 4) % 8);
    }
}

#[test]
fn an_eighth_of_a_turn_leads_to_the_next_sector() {
    let vectors: [(i64, i64); 8] = [
        (0, 1),
        (3, 7),
        (-3, 7),
        (7, 3),
        (-7, -3),
        (414, 1000),
        (415, -1000),
        (-99999, 41421),
    ];
    for &(x, z) in &vectors {
        let mut turned = (x, z);
        let mut sector = direction(x, z);
        for _ in 0..8 {
            turned = (turned.0 - turned.1, turned.0 + turned.1);
            sector = (sector + 1) % 8;
            assert_eq!(direction(turned.0, turned.1), sector);
        }
        assert_eq!(turned, (16 * x, 16 * z));
    }
}

#[test]
fn the_length_of_a_vector_does_not_matter() {
    let vectors: [(i64, i64); 6] = [(0, 1), (3, 7), (-3, 7), (7, 3), (414, 1000), (415, -1000)];
    for &(x, z) in &vectors {
        for &factor in &[2i64, 3, 1000, 1 << 40] {
            assert_eq!(direction(factor * x, factor * z), direction(x, z));
        }
    }
}

#[test]
fn the_longest_vectors_have_a_direction() {
    assert_eq!(direction(i64::MIN, i64::MIN), 3);
    assert_eq!(direction(i64::MAX, i64::MIN), 5);
    assert_eq!(direction(i64::MIN, i64::MAX), 1);
    assert_eq!(direction(i64::MAX, i64::MAX), 7);
    assert_eq!(direction(i64::MIN, 0), 2);
    assert_eq!(direction(0, i64::MIN), 4);
    assert_eq!(direction(i64::MIN, 1), 2);
    assert_eq!(direction(1, i64::MAX), 0);
}

#[test]
fn every_direction_is_below_the_number_of_sectors() {
    for x in -20i64..=20 {
        for z in -20i64..=20 {
            assert!(direction(x, z) < DIRECTIONS);
        }
    }
}

use lunar_lander::touchdown::{feet_columns_at, is_stable_plane};

#[test]
fn feet_of_a_lander_at_the_origin() {
    assert_eq!(feet_columns_at(0), (165, 170));
}

#[test]
fn feet_columns_round_towards_zero() {
    assert_eq!(feet_columns_at(1_234), (166, 171));
    assert_eq!(feet_columns_at(-499), (165, 170));
}

#[test]
fn feet_left_of_the_map_stand_on_column_zero() {
    assert_eq!(feet_columns_at(-170_000), (0, 0));
    assert_eq!(feet_columns_at(-166_000), (0, 4));
    assert_eq!(feet_columns_at(i64::MIN), (0, 0));
}

#[test]
fn level_ground_is_stable() {
    assert!(is_stable_plane(10, 10));
    assert!(is_stable_plane(-7_000, -7_000));
}

#[test]
fn right_foot_may_be_at_most_three_units_higher() {
    assert!(is_stable_plane(10, 3_010));
    assert!(!is_stable_plane(10, 3_011));
}

#[test]
fn right_foot_lower_is_stable() {
    assert!(is_stable_plane(5_000, 0));
    assert!(is_stable_plane(i64::MAX, i64::MIN));
    assert!(!is_stable_plane(i64::MIN, i64::MAX));
}

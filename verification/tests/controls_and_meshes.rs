use lunar_lander::mesh::{outline_indices, quad_strip_indices};
use lunar_lander::rocket::{
    choose_control, Control, LunarModuleMovementPlugin, PilotKeys, DRIFT_SPREAD, MIN_DRIFT,
};
use lunar_lander::terrain::{HeightmapPlugin, HEIGHTMAP_SIZE};

fn keys(l: bool, r: bool, w: bool, a: bool, d: bool) -> PilotKeys {
    PilotKeys { rotate_left: l, rotate_right: r, thrust: w, slide_left: a, slide_right: d }
}

#[test]
fn no_key_coasts() {
    assert_eq!(choose_control(keys(false, false, false, false, false)), Control::Coast);
}

#[test]
fn rotation_left_wins_over_everything() {
    assert_eq!(choose_control(keys(true, true, true, true, true)), Control::RotateLeft);
}

#[test]
fn keys_act_in_priority_order() {
    assert_eq!(choose_control(keys(false, true, true, true, true)), Control::RotateRight);
    assert_eq!(choose_control(keys(false, false, true, true, true)), Control::Thrust);
    assert_eq!(choose_control(keys(false, false, false, true, true)), Control::SlideLeft);
    assert_eq!(choose_control(keys(false, false, false, false, true)), Control::SlideRight);
}

#[test]
fn initial_drift_is_sideways_within_range() {
    let mut drifts = Vec::new();
    for _ in 0..100 {
        let m = LunarModuleMovementPlugin.initial_movement();
        assert!(MIN_DRIFT <= m.velocity.x && m.velocity.x <= MIN_DRIFT + DRIFT_SPREAD);
        assert_eq!((m.velocity.y, m.velocity.z), (0, 0));
        drifts.push(m.velocity.x);
    }
    assert!(drifts.iter().any(|&x| x != drifts[0]));
}

#[test]
fn heightmap_has_fifty_thousand_points() {
    assert_eq!(HeightmapPlugin.heightmap_size(), HEIGHTMAP_SIZE);
    assert_eq!(HEIGHTMAP_SIZE, 50000);
}

#[test]
fn outline_counts_up_for_points_with_a_successor() {
    assert_eq!(outline_indices(5, 3), vec![0, 1, 2, 3]);
    assert_eq!(outline_indices(2, 10), vec![0, 1, 2, 3]);
    assert!(outline_indices(0, 10).is_empty());
    assert!(outline_indices(10, 0).is_empty());
    assert!(outline_indices(10, 1).is_empty());
}

#[test]
fn outline_of_the_game_terrain() {
    let indices = outline_indices(50000, 19990);
    assert_eq!(indices.len(), 2 * 19989);
    assert_eq!(indices[2 * 19989 - 1], 2 * 19989 - 1);
}

#[test]
fn quad_strip_draws_two_triangles_per_quad() {
    assert_eq!(quad_strip_indices(2), vec![0, 1, 2, 2, 1, 3, 4, 5, 6, 6, 5, 7]);
    assert!(quad_strip_indices(0).is_empty());
}

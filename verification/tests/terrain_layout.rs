use lunar_lander::midpoint::{midpoint_schedule, MidpointStep};
use lunar_lander::valleys::flatten_valleys;

fn step(left: usize, center: usize, right: usize, depth: usize) -> MidpointStep {
    MidpointStep { left, center, right, depth }
}

#[test]
fn single_point_terrain_displaces_its_only_point() {
    assert_eq!(midpoint_schedule(1), vec![step(0, 0, 0, 0)]);
}

#[test]
fn two_point_terrain_displaces_its_right_end() {
    assert_eq!(midpoint_schedule(2), vec![step(0, 1, 1, 0)]);
}

#[test]
fn four_point_terrain_overwrites_its_right_end() {
    assert_eq!(
        midpoint_schedule(4),
        vec![step(0, 2, 3, 0), step(0, 1, 2, 1), step(2, 3, 3, 1)]
    );
}

#[test]
fn five_point_terrain_schedule() {
    assert_eq!(
        midpoint_schedule(5),
        vec![step(0, 2, 4, 0), step(0, 1, 2, 1), step(2, 3, 4, 1)]
    );
}

#[test]
fn eight_point_terrain_is_laid_out_breadth_first() {
    assert_eq!(
        midpoint_schedule(8),
        vec![
            step(0, 4, 7, 0),
            step(0, 2, 4, 1),
            step(4, 6, 7, 1),
            step(0, 1, 2, 2),
            step(2, 3, 4, 2),
            step(4, 5, 6, 2),
            step(6, 7, 7, 2),
        ]
    );
}

#[test]
fn large_terrain_schedule_covers_every_inner_point_breadth_first() {
    let width = 1000;
    let steps = midpoint_schedule(width);
    let mut displaced = vec![false; width];
    for (k, s) in steps.iter().enumerate() {
        assert!(s.left <= s.center && s.center <= s.right && s.right < width);
        assert_eq!(s.center, (s.left + s.right + 1) / 2);
        if k > 0 {
            assert!(steps[k - 1].depth <= s.depth);
        }
        displaced[s.center] = true;
    }
    for p in 1..width - 1 {
        assert!(displaced[p], "point {} not displaced", p);
    }
}

#[test]
fn valley_is_levelled_with_two_neighbours_on_each_side() {
    let profile = vec![9, 8, 7, 5, 6, 7, 8, 9, 10];
    assert_eq!(
        flatten_valleys(profile),
        Some(vec![9, 5, 5, 5, 5, 5, 8, 9, 10])
    );
}

#[test]
fn valley_at_second_point_has_no_room() {
    assert_eq!(flatten_valleys(vec![5, 4, 6, 7, 8, 9]), None);
}

#[test]
fn valley_at_last_point_but_one_has_no_room() {
    assert_eq!(flatten_valleys(vec![1, 2, 3, 4, 2, 5]), None);
}

#[test]
fn empty_profile_is_refused() {
    assert_eq!(flatten_valleys(Vec::new()), None);
}

#[test]
fn short_profiles_have_no_inner_valley() {
    assert_eq!(flatten_valleys(vec![3]), Some(vec![3]));
    assert_eq!(flatten_valleys(vec![3, 1]), Some(vec![3, 1]));
}

#[test]
fn flattened_profile_only_holds_original_heights() {
    let profile: Vec<i64> = (0..200).map(|i: i64| (i * 7919) % 101 + if i < 3 || i > 196 { 1000 } else { 0 }).collect();
    if let Some(flat) = flatten_valleys(profile.clone()) {
        assert_eq!(flat.len(), profile.len());
        for h in &flat {
            assert!(profile.contains(h));
        }
    }
}

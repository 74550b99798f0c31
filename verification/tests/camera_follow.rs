use lunar_lander::camera::{follow_rocket_system, CameraPosition};

fn cam(x: i64, y: i64, z: i64) -> CameraPosition {
    CameraPosition { x, y, z }
}

#[test]
fn low_rocket_zooms_in_by_five_units() {
    let mut cams = vec![cam(0, 200_000, 280_000)];
    follow_rocket_system(&vec![10_000], &mut cams);
    assert_eq!(cams, vec![cam(0, 200_000, 275_000)]);
}

#[test]
fn zoom_in_stops_at_closest_depth() {
    let mut cams = vec![cam(7, 3_000, 252_000)];
    follow_rocket_system(&vec![-5_000], &mut cams);
    assert_eq!(cams, vec![cam(7, 3_000, 250_000)]);
}

#[test]
fn high_rocket_zooms_out_and_climbs() {
    let mut cams = vec![cam(4, 50_000, 300_000)];
    follow_rocket_system(&vec![30_000], &mut cams);
    assert_eq!(cams, vec![cam(4, 51_000, 301_000)]);
}

#[test]
fn zoom_out_stops_at_farthest_depth_and_highest_camera() {
    let mut cams = vec![cam(0, 200_000, 499_500)];
    follow_rocket_system(&vec![30_000], &mut cams);
    assert_eq!(cams, vec![cam(0, 100_000, 500_000)]);
}

#[test]
fn rocket_at_threshold_leaves_camera_alone() {
    let mut cams = vec![cam(1, 2, 3)];
    follow_rocket_system(&vec![20_000], &mut cams);
    assert_eq!(cams, vec![cam(1, 2, 3)]);
}

#[test]
fn every_camera_follows_every_rocket_in_turn() {
    let mut cams = vec![cam(0, 0, 300_000), cam(9, 99_500, 260_000)];
    follow_rocket_system(&vec![10_000, 30_000], &mut cams);
    assert_eq!(cams, vec![cam(0, 1_000, 296_000), cam(9, 100_000, 256_000)]);
}

#[test]
fn no_rocket_no_camera_no_change() {
    let mut cams: Vec<CameraPosition> = Vec::new();
    follow_rocket_system(&vec![1, 2, 3], &mut cams);
    assert!(cams.is_empty());
    let mut cams = vec![cam(5, 5, 5)];
    follow_rocket_system(&Vec::new(), &mut cams);
    assert_eq!(cams, vec![cam(5, 5, 5)]);
}

#[test]
fn camera_in_band_stays_in_band() {
    let mut cams = vec![cam(3, 90_000, 400_000)];
    let heights: Vec<i64> = (0..400).map(|i| if i % 3 == 0 { 0 } else { 50_000 }).collect();
    follow_rocket_system(&heights, &mut cams);
    let c = cams[0];
    assert_eq!(c.x, 3);
    assert!(250_000 <= c.z && c.z <= 500_000);
    assert!(c.y <= 100_000);
}

#[test]
fn low_rocket_brings_camera_to_closest_depth_and_keeps_it_there() {
    let mut cams = vec![cam(2, 40_000, 280_000)];
    follow_rocket_system(&vec![0; 6], &mut cams);
    assert_eq!(cams, vec![cam(2, 40_000, 250_000)]);
    follow_rocket_system(&vec![19_999; 10], &mut cams);
    assert_eq!(cams, vec![cam(2, 40_000, 250_000)]);
}

#[test]
fn high_rocket_takes_camera_to_farthest_depth_and_highest_height() {
    let mut cams = vec![cam(-3, 200_000, 480_000)];
    follow_rocket_system(&vec![25_000; 20], &mut cams);
    assert_eq!(cams, vec![cam(-3, 100_000, 500_000)]);
    follow_rocket_system(&vec![90_000; 5], &mut cams);
    assert_eq!(cams, vec![cam(-3, 100_000, 500_000)]);
}

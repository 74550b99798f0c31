use lunar_lander::landing::{Landing, LANDING_END, LANDING_START};
use lunar_lander::regions::{RegionSelection, MAX_REGIONS, REGION_STARTS, REGION_WIDTH};

#[test]
fn new_landing_spans_the_fixed_extent() {
    let landing = Landing::new(10000);
    assert_eq!(landing.roughness(), 10000);
    assert_eq!(landing.start(), LANDING_START);
    assert_eq!(landing.end(), LANDING_END);
    assert_eq!((landing.start(), landing.end()), (-800, 800));
}

#[test]
fn regions_become_level_at_their_first_height() {
    let landing = Landing::new(1);
    let heights = vec![1, 2, 3, 4, 5, 6, 7, 8];
    let flat = landing.create_platforms(vec![(1, 3), (5, 6)], heights);
    assert_eq!(flat, vec![1, 2, 2, 2, 5, 6, 6, 8]);
}

#[test]
fn touching_regions_take_the_already_flattened_height() {
    let landing = Landing::new(1);
    let flat = landing.create_platforms(vec![(0, 2), (2, 4)], vec![1, 2, 3, 4, 5]);
    assert_eq!(flat, vec![1, 1, 1, 1, 1]);
}

#[test]
fn empty_region_changes_nothing() {
    let landing = Landing::new(1);
    let flat = landing.create_platforms(vec![(4, 2)], vec![5, 4, 3, 2, 1]);
    assert_eq!(flat, vec![5, 4, 3, 2, 1]);
}

#[test]
fn multiplier_indices_keep_clear_of_both_ends() {
    let landing = Landing::new(1);
    let indices = landing.multiplier_indices(20, 200, 5);
    assert_eq!(indices.len(), 200);
    assert!(indices.iter().all(|&i| (5..15).contains(&i)));
    assert!(indices.iter().any(|&i| i != indices[0]));
    assert!(landing.multiplier_indices(3, 0, 7).is_empty());
}

fn distinct_heights() -> Vec<i64> {
    (0..800).map(|i| i * 3).collect()
}

#[test]
fn selection_takes_regions_that_share_no_height() {
    let mut sel = RegionSelection::new(&distinct_heights());
    assert!(!sel.is_done());
    assert!(sel.offer(0));
    assert!(!sel.offer(5));
    assert!(sel.offer(14));
    assert!(!sel.offer(27));
    assert!(sel.offer(100));
    assert_eq!(sel.regions(), vec![(0, 14), (14, 28), (100, 114)]);
}

#[test]
fn selection_is_done_after_five_regions() {
    let mut sel = RegionSelection::new(&distinct_heights());
    for k in 0..MAX_REGIONS {
        assert!(!sel.is_done());
        assert!(sel.offer(k * REGION_WIDTH * 2));
    }
    assert!(sel.is_done());
    assert_eq!(sel.regions(), vec![(0, 14), (28, 42), (56, 70), (84, 98), (112, 126)]);
}

#[test]
fn equal_heights_far_apart_clash() {
    let mut heights = distinct_heights();
    heights[300] = heights[3];
    let mut sel = RegionSelection::new(&heights);
    assert!(sel.offer(0));
    assert!(!sel.offer(290));
    assert!(sel.offer(301));
    assert_eq!(sel.regions(), vec![(0, 14), (301, 315)]);
}

#[test]
fn random_selection_then_platforms() {
    let heights = distinct_heights();
    let mut sel = RegionSelection::new(&heights);
    while !sel.is_done() {
        let start = sel.offer_random();
        assert!(start < REGION_STARTS);
    }
    let regions = sel.regions();
    assert_eq!(regions.len(), MAX_REGIONS);
    for (k, &(a, b)) in regions.iter().enumerate() {
        assert_eq!(b, a + REGION_WIDTH);
        for &(c, d) in &regions[k + 1..] {
            assert!(b <= c || d <= a);
        }
    }
    let landing = Landing::new(1);
    let flat = landing.create_platforms(regions.clone(), heights);
    let (a, b) = regions[MAX_REGIONS - 1];
    for i in a..=b {
        assert_eq!(flat[i], flat[a]);
    }
}

#[test]
fn platforms_laid_twice_change_nothing_more() {
    let landing = Landing::new(1);
    let regions = vec![(1, 3), (6, 8)];
    let heights = vec![9, 4, 7, 2, 8, 1, 3, 6, 5, 0];
    let once = landing.create_platforms(regions.clone(), heights);
    assert_eq!(once, vec![9, 4, 4, 4, 8, 1, 3, 3, 3, 0]);
    let twice = landing.create_platforms(regions, once.clone());
    assert_eq!(twice, once);
}

#[test]
fn touching_regions_are_level_after_their_first_point() {
    let landing = Landing::new(1);
    let heights = vec![5, 9, 8, 7, 6, 4, 3, 2, 1];
    let flat = landing.create_platforms(vec![(4, 7), (1, 4)], heights);
    // The second region resets point 4, the first point of the first region.
    assert_eq!(flat, vec![5, 9, 9, 9, 9, 6, 6, 6, 1]);
}

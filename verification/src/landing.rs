use vstd::prelude::*;
use crate::random::random_in_range;

verus! {

/// Left end of the landing terrain's horizontal extent.
pub const LANDING_START: i32 = -800;

/// Right end of the landing terrain's horizontal extent.
pub const LANDING_END: i32 = 800;

/// Settings of the landing-terrain generator.
pub struct Landing {
    roughness: i32,
    start: i32,
    end: i32,
}

/// What a `Landing` holds.
pub struct LandingView {
    pub roughness: i32,
    pub start: i32,
    pub end: i32,
}

impl View for Landing {
    type V = LandingView;

    closed spec fn view(&self) -> LandingView {
        LandingView { roughness: self.roughness, start: self.start, end: self.end }
    }
}

/// `heights` with the range `region.0..=region.1` set to the height found at
/// `region.0`; nothing changes where `region.1 < region.0`.
pub open spec fn flatten_region(heights: Seq<i64>, region: (usize, usize)) -> Seq<i64> {
    Seq::new(
        heights.len(),
        |i: int|
            if region.0 <= i <= region.1 {
                heights[region.0 as int]
            } else {
                heights[i]
            },
    )
}

/// `heights` with every region of `regions` flattened, in order.
pub open spec fn flatten_regions(heights: Seq<i64>, regions: Seq<(usize, usize)>) -> Seq<i64>
    decreases regions.len(),
{
    if regions.len() == 0 {
        heights
    } else {
        flatten_region(flatten_regions(heights, regions.drop_last()), regions.last())
    }
}

/// Every region starts inside `0..len`, and a region that is not empty also
/// ends there.
pub open spec fn regions_in_bounds(regions: Seq<(usize, usize)>, len: nat) -> bool {
    forall|k: int|
        0 <= k < regions.len() ==> #[trigger] regions[k].0 < len && (regions[k].0 <= regions[k].1
            ==> regions[k].1 < len)
}

/// No two regions of `regions` have a point in common (each taken with both ends).
pub open spec fn regions_apart(regions: Seq<(usize, usize)>) -> bool {
    forall|k: int, l: int|
        0 <= k < regions.len() && 0 <= l < regions.len() && k != l ==> #[trigger] regions[k].1
            < #[trigger] regions[l].0 || regions[l].1 < regions[k].0
}

/// Point `p` lies in some region of `regions`.
pub open spec fn in_some_region(regions: Seq<(usize, usize)>, p: int) -> bool {
    exists|k: int| 0 <= k < regions.len() && #[trigger] regions[k].0 <= p <= regions[k].1
}

impl Landing {
    /// A generator with the given roughness over the horizontal extent
    /// `LANDING_START..LANDING_END`.
    pub fn new(roughness: i32) -> (landing: Self)
        ensures
            landing@.roughness == roughness,
            landing@.start == LANDING_START,
            landing@.end == LANDING_END,
    {
        Landing { roughness, start: LANDING_START, end: LANDING_END }
    }

    /// The roughness: the size of the random offset of the first midpoint.
    pub fn roughness(&self) -> (r: i32)
        ensures
            r == self@.roughness,
    {
        self.roughness
    }

    /// Left end of the horizontal extent.
    pub fn start(&self) -> (r: i32)
        ensures
            r == self@.start,
    {
        self.start
    }

    /// Right end of the horizontal extent.
    pub fn end(&self) -> (r: i32)
        ensures
            r == self@.end,
    {
        self.end
    }

    /// Picks, at random, the points of a profile of `point_count` points that
    /// receive a height multiplier: `num_multipliers` indices, each drawn
    /// uniformly from `min_index_distance..point_count - min_index_distance` so
    /// that the landing zones near both ends stay untouched.
    pub fn multiplier_indices(
        &self,
        point_count: usize,
        num_multipliers: usize,
        min_index_distance: usize,
    ) -> (indices: Vec<usize>)
        requires
            num_multipliers > 0 ==> 2 * min_index_distance < point_count,
        ensures
            indices@.len() == num_multipliers,
            forall|k: int|
                0 <= k < indices@.len() ==> min_index_distance <= #[trigger] indices@[k]
                    < point_count - min_index_distance,
    {
        let mut indices: Vec<usize> = Vec::new();
        let mut n: usize = 0;
        while n < num_multipliers
            invariant
                n <= num_multipliers,
                num_multipliers > 0 ==> 2 * min_index_distance < point_count,
                indices@.len() == n,
                forall|k: int|
                    0 <= k < indices@.len() ==> min_index_distance <= #[trigger] indices@[k]
                        < point_count - min_index_distance,
            decreases num_multipliers - n,
        {
            let index: usize = random_in_range(min_index_distance, point_count - min_index_distance);
            n = n + 1;
            // Keep the landing zones near both ends untouched.
            if index < min_index_distance || index > point_count - min_index_distance {
                continue;
            }
            indices.push(index);
        }
        indices
    }

    /// Turns regions of a height map into landing platforms: for each region
    /// `(a, b)` in order, every point of `a..=b` takes the height that point `a`
    /// has at that moment. Heights are given by their order keys.
    pub fn create_platforms(
        &self,
        points_to_flatten: Vec<(usize, usize)>,
        height_map: Vec<i64>,
    ) -> (flattened: Vec<i64>)
        requires
            regions_in_bounds(points_to_flatten@, height_map@.len()),
        ensures
            flattened@ == flatten_regions(height_map@, points_to_flatten@),
    {
        let mut height_map = height_map;
        let ghost initial = height_map@;
        let n: usize = points_to_flatten.len();
        let mut k: usize = 0;
        while k < n
            invariant
                n == points_to_flatten@.len(),
                k <= n,
                regions_in_bounds(points_to_flatten@, initial.len()),
                height_map@ == flatten_regions(initial, points_to_flatten@.take(k as int)),
            decreases n - k,
        {
            let (a, b) = points_to_flatten[k];
            assert(points_to_flatten@.take(k + 1).drop_last() =~= points_to_flatten@.take(k as int));
            assert(points_to_flatten@.take(k + 1).last() == points_to_flatten@[k as int]);
            proof {
                lemma_flatten_regions_len(initial, points_to_flatten@.take(k as int));
            }
            let ghost before = height_map@;
            let level: i64 = height_map[a];
            let len: usize = height_map.len();
            let mut i: usize = a;
            while i <= b
                invariant
                    a <= i,
                    a < before.len(),
                    before.len() == len,
                    a <= b ==> b < before.len(),
                    i <= b + 1 || i == a,
                    level == before[a as int],
                    height_map@.len() == before.len(),
                    forall|j: int|
                        0 <= j < before.len() ==> #[trigger] height_map@[j] == (if a <= j < i {
                            level
                        } else {
                            before[j]
                        }),
                decreases b + 1 - i,
            {
                height_map.set(i, level);
                i = i + 1;
            }
            assert(height_map@ =~= flatten_region(before, (a, b)));
            k = k + 1;
        }
        assert(points_to_flatten@.take(n as int) =~= points_to_flatten@);
        height_map
    }
}

/// Flattening regions keeps the number of heights.
pub proof fn lemma_flatten_regions_len(heights: Seq<i64>, regions: Seq<(usize, usize)>)
    ensures
        flatten_regions(heights, regions).len() == heights.len(),
    decreases regions.len(),
{
    if regions.len() > 0 {
        lemma_flatten_regions_len(heights, regions.drop_last());
    }
}

/// Platforms on regions that have no point in common: every region ends up
/// level at the height its first point had, and every point outside all the
/// regions keeps its height.
pub proof fn lemma_platforms_level(heights: Seq<i64>, regions: Seq<(usize, usize)>)
    requires
        regions_in_bounds(regions, heights.len()),
        regions_apart(regions),
    ensures
        flatten_regions(heights, regions).len() == heights.len(),
        forall|k: int, p: int|
            0 <= k < regions.len() && regions[k].0 <= p <= regions[k].1 ==> #[trigger] flatten_regions(
                heights,
                regions,
            )[p] == heights[#[trigger] regions[k].0 as int],
        forall|p: int|
            0 <= p < heights.len() && !in_some_region(regions, p) ==> #[trigger] flatten_regions(
                heights,
                regions,
            )[p] == heights[p],
    decreases regions.len(),
{
    lemma_flatten_regions_len(heights, regions);
    if regions.len() > 0 {
        let init = regions.drop_last();
        let last = regions.last();
        let n = regions.len() - 1;
        assert(regions_in_bounds(init, heights.len())) by {
            assert forall|k: int| 0 <= k < init.len() implies #[trigger] init[k].0 < heights.len()
                && (init[k].0 <= init[k].1 ==> init[k].1 < heights.len()) by {
                assert(init[k] == regions[k]);
            }
        }
        assert(regions_apart(init)) by {
            assert forall|k: int, l: int|
                0 <= k < init.len() && 0 <= l < init.len() && k != l implies #[trigger] init[k].1
                < #[trigger] init[l].0 || init[l].1 < init[k].0 by {
                assert(init[k] == regions[k] && init[l] == regions[l]);
                assert(regions[k].1 < regions[l].0 || regions[l].1 < regions[k].0);
            }
        }
        lemma_platforms_level(heights, init);
        let before = flatten_regions(heights, init);
        let after = flatten_regions(heights, regions);
        assert(after == flatten_region(before, last));
        assert(regions[n] == last);
        assert forall|k: int, p: int|
            0 <= k < regions.len() && regions[k].0 <= p <= regions[k].1 implies #[trigger] after[p]
            == heights[#[trigger] regions[k].0 as int] by {
            if k == n {
                // The first point of the last region lies in no earlier region.
                assert(!in_some_region(init, last.0 as int)) by {
                    if in_some_region(init, last.0 as int) {
                        let l = choose|l: int|
                            0 <= l < init.len() && #[trigger] init[l].0 <= last.0 <= init[l].1;
                        assert(init[l] == regions[l]);
                        assert(regions[l].1 < regions[n].0 || regions[n].1 < regions[l].0);
                    }
                }
            } else {
                assert(init[k] == regions[k]);
                assert(regions[k].1 < regions[n].0 || regions[n].1 < regions[k].0);
                assert(before[p] == heights[init[k].0 as int]);
            }
        }
        assert forall|p: int| 0 <= p < heights.len() && !in_some_region(regions, p) implies #[trigger] after[p]
            == heights[p] by {
            if in_some_region(init, p) {
                let l = choose|l: int| 0 <= l < init.len() && #[trigger] init[l].0 <= p <= init[l].1;
                assert(init[l] == regions[l]);
                assert(regions[l].0 <= p <= regions[l].1);
            }
            if last.0 <= p <= last.1 {
                assert(regions[n].0 <= p <= regions[n].1);
            }
        }
    }
}

/// Laying platforms twice on regions that have no point in common changes
/// nothing the second time.
pub proof fn lemma_platforms_idempotent(heights: Seq<i64>, regions: Seq<(usize, usize)>)
    requires
        regions_in_bounds(regions, heights.len()),
        regions_apart(regions),
    ensures
        flatten_regions(flatten_regions(heights, regions), regions) == flatten_regions(
            heights,
            regions,
        ),
{
    let f = flatten_regions(heights, regions);
    lemma_platforms_level(heights, regions);
    lemma_platforms_level(f, regions);
    let g = flatten_regions(f, regions);
    assert forall|p: int| 0 <= p < f.len() implies g[p] == f[p] by {
        if in_some_region(regions, p) {
            let k = choose|k: int| 0 <= k < regions.len() && #[trigger] regions[k].0 <= p <= regions[k].1;
            assert(g[p] == f[regions[k].0 as int]);
            assert(f[p] == heights[regions[k].0 as int]);
            assert(f[regions[k].0 as int] == heights[regions[k].0 as int]);
        }
    }
    assert(g =~= f);
}

/// Every region is non-empty, and no two regions share a point of their
/// half-open ranges `a..b` (they may touch: one may start where another ends).
pub open spec fn regions_disjoint(regions: Seq<(usize, usize)>) -> bool {
    &&& forall|k: int| 0 <= k < regions.len() ==> #[trigger] regions[k].0 < regions[k].1
    &&& forall|k: int, l: int|
        0 <= k < regions.len() && 0 <= l < regions.len() && k != l ==> #[trigger] regions[k].1
            <= #[trigger] regions[l].0 || regions[l].1 <= regions[k].0
}

/// Platforms on regions whose half-open ranges are disjoint (as the region
/// selection gives them): every point `a + 1..=b` of a region `(a, b)` ends up at
/// one height, and every point outside all regions (each taken with both ends)
/// keeps its height. The first point `a` of a region may end up at the height of
/// a region laid later that ends there.
pub proof fn lemma_platforms_level_on_disjoint_regions(
    heights: Seq<i64>,
    regions: Seq<(usize, usize)>,
)
    requires
        regions_in_bounds(regions, heights.len()),
        regions_disjoint(regions),
    ensures
        flatten_regions(heights, regions).len() == heights.len(),
        forall|k: int, p: int|
            #![trigger regions[k], flatten_regions(heights, regions)[p]]
            0 <= k < regions.len() && regions[k].0 < p <= regions[k].1 ==> flatten_regions(
                heights,
                regions,
            )[p] == flatten_regions(heights, regions)[regions[k].1 as int],
        forall|p: int|
            0 <= p < heights.len() && !in_some_region(regions, p) ==> #[trigger] flatten_regions(
                heights,
                regions,
            )[p] == heights[p],
    decreases regions.len(),
{
    lemma_flatten_regions_len(heights, regions);
    if regions.len() > 0 {
        let init = regions.drop_last();
        let last = regions.last();
        let n = regions.len() - 1;
        assert(regions[n] == last);
        assert(regions_in_bounds(init, heights.len())) by {
            assert forall|k: int| 0 <= k < init.len() implies #[trigger] init[k].0 < heights.len()
                && (init[k].0 <= init[k].1 ==> init[k].1 < heights.len()) by {
                assert(init[k] == regions[k]);
            }
        }
        assert(regions_disjoint(init)) by {
            assert forall|k: int| 0 <= k < init.len() implies #[trigger] init[k].0 < init[k].1 by {
                assert(init[k] == regions[k]);
            }
            assert forall|k: int, l: int|
                0 <= k < init.len() && 0 <= l < init.len() && k != l implies #[trigger] init[k].1
                <= #[trigger] init[l].0 || init[l].1 <= init[k].0 by {
                assert(init[k] == regions[k] && init[l] == regions[l]);
                assert(regions[k].1 <= regions[l].0 || regions[l].1 <= regions[k].0);
            }
        }
        lemma_platforms_level_on_disjoint_regions(heights, init);
        lemma_flatten_regions_len(heights, init);
        let before = flatten_regions(heights, init);
        let after = flatten_regions(heights, regions);
        assert(after == flatten_region(before, last));
        assert(last.0 < last.1);
        assert forall|k: int, p: int|
            #![trigger regions[k], after[p]]
            0 <= k < regions.len() && regions[k].0 < p <= regions[k].1 implies after[p]
            == after[regions[k].1 as int] by {
            if k < n {
                assert(init[k] == regions[k]);
                assert(regions[k].1 <= regions[n].0 || regions[n].1 <= regions[k].0);
                // Inside `a + 1..=b` of an earlier region the last region changes
                // nothing: it can only start at `b`, where it keeps the height.
                assert(after[p] == before[p]);
                assert(after[regions[k].1 as int] == before[regions[k].1 as int]);
                assert(before[p] == before[init[k].1 as int]);
            }
        }
        assert forall|p: int| 0 <= p < heights.len() && !in_some_region(regions, p) implies #[trigger] after[p]
            == heights[p] by {
            if in_some_region(init, p) {
                let l = choose|l: int| 0 <= l < init.len() && #[trigger] init[l].0 <= p <= init[l].1;
                assert(init[l] == regions[l]);
                assert(regions[l].0 <= p <= regions[l].1);
            }
            if last.0 <= p <= last.1 {
                assert(regions[n].0 <= p <= regions[n].1);
            }
        }
    }
}

} // verus!

use vstd::prelude::*;
use crate::random::random_in_range;
use crate::landing::{regions_disjoint, regions_in_bounds};

verus! {

/// Number of leading heights among which landing regions are chosen.
pub const SEARCH_WINDOW: usize = 700;

/// Number of heights in one landing region (2% of the search window).
pub const REGION_WIDTH: usize = 14;

/// Number of heights that the regions cover together once the selection is
/// complete (10% of the search window).
pub const TARGET_COVERAGE: usize = 70;

/// Number of possible region starts: `0..SEARCH_WINDOW - REGION_WIDTH + 1`.
pub const REGION_STARTS: usize = 687;

/// The most regions a selection holds: `TARGET_COVERAGE / REGION_WIDTH`.
pub const MAX_REGIONS: usize = 5;

/// Landing regions being chosen among the first heights of a terrain.
///
/// Heights are given by their order keys. A region `(a, a + REGION_WIDTH)` is
/// the half-open range of window positions `a..a + REGION_WIDTH`.
pub struct RegionSelection {
    window: Vec<i64>,
    regions: Vec<(usize, usize)>,
    seen: Vec<i64>,
    sample_size: usize,
}

/// What a `RegionSelection` holds: the search window and the regions taken so far.
pub struct SelectionView {
    pub window: Seq<i64>,
    pub regions: Seq<(usize, usize)>,
}

impl View for RegionSelection {
    type V = SelectionView;

    closed spec fn view(&self) -> SelectionView {
        SelectionView { window: self.window@, regions: self.regions@ }
    }
}

/// The heights of region `r` of `window`.
pub open spec fn region_heights(window: Seq<i64>, r: (usize, usize)) -> Seq<i64> {
    window.subrange(r.0 as int, r.1 as int)
}

/// The heights of all the regions, region after region.
pub open spec fn seen_heights(window: Seq<i64>, regions: Seq<(usize, usize)>) -> Seq<i64>
    decreases regions.len(),
{
    if regions.len() == 0 {
        seq![]
    } else {
        seen_heights(window, regions.drop_last()) + region_heights(window, regions.last())
    }
}

/// A region of `REGION_WIDTH` heights starting at `start` would share a height
/// with a region already taken.
pub open spec fn clashes(window: Seq<i64>, regions: Seq<(usize, usize)>, start: int) -> bool {
    exists|p: int|
        start <= p < start + REGION_WIDTH && seen_heights(window, regions).contains(
            #[trigger] window[p],
        )
}

/// The selection after the region starting at `start` was offered: it is taken
/// unless it clashes with the regions taken before.
pub open spec fn after_offer(s: SelectionView, start: int) -> SelectionView {
    if clashes(s.window, s.regions, start) {
        s
    } else {
        SelectionView {
            window: s.window,
            regions: s.regions.push((start as usize, (start + REGION_WIDTH) as usize)),
        }
    }
}

/// The regions cover the target number of heights.
pub open spec fn selection_done(s: SelectionView) -> bool {
    REGION_WIDTH * s.regions.len() >= TARGET_COVERAGE
}

/// No height occurs in two different regions.
pub open spec fn regions_share_no_height(window: Seq<i64>, regions: Seq<(usize, usize)>) -> bool {
    forall|k: int, l: int, p: int, q: int|
        #![trigger regions[k], regions[l], window[p], window[q]]
        0 <= k < l < regions.len() && regions[k].0 <= p < regions[k].1 && regions[l].0 <= q
            < regions[l].1 ==> window[p] != window[q]
}

/// A selection as offering regions builds it: a window of `SEARCH_WINDOW`
/// heights, at most `MAX_REGIONS` regions, each `REGION_WIDTH` wide inside the
/// window, no two of them sharing a height.
pub open spec fn selection_valid(s: SelectionView) -> bool {
    &&& s.window.len() == SEARCH_WINDOW
    &&& s.regions.len() <= MAX_REGIONS
    &&& forall|k: int|
        0 <= k < s.regions.len() ==> #[trigger] s.regions[k].0 < REGION_STARTS && s.regions[k].1
            == s.regions[k].0 + REGION_WIDTH
    &&& regions_share_no_height(s.window, s.regions)
}

/// Every height of every region is among the seen heights.
proof fn lemma_seen_heights_hold_regions(window: Seq<i64>, regions: Seq<(usize, usize)>)
    requires
        forall|k: int|
            0 <= k < regions.len() ==> #[trigger] regions[k].0 <= regions[k].1 <= window.len(),
    ensures
        forall|k: int, p: int|
            #![trigger regions[k], window[p]]
            0 <= k < regions.len() && regions[k].0 <= p < regions[k].1 ==> seen_heights(
                window,
                regions,
            ).contains(window[p]),
    decreases regions.len(),
{
    if regions.len() > 0 {
        let init = regions.drop_last();
        lemma_seen_heights_hold_regions(window, init);
        let last = regions.last();
        let seen = seen_heights(window, regions);
        let before = seen_heights(window, init);
        let here = region_heights(window, last);
        assert(seen == before + here);
        assert forall|k: int, p: int|
            #![trigger regions[k], window[p]]
            0 <= k < regions.len() && regions[k].0 <= p < regions[k].1 implies seen.contains(
            window[p],
        ) by {
            if k < regions.len() - 1 {
                assert(init[k] == regions[k]);
                assert(before.contains(window[p]));
                let i = choose|i: int| 0 <= i < before.len() && before[i] == window[p];
                assert(seen[i] == before[i]);
            } else {
                let i = p - last.0;
                assert(here[i] == window[p]);
                assert(seen[before.len() + i] == here[i]);
            }
        }
    }
}

/// Whether `values` holds `v`.
fn holds_height(values: &Vec<i64>, v: i64) -> (r: bool)
    ensures
        r == values@.contains(v),
{
    let mut i: usize = 0;
    while i < values.len()
        invariant
            i <= values.len(),
            forall|j: int| 0 <= j < i ==> values@[j] != v,
        decreases values.len() - i,
    {
        if values[i] == v {
            assert(values@[i as int] == v);
            return true;
        }
        i = i + 1;
    }
    false
}

impl RegionSelection {
    /// The selection holds its view together with the seen heights and their count.
    pub closed spec fn wf(&self) -> bool {
        &&& selection_valid(self@)
        &&& self.seen@ == seen_heights(self.window@, self.regions@)
        &&& self.sample_size == REGION_WIDTH * self.regions@.len()
    }

    /// Starts a selection among the first `SEARCH_WINDOW` heights of `heights`,
    /// with no region taken.
    pub fn new(heights: &Vec<i64>) -> (s: Self)
        requires
            heights@.len() >= SEARCH_WINDOW,
        ensures
            s.wf(),
            selection_valid(s@),
            s@.window == heights@.subrange(0, SEARCH_WINDOW as int),
            s@.regions == Seq::<(usize, usize)>::empty(),
    {
        let mut window: Vec<i64> = Vec::new();
        let mut i: usize = 0;
        while i < SEARCH_WINDOW
            invariant
                i <= SEARCH_WINDOW <= heights@.len(),
                window@ == heights@.subrange(0, i as int),
            decreases SEARCH_WINDOW - i,
        {
            window.push(heights[i]);
            i = i + 1;
            assert(window@ =~= heights@.subrange(0, i as int));
        }
        let s = RegionSelection { window, regions: Vec::new(), seen: Vec::new(), sample_size: 0 };
        assert(s.seen@ =~= seen_heights(s.window@, s.regions@));
        s
    }

    /// Whether the regions cover the target number of heights.
    pub fn is_done(&self) -> (done: bool)
        requires
            self.wf(),
        ensures
            done == selection_done(self@),
            done == (self@.regions.len() == MAX_REGIONS),
    {
        self.sample_size >= TARGET_COVERAGE
    }

    /// The regions taken so far, in the order in which they were taken.
    pub fn regions(&self) -> (r: Vec<(usize, usize)>)
        ensures
            r@ == self@.regions,
    {
        let mut r: Vec<(usize, usize)> = Vec::new();
        let mut k: usize = 0;
        while k < self.regions.len()
            invariant
                k <= self.regions@.len(),
                r@ == self.regions@.subrange(0, k as int),
            decreases self.regions@.len() - k,
        {
            r.push(self.regions[k]);
            k = k + 1;
            assert(r@ =~= self.regions@.subrange(0, k as int));
        }
        assert(r@ =~= self.regions@);
        r
    }

    /// Offers the region of `REGION_WIDTH` heights starting at `start`: it is
    /// taken when none of its heights occurs in a region taken before.
    pub fn offer(&mut self, start: usize) -> (taken: bool)
        requires
            old(self).wf(),
            !selection_done(old(self)@),
            start < REGION_STARTS,
        ensures
            final(self).wf(),
            selection_valid(final(self)@),
            final(self)@ == after_offer(old(self)@, start as int),
            taken == !clashes(old(self)@.window, old(self)@.regions, start as int),
            taken == (final(self)@.regions.len() == old(self)@.regions.len() + 1),
    {
        let ghost window = self.window@;
        let ghost regions = self.regions@;
        let end: usize = start + REGION_WIDTH;
        let mut p: usize = start;
        while p < end
            invariant
                start <= p <= end,
                end == start + REGION_WIDTH,
                start < REGION_STARTS,
                self.wf(),
                self.window@ == window,
                self.regions@ == regions,
                forall|q: int| start <= q < p ==> !self.seen@.contains(#[trigger] window[q]),
            decreases end - p,
        {
            if holds_height(&self.seen, self.window[p]) {
                assert(clashes(window, regions, start as int));
                return false;
            }
            p = p + 1;
        }
        assert(!clashes(window, regions, start as int));
        let ghost new_regions = regions.push((start, end));
        proof {
            lemma_offer_keeps_selection_valid(self@, start as int);
        }
        self.regions.push((start, end));
        assert(self.regions@ == new_regions);
        let mut p: usize = start;
        while p < end
            invariant
                start <= p <= end,
                end == start + REGION_WIDTH,
                start < REGION_STARTS,
                self.window@ == window,
                window.len() == SEARCH_WINDOW,
                self.regions@ == new_regions,
                self.sample_size == REGION_WIDTH * regions.len(),
                regions.len() < MAX_REGIONS,
                self.seen@ == seen_heights(window, regions) + window.subrange(start as int, p as int),
            decreases end - p,
        {
            self.seen.push(self.window[p]);
            p = p + 1;
            assert(self.seen@ =~= seen_heights(window, regions) + window.subrange(
                start as int,
                p as int,
            ));
        }
        self.sample_size = self.sample_size + REGION_WIDTH;
        assert(new_regions.drop_last() =~= regions);
        assert(self.regions@ == new_regions);
        true
    }

    /// Draws a region start uniformly at random and offers that region; returns
    /// the start that was drawn.
    pub fn offer_random(&mut self) -> (start: usize)
        requires
            old(self).wf(),
            !selection_done(old(self)@),
        ensures
            start < REGION_STARTS,
            final(self).wf(),
            selection_valid(final(self)@),
            final(self)@ == after_offer(old(self)@, start as int),
    {
        let start: usize = random_in_range(0, REGION_STARTS);
        self.offer(start);
        start
    }
}

/// Two positions of two different regions hold different heights.
proof fn lemma_no_height_shared(
    window: Seq<i64>,
    regions: Seq<(usize, usize)>,
    k: int,
    l: int,
    p: int,
    q: int,
)
    requires
        regions_share_no_height(window, regions),
        0 <= k < l < regions.len(),
        regions[k].0 <= p < regions[k].1,
        regions[l].0 <= q < regions[l].1,
    ensures
        window[p] != window[q],
{
}

/// Regions taken by a selection never overlap: since no height occurs in two
/// of them, no window position lies in two of them. They are therefore
/// disjoint, non-empty regions, on which platforms can be laid in any height
/// map longer than the window (a region's closing point may be the first point
/// after the window).
pub proof fn lemma_selected_regions_apart(s: SelectionView)
    requires
        selection_valid(s),
    ensures
        regions_disjoint(s.regions),
        regions_in_bounds(s.regions, (SEARCH_WINDOW + 1) as nat),
        forall|k: int, l: int|
            0 <= k < l < s.regions.len() ==> #[trigger] s.regions[k].1 <= #[trigger] s.regions[l].0
                || s.regions[l].1 <= s.regions[k].0,
{
    assert forall|k: int, l: int| 0 <= k < l < s.regions.len() implies #[trigger] s.regions[k].1
        <= #[trigger] s.regions[l].0 || s.regions[l].1 <= s.regions[k].0 by {
        if !(s.regions[k].1 <= s.regions[l].0 || s.regions[l].1 <= s.regions[k].0) {
            let p: int = if s.regions[k].0 <= s.regions[l].0 {
                s.regions[l].0 as int
            } else {
                s.regions[k].0 as int
            };
            assert(s.regions[k].0 <= p < s.regions[k].1 && s.regions[l].0 <= p < s.regions[l].1);
            let w = s.window;
            let r = s.regions;
            assert(regions_share_no_height(w, r));
            lemma_no_height_shared(w, r, k, l, p, p);
        }
    }
}

/// Offering keeps a selection valid, and a region is taken only when it shares
/// no height with the regions taken before.
pub proof fn lemma_offer_keeps_selection_valid(s: SelectionView, start: int)
    requires
        selection_valid(s),
        !selection_done(s),
        0 <= start < REGION_STARTS,
    ensures
        selection_valid(after_offer(s, start)),
        after_offer(s, start).regions.len() <= s.regions.len() + 1,
        after_offer(s, start).window == s.window,
{
    if !clashes(s.window, s.regions, start) {
        let regions = s.regions;
        let new_regions = regions.push((start as usize, (start + REGION_WIDTH) as usize));
        let window = s.window;
        lemma_seen_heights_hold_regions(window, regions);
        assert forall|k: int, l: int, p: int, q: int|
            #![trigger new_regions[k], new_regions[l], window[p], window[q]]
            0 <= k < l < new_regions.len() && new_regions[k].0 <= p < new_regions[k].1
                && new_regions[l].0 <= q < new_regions[l].1 implies window[p] != window[q] by {
            assert(new_regions[k] == regions[k]);
            if l < regions.len() {
                assert(new_regions[l] == regions[l]);
            } else {
                assert(seen_heights(window, regions).contains(window[p]));
                assert(!seen_heights(window, regions).contains(window[q]));
            }
        }
    }
}

/// Every seen height is the height at some position of some region.
proof fn lemma_seen_heights_come_from_regions(
    window: Seq<i64>,
    regions: Seq<(usize, usize)>,
    x: i64,
)
    requires
        forall|k: int|
            0 <= k < regions.len() ==> #[trigger] regions[k].0 <= regions[k].1 <= window.len(),
        seen_heights(window, regions).contains(x),
    ensures
        exists|k: int, q: int|
            #![trigger regions[k], window[q]]
            0 <= k < regions.len() && regions[k].0 <= q < regions[k].1 && window[q] == x,
    decreases regions.len(),
{
    let init = regions.drop_last();
    let last = regions.last();
    let n = regions.len() - 1;
    let before = seen_heights(window, init);
    let here = region_heights(window, last);
    assert(seen_heights(window, regions) == before + here);
    let i = choose|i: int| 0 <= i < (before + here).len() && (before + here)[i] == x;
    if i < before.len() {
        assert(before[i] == x);
        assert forall|k: int| 0 <= k < init.len() implies #[trigger] init[k].0 <= init[k].1
            <= window.len() by {
            assert(init[k] == regions[k]);
        }
        lemma_seen_heights_come_from_regions(window, init, x);
        let (k, q) = choose|k: int, q: int|
            #![trigger init[k], window[q]]
            0 <= k < init.len() && init[k].0 <= q < init[k].1 && window[q] == x;
        assert(init[k] == regions[k]);
        assert(regions[k].0 <= q < regions[k].1 && window[q] == x);
    } else {
        assert(regions[n] == last);
        let q = last.0 + (i - before.len());
        assert(here[i - before.len()] == window[q]);
        assert(regions[n].0 <= q < regions[n].1 && window[q] == x);
    }
}

/// What offering a region does, in terms of heights: the region of
/// `REGION_WIDTH` positions `start..start + REGION_WIDTH` is taken, behind the
/// regions taken before, exactly when none of its heights equals a height at a
/// position of a region taken before; otherwise the selection stays as it was.
/// Only those positions count: the height just after the region does not.
pub proof fn lemma_offer_takes_exactly_fresh_regions(s: SelectionView, start: int)
    requires
        selection_valid(s),
        0 <= start < REGION_STARTS,
    ensures
        (forall|p: int, k: int, q: int|
            #![trigger s.window[p], s.regions[k], s.window[q]]
            start <= p < start + REGION_WIDTH && 0 <= k < s.regions.len() && s.regions[k].0 <= q
                < s.regions[k].1 ==> s.window[p] != s.window[q]) ==> after_offer(s, start) == (
        SelectionView {
            window: s.window,
            regions: s.regions.push((start as usize, (start + REGION_WIDTH) as usize)),
        }),
        (exists|p: int, k: int, q: int|
            #![trigger s.window[p], s.regions[k], s.window[q]]
            start <= p < start + REGION_WIDTH && 0 <= k < s.regions.len() && s.regions[k].0 <= q
                < s.regions[k].1 && s.window[p] == s.window[q]) ==> after_offer(s, start) == s,
{
    let window = s.window;
    let regions = s.regions;
    let seen = seen_heights(window, regions);
    lemma_seen_heights_hold_regions(window, regions);
    if clashes(window, regions, start) {
        let p = choose|p: int|
            start <= p < start + REGION_WIDTH && seen.contains(#[trigger] window[p]);
        lemma_seen_heights_come_from_regions(window, regions, window[p]);
        let (k, q) = choose|k: int, q: int|
            #![trigger regions[k], window[q]]
            0 <= k < regions.len() && regions[k].0 <= q < regions[k].1 && window[q] == window[p];
        assert(start <= p < start + REGION_WIDTH && 0 <= k < s.regions.len() && s.regions[k].0
            <= q < s.regions[k].1 && s.window[p] == s.window[q]);
    } else {
        assert forall|p: int, k: int, q: int|
            #![trigger s.window[p], s.regions[k], s.window[q]]
            start <= p < start + REGION_WIDTH && 0 <= k < s.regions.len() && s.regions[k].0 <= q
                < s.regions[k].1 implies s.window[p] != s.window[q] by {
            assert(seen.contains(window[q]));
            if window[p] == window[q] {
                assert(seen.contains(window[p]));
            }
        }
    }
}

} // verus!

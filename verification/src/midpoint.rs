use std::collections::VecDeque;
use vstd::prelude::*;

verus! {

/// Widest terrain whose midpoints are laid out here. Up to this width every
/// endpoint sum `left + right + 1` stays below 2^24, where single-precision
/// arithmetic on the terrain's coordinates is exact, so the integer midpoints
/// below are the ones that the terrain generator computes.
pub const MAX_TERRAIN_WIDTH: usize = 8_388_608;

/// A piece of terrain still to be subdivided: its two end points and how many
/// subdivisions lie above it.
#[derive(Clone, Copy, Debug, PartialEq, Eq, Structural)]
pub struct Segment {
    pub left: usize,
    pub right: usize,
    pub depth: usize,
}

/// One midpoint displacement: the height at `center` is set from the heights
/// at `left` and `right`, with a random offset whose size is the roughness
/// halved `depth` times.
#[derive(Clone, Copy, Debug, PartialEq, Eq, Structural)]
pub struct MidpointStep {
    pub left: usize,
    pub center: usize,
    pub right: usize,
    pub depth: usize,
}

/// The point at which a segment is split: half of `left + right + 1`, rounded down.
pub open spec fn split_point(left: int, right: int) -> int {
    (left + right + 1) / 2
}

/// A segment is split further when its ends are more than two apart.
pub open spec fn splits_further(s: Segment) -> bool {
    s.right - s.left > 2
}

/// The displacement that processing a segment performs.
pub open spec fn step_of(s: Segment) -> MidpointStep {
    MidpointStep {
        left: s.left,
        center: split_point(s.left as int, s.right as int) as usize,
        right: s.right,
        depth: s.depth,
    }
}

/// The segments that processing `s` adds to the back of the queue: its left and
/// right halves, one level deeper, when it splits further.
pub open spec fn children(s: Segment) -> Seq<Segment> {
    let c = split_point(s.left as int, s.right as int) as usize;
    if splits_further(s) {
        seq![
            Segment { left: s.left, right: c, depth: (s.depth + 1) as usize },
            Segment { left: c, right: s.right, depth: (s.depth + 1) as usize },
        ]
    } else {
        seq![]
    }
}

/// A measure that every processed segment lowers: the halves of a segment weigh
/// less than the segment itself.
pub open spec fn segment_weight(s: Segment) -> nat {
    if s.right > s.left {
        (2 * (s.right - s.left) - 1) as nat
    } else {
        1
    }
}

/// Total weight of a queue of segments.
pub open spec fn queue_weight(q: Seq<Segment>) -> nat
    decreases q.len(),
{
    if q.len() == 0 {
        0
    } else {
        segment_weight(q[0]) + queue_weight(q.drop_first())
    }
}

/// The weight of two queues one after the other is the sum of their weights.
pub proof fn lemma_queue_weight_append(a: Seq<Segment>, b: Seq<Segment>)
    ensures
        queue_weight(a + b) == queue_weight(a) + queue_weight(b),
    decreases a.len(),
{
    if a.len() == 0 {
        assert(a + b =~= b);
    } else {
        lemma_queue_weight_append(a.drop_first(), b);
        assert((a + b).drop_first() =~= a.drop_first() + b);
    }
}

/// Processing the front segment replaces it by its children, which weigh less.
pub proof fn lemma_processing_lowers_weight(q: Seq<Segment>)
    requires
        q.len() > 0,
    ensures
        queue_weight(q.drop_first() + children(q[0])) < queue_weight(q),
{
    lemma_queue_weight_append(q.drop_first(), children(q[0]));
    let s = q[0];
    if splits_further(s) {
        let ch = children(s);
        assert(ch.drop_first().drop_first() =~= Seq::<Segment>::empty());
        assert(ch.drop_first()[0] == ch[1]);
        assert(queue_weight(ch.drop_first().drop_first()) == 0);
        assert(queue_weight(ch.drop_first()) == segment_weight(ch[1]));
        assert(queue_weight(ch) == segment_weight(ch[0]) + segment_weight(ch[1]));
    }
}

/// The displacements that breadth-first processing of `queue` performs, in
/// order: the front segment is displaced at its split point, and its halves, if
/// it splits further, join the back of the queue.
pub open spec fn schedule_from(queue: Seq<Segment>) -> Seq<MidpointStep>
    decreases queue_weight(queue),
{
    if queue.len() == 0 {
        seq![]
    } else {
        proof {
            lemma_processing_lowers_weight(queue);
        }
        seq![step_of(queue[0])] + schedule_from(queue.drop_first() + children(queue[0]))
    }
}

/// The segment that a terrain of `width` points starts from.
pub open spec fn whole_terrain(width: nat) -> Segment {
    Segment { left: 0, right: (width - 1) as usize, depth: 0 }
}

/// The displacements that lay out a terrain of `width` points.
pub open spec fn terrain_schedule(width: nat) -> Seq<MidpointStep> {
    schedule_from(seq![whole_terrain(width)])
}

/// A segment of a terrain of `width` points whose depth and length together
/// never exceed the terrain's length.
pub open spec fn segment_fits(s: Segment, width: nat) -> bool {
    &&& s.left <= s.right < width
    &&& s.depth + (s.right - s.left) < width
}

/// Lists, in the order in which the terrain generator applies them, the
/// midpoint displacements for a terrain of `width` points: the whole terrain
/// `0..=width - 1` is processed first, and each processed segment whose ends
/// are more than two apart queues its two halves behind the others.
pub fn midpoint_schedule(width: usize) -> (steps: Vec<MidpointStep>)
    requires
        1 <= width <= MAX_TERRAIN_WIDTH,
    ensures
        steps@ == terrain_schedule(width as nat),
{
    let ghost init = seq![whole_terrain(width as nat)];
    let mut queue: VecDeque<Segment> = VecDeque::new();
    queue.push_back(Segment { left: 0, right: width - 1, depth: 0 });
    assert(queue@ =~= init);
    let mut steps: Vec<MidpointStep> = Vec::new();
    while queue.len() > 0
        invariant
            1 <= width <= MAX_TERRAIN_WIDTH,
            steps@ + schedule_from(queue@) == schedule_from(init),
            forall|i: int| 0 <= i < queue@.len() ==> segment_fits(#[trigger] queue@[i], width as nat),
        decreases queue_weight(queue@),
    {
        let ghost q = queue@;
        let ghost done = steps@;
        let s = queue.pop_front().unwrap();
        assert(segment_fits(q[0], width as nat));
        let center: usize = (s.left + s.right + 1) / 2;
        steps.push(MidpointStep { left: s.left, center, right: s.right, depth: s.depth });
        if s.right - s.left > 2 {
            queue.push_back(Segment { left: s.left, right: center, depth: s.depth + 1 });
            queue.push_back(Segment { left: center, right: s.right, depth: s.depth + 1 });
        }
        proof {
            lemma_processing_lowers_weight(q);
            assert(queue@ =~= q.drop_first() + children(q[0]));
            assert(schedule_from(q) == seq![step_of(q[0])] + schedule_from(queue@));
            assert(steps@ + schedule_from(queue@) =~= done + schedule_from(q));
        }
    }
    steps
}


/// Every segment of the queue fits a terrain of `width` points.
pub open spec fn queue_fits(q: Seq<Segment>, width: nat) -> bool {
    forall|i: int| 0 <= i < q.len() ==> segment_fits(#[trigger] q[i], width)
}

/// The depths along the queue never decrease and span at most one level.
pub open spec fn depths_ordered(q: Seq<Segment>) -> bool {
    forall|i: int, j: int|
        0 <= i <= j < q.len() ==> #[trigger] q[i].depth <= #[trigger] q[j].depth <= q[i].depth + 1
}

/// A displacement whose center lies between its end points, inside a terrain of
/// `width` points, at the split point of its segment.
pub open spec fn step_inside(st: MidpointStep, width: nat) -> bool {
    &&& st.left <= st.center <= st.right < width
    &&& st.center == split_point(st.left as int, st.right as int)
    &&& st.left < st.right ==> st.left < st.center
}

/// Some displacement of `steps` has its center at `p`.
pub open spec fn displaces(steps: Seq<MidpointStep>, p: int) -> bool {
    exists|k: int| 0 <= k < steps.len() && #[trigger] steps[k].center == p
}

/// Processing the front segment keeps the queue fitting and depth-ordered.
proof fn lemma_processing_keeps_queue_shape(q: Seq<Segment>, width: nat)
    requires
        q.len() > 0,
        width <= MAX_TERRAIN_WIDTH,
        queue_fits(q, width),
        depths_ordered(q),
    ensures
        queue_fits(q.drop_first() + children(q[0]), width),
        depths_ordered(q.drop_first() + children(q[0])),
        step_inside(step_of(q[0]), width),
{
    let s = q[0];
    assert(segment_fits(s, width));
    let rest = q.drop_first() + children(s);
    assert forall|i: int| 0 <= i < rest.len() implies segment_fits(#[trigger] rest[i], width) by {
        if i < q.len() - 1 {
            assert(rest[i] == q[i + 1]);
            assert(segment_fits(q[i + 1], width));
        }
    }
    assert forall|i: int, j: int| 0 <= i <= j < rest.len() implies #[trigger] rest[i].depth
        <= #[trigger] rest[j].depth <= rest[i].depth + 1 by {
        let n = q.len() - 1;
        if j < n {
            assert(rest[i] == q[i + 1] && rest[j] == q[j + 1]);
            assert(q[i + 1].depth <= q[j + 1].depth <= q[i + 1].depth + 1);
        } else if i < n {
            assert(rest[i] == q[i + 1]);
            assert(q[0].depth <= q[i + 1].depth <= q[0].depth + 1);
        }
    }
}

/// What breadth-first processing of a fitting, depth-ordered queue does: every
/// displacement lies inside the terrain, depths never decrease and never fall
/// below the front segment's, and every point strictly inside a queued segment
/// is displaced.
proof fn lemma_schedule_from_shape(q: Seq<Segment>, width: nat)
    requires
        width <= MAX_TERRAIN_WIDTH,
        queue_fits(q, width),
        depths_ordered(q),
    ensures
        forall|k: int|
            0 <= k < schedule_from(q).len() ==> step_inside(#[trigger] schedule_from(q)[k], width),
        forall|k: int, l: int|
            0 <= k <= l < schedule_from(q).len() ==> #[trigger] schedule_from(q)[k].depth
                <= #[trigger] schedule_from(q)[l].depth,
        q.len() > 0 ==> forall|k: int|
            0 <= k < schedule_from(q).len() ==> q[0].depth <= #[trigger] schedule_from(q)[k].depth,
        forall|i: int, p: int|
            #![trigger q[i], displaces(schedule_from(q), p)]
            0 <= i < q.len() && q[i].left < p < q[i].right ==> displaces(schedule_from(q), p),
    decreases queue_weight(q),
{
    if q.len() > 0 {
        let s = q[0];
        let rest = q.drop_first() + children(s);
        lemma_processing_lowers_weight(q);
        lemma_processing_keeps_queue_shape(q, width);
        lemma_schedule_from_shape(rest, width);
        let sr = schedule_from(rest);
        let sq = schedule_from(q);
        assert(sq == seq![step_of(s)] + sr);
        assert forall|k: int| 0 <= k < sq.len() implies step_inside(#[trigger] sq[k], width) by {
            if k > 0 {
                assert(sq[k] == sr[k - 1]);
            }
        }
        if rest.len() > 0 {
            assert(rest[0].depth >= s.depth) by {
                if q.len() > 1 {
                    assert(rest[0] == q[1]);
                    assert(q[0].depth <= q[1].depth);
                }
            }
        }
        assert forall|k: int| 0 <= k < sq.len() implies s.depth <= #[trigger] sq[k].depth by {
            if k > 0 {
                assert(sq[k] == sr[k - 1]);
            }
        }
        assert forall|k: int, l: int| 0 <= k <= l < sq.len() implies #[trigger] sq[k].depth
            <= #[trigger] sq[l].depth by {
            if k > 0 {
                assert(sq[k] == sr[k - 1] && sq[l] == sr[l - 1]);
            } else {
                assert(s.depth <= sq[l].depth);
            }
        }
        assert forall|i: int, p: int|
            #![trigger q[i], displaces(sq, p)]
            0 <= i < q.len() && q[i].left < p < q[i].right implies displaces(sq, p) by {
            let c = split_point(s.left as int, s.right as int);
            if i == 0 && p == c {
                assert(sq[0].center == p);
            } else {
                // `p` lies inside a segment that is still queued after the front one.
                let j: int = if i > 0 {
                    i - 1
                } else if p < c {
                    q.len() - 1
                } else {
                    q.len() as int
                };
                if i > 0 {
                    assert(rest[i - 1] == q[i]);
                } else {
                    assert(splits_further(s));
                    assert(rest[j] == children(s)[j - (q.len() - 1)]);
                }
                assert(rest[j].left < p < rest[j].right);
                assert(displaces(sr, p));
                let k = choose|k: int| 0 <= k < sr.len() && #[trigger] sr[k].center == p;
                assert(sq[k + 1] == sr[k]);
            }
        }
    }
}

/// Each displacement of a terrain's schedule lies inside the terrain: its center
/// is the split point of its segment, between its end points, and strictly
/// right of the left end whenever the ends differ.
pub proof fn lemma_terrain_schedule_inside(width: nat)
    requires
        1 <= width <= MAX_TERRAIN_WIDTH,
    ensures
        forall|k: int|
            0 <= k < terrain_schedule(width).len() ==> step_inside(
                #[trigger] terrain_schedule(width)[k],
                width,
            ),
{
    lemma_schedule_from_shape(seq![whole_terrain(width)], width);
}

/// The terrain is laid out breadth-first: along the schedule the depth of the
/// displacements (and so the size of their random offsets) never grows back.
pub proof fn lemma_terrain_schedule_breadth_first(width: nat)
    requires
        1 <= width <= MAX_TERRAIN_WIDTH,
    ensures
        forall|k: int, l: int|
            0 <= k <= l < terrain_schedule(width).len() ==> #[trigger] terrain_schedule(width)[k].depth
                <= #[trigger] terrain_schedule(width)[l].depth,
{
    lemma_schedule_from_shape(seq![whole_terrain(width)], width);
}

/// Every point strictly between the two ends of the terrain is displaced at
/// least once.
pub proof fn lemma_terrain_schedule_covers_interior(width: nat, p: int)
    requires
        1 <= width <= MAX_TERRAIN_WIDTH,
        0 < p < width - 1,
    ensures
        displaces(terrain_schedule(width), p),
{
    let q = seq![whole_terrain(width)];
    lemma_schedule_from_shape(q, width);
    assert(q[0].left < p < q[0].right);
}

/// Along the queue, segments of one depth follow each other from left to
/// right without overlapping, and each segment one level deeper lies left of
/// every shallower segment queued before it (it comes from a segment already
/// processed, further left).
pub open spec fn queue_left_to_right(q: Seq<Segment>) -> bool {
    forall|i: int, j: int|
        0 <= i < j < q.len() ==> (#[trigger] q[i].depth == #[trigger] q[j].depth ==> q[i].right
            <= q[j].left) && (q[i].depth < q[j].depth ==> q[j].right <= q[i].left)
}

/// Displacement `st` lies within segment `seg`, at its depth or deeper, and is
/// the displacement of `seg` itself when at its depth.
pub open spec fn within_segment(seg: Segment, st: MidpointStep) -> bool {
    &&& seg.left <= st.left
    &&& st.right <= seg.right
    &&& seg.depth <= st.depth
    &&& st.depth == seg.depth ==> st.left == seg.left && st.right == seg.right
}

/// Processing the front segment keeps the queue left to right: its halves go
/// behind everything, the left half first.
proof fn lemma_processing_keeps_left_to_right(q: Seq<Segment>, width: nat)
    requires
        q.len() > 0,
        width <= MAX_TERRAIN_WIDTH,
        queue_fits(q, width),
        depths_ordered(q),
        queue_left_to_right(q),
    ensures
        queue_left_to_right(q.drop_first() + children(q[0])),
{
    let s = q[0];
    let rest = q.drop_first() + children(s);
    let n = q.len() - 1;
    assert(segment_fits(s, width));
    let c = split_point(s.left as int, s.right as int);
    assert forall|i: int, j: int| 0 <= i < j < rest.len() implies (#[trigger] rest[i].depth
        == #[trigger] rest[j].depth ==> rest[i].right <= rest[j].left) && (rest[i].depth
        < rest[j].depth ==> rest[j].right <= rest[i].left) by {
        if j < n {
            assert(rest[i] == q[i + 1] && rest[j] == q[j + 1]);
            assert(q[i + 1].depth == q[j + 1].depth ==> q[i + 1].right <= q[j + 1].left);
        } else if i < n {
            // `rest[j]` is a half of `s`, one level deeper than `s`.
            assert(splits_further(s));
            assert(rest[i] == q[i + 1]);
            assert(q[0].depth <= q[i + 1].depth <= q[0].depth + 1);
            assert(q[0].depth == q[i + 1].depth ==> q[0].right <= q[i + 1].left);
            assert(q[0].depth < q[i + 1].depth ==> q[i + 1].right <= q[0].left);
            assert(s.left <= c <= s.right);
        } else {
            assert(splits_further(s));
            assert(rest[i] == children(s)[0] && rest[j] == children(s)[1]);
        }
    }
}

/// Breadth-first processing of a left-to-right queue: every displacement lies
/// within some queued segment, and displacements of one depth come from left
/// to right without overlapping.
proof fn lemma_schedule_from_order(q: Seq<Segment>, width: nat)
    requires
        width <= MAX_TERRAIN_WIDTH,
        queue_fits(q, width),
        depths_ordered(q),
        queue_left_to_right(q),
    ensures
        forall|k: int|
            0 <= k < schedule_from(q).len() ==> exists|i: int|
                0 <= i < q.len() && within_segment(q[i], #[trigger] schedule_from(q)[k]),
        forall|k: int, l: int|
            0 <= k < l < schedule_from(q).len() && #[trigger] schedule_from(q)[k].depth
                == #[trigger] schedule_from(q)[l].depth ==> schedule_from(q)[k].right
                <= schedule_from(q)[l].left,
    decreases queue_weight(q),
{
    if q.len() > 0 {
        let s = q[0];
        let n = q.len() - 1;
        let rest = q.drop_first() + children(s);
        lemma_processing_lowers_weight(q);
        lemma_processing_keeps_queue_shape(q, width);
        lemma_processing_keeps_left_to_right(q, width);
        lemma_schedule_from_order(rest, width);
        let sr = schedule_from(rest);
        let sq = schedule_from(q);
        assert(sq == seq![step_of(s)] + sr);
        assert forall|k: int| 0 <= k < sq.len() implies exists|i: int|
            0 <= i < q.len() && within_segment(q[i], #[trigger] sq[k]) by {
            if k == 0 {
                assert(within_segment(q[0], sq[0]));
            } else {
                assert(sq[k] == sr[k - 1]);
                let i = choose|i: int| 0 <= i < rest.len() && within_segment(rest[i], sr[k - 1]);
                if i < n {
                    assert(rest[i] == q[i + 1]);
                    assert(within_segment(q[i + 1], sq[k]));
                } else {
                    assert(splits_further(s));
                    assert(rest[i] == children(s)[i - n]);
                    assert(within_segment(q[0], sq[k]));
                }
            }
        }
        assert forall|k: int, l: int|
            0 <= k < l < sq.len() && #[trigger] sq[k].depth == #[trigger] sq[l].depth implies sq[k].right
            <= sq[l].left by {
            assert(sq[l] == sr[l - 1]);
            if k > 0 {
                assert(sq[k] == sr[k - 1]);
            } else {
                // A displacement at the front segment's depth, processed later,
                // is that of a queued segment of the same depth, right of it.
                let i = choose|i: int| 0 <= i < rest.len() && within_segment(rest[i], sr[l - 1]);
                if i < n {
                    assert(rest[i] == q[i + 1]);
                    assert(q[0].depth <= q[i + 1].depth);
                    assert(q[0].depth == q[i + 1].depth ==> q[0].right <= q[i + 1].left);
                } else {
                    assert(splits_further(s));
                    assert(rest[i] == children(s)[i - n]);
                }
            }
        }
    }
}

/// Each level of the terrain is displaced from left to right: of two
/// displacements at one depth, the earlier one ends where the later one starts
/// or further left. With `lemma_terrain_schedule_breadth_first` this fixes the
/// order of the whole schedule: level by level, each level left to right, so a
/// segment's left half is always displaced before its right half.
pub proof fn lemma_terrain_schedule_levels_left_to_right(width: nat)
    requires
        1 <= width <= MAX_TERRAIN_WIDTH,
    ensures
        forall|k: int, l: int|
            0 <= k < l < terrain_schedule(width).len() && #[trigger] terrain_schedule(width)[k].depth
                == #[trigger] terrain_schedule(width)[l].depth ==> terrain_schedule(width)[k].right
                <= terrain_schedule(width)[l].left,
{
    lemma_schedule_from_order(seq![whole_terrain(width)], width);
}

} // verus!

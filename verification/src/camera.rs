use vstd::prelude::*;

verus! {

/// Number of fixed-point steps in one world unit: camera coordinates and
/// rocket heights are given in thousandths of a unit.
pub const UNIT: i64 = 1000;

/// Rocket height (20 units) below which the camera zooms in, and above which
/// it zooms out.
pub const ZOOM_THRESHOLD: i64 = 20_000;

/// How far the camera moves towards the scene per frame while zooming in (5 units).
pub const ZOOM_IN_STEP: i64 = 5_000;

/// How far the camera moves back and up per frame while zooming out (1 unit).
pub const ZOOM_OUT_STEP: i64 = 1_000;

/// The closest the camera comes to the scene (depth 250 units).
pub const CLOSEST_DEPTH: i64 = 250_000;

/// The farthest the camera backs away (depth 500 units).
pub const FARTHEST_DEPTH: i64 = 500_000;

/// The highest the camera climbs while zooming out (100 units).
pub const HIGHEST_CAMERA: i64 = 100_000;

/// Position of a camera, in thousandths of a world unit.
#[derive(Clone, Copy, Debug, PartialEq, Eq, Structural)]
pub struct CameraPosition {
    pub x: i64,
    pub y: i64,
    pub z: i64,
}

/// One frame of following for one camera and one rocket at height `rocket_y`.
///
/// Below the threshold the camera moves in by `ZOOM_IN_STEP`, stopping at
/// `CLOSEST_DEPTH`; above it the camera moves back and up by `ZOOM_OUT_STEP`,
/// stopping at `FARTHEST_DEPTH` and `HIGHEST_CAMERA`; exactly at the threshold
/// nothing moves.
pub open spec fn follow_step(rocket_y: int, cam: CameraPosition) -> CameraPosition {
    if rocket_y < ZOOM_THRESHOLD {
        let z = cam.z - ZOOM_IN_STEP;
        CameraPosition {
            z: (if z <= CLOSEST_DEPTH { CLOSEST_DEPTH as int } else { z }) as i64,
            ..cam
        }
    } else if rocket_y > ZOOM_THRESHOLD {
        let z = cam.z + ZOOM_OUT_STEP;
        let y = cam.y + ZOOM_OUT_STEP;
        CameraPosition {
            x: cam.x,
            y: (if y > HIGHEST_CAMERA { HIGHEST_CAMERA as int } else { y }) as i64,
            z: (if z > FARTHEST_DEPTH { FARTHEST_DEPTH as int } else { z }) as i64,
        }
    } else {
        cam
    }
}

/// A camera after following every rocket of `rocket_ys` in turn.
pub open spec fn follow_rockets(rocket_ys: Seq<i64>, cam: CameraPosition) -> CameraPosition
    decreases rocket_ys.len(),
{
    if rocket_ys.len() == 0 {
        cam
    } else {
        follow_step(rocket_ys.last() as int, follow_rockets(rocket_ys.drop_last(), cam))
    }
}

/// The depth and height band that following never leaves once a camera is in it.
pub open spec fn in_follow_band(cam: CameraPosition) -> bool {
    &&& CLOSEST_DEPTH <= cam.z <= FARTHEST_DEPTH
    &&& cam.y <= HIGHEST_CAMERA
}

/// One frame of following, computed without leaving the range of `i64`.
fn follow_one(rocket_y: i64, cam: CameraPosition) -> (next: CameraPosition)
    ensures
        next == follow_step(rocket_y as int, cam),
{
    if rocket_y < ZOOM_THRESHOLD {
        let z: i64 = if cam.z <= CLOSEST_DEPTH + ZOOM_IN_STEP {
            CLOSEST_DEPTH
        } else {
            cam.z - ZOOM_IN_STEP
        };
        CameraPosition { x: cam.x, y: cam.y, z }
    } else if rocket_y > ZOOM_THRESHOLD {
        let z: i64 = if cam.z > FARTHEST_DEPTH - ZOOM_OUT_STEP {
            FARTHEST_DEPTH
        } else {
            cam.z + ZOOM_OUT_STEP
        };
        let y: i64 = if cam.y > HIGHEST_CAMERA - ZOOM_OUT_STEP {
            HIGHEST_CAMERA
        } else {
            cam.y + ZOOM_OUT_STEP
        };
        CameraPosition { x: cam.x, y, z }
    } else {
        cam
    }
}

/// Moves every camera once for every rocket: for each rocket in order, each
/// camera zooms in while that rocket is below the threshold height and zooms
/// out while it is above it (see `follow_step`).
pub fn follow_rocket_system(rocket_heights: &Vec<i64>, cameras: &mut Vec<CameraPosition>)
    ensures
        final(cameras)@.len() == old(cameras)@.len(),
        forall|i: int|
            0 <= i < old(cameras)@.len() ==> #[trigger] final(cameras)@[i] == follow_rockets(
                rocket_heights@,
                old(cameras)@[i],
            ),
{
    let ghost start = cameras@;
    let n: usize = cameras.len();
    let mut k: usize = 0;
    while k < rocket_heights.len()
        invariant
            k <= rocket_heights.len(),
            cameras@.len() == n,
            n == start.len(),
            forall|i: int|
                0 <= i < n ==> #[trigger] cameras@[i] == follow_rockets(
                    rocket_heights@.take(k as int),
                    start[i],
                ),
        decreases rocket_heights.len() - k,
    {
        let rocket_y: i64 = rocket_heights[k];
        assert(rocket_heights@.take(k + 1).drop_last() =~= rocket_heights@.take(k as int));
        let mut j: usize = 0;
        while j < n
            invariant
                k < rocket_heights.len(),
                rocket_y == rocket_heights@[k as int],
                j <= n,
                cameras@.len() == n,
                n == start.len(),
                forall|i: int|
                    0 <= i < j ==> #[trigger] cameras@[i] == follow_rockets(
                        rocket_heights@.take(k + 1),
                        start[i],
                    ),
                forall|i: int|
                    j <= i < n ==> #[trigger] cameras@[i] == follow_rockets(
                        rocket_heights@.take(k as int),
                        start[i],
                    ),
                rocket_heights@.take(k + 1).drop_last() == rocket_heights@.take(k as int),
            decreases n - j,
        {
            let next = follow_one(rocket_y, cameras[j]);
            cameras.set(j, next);
            j = j + 1;
        }
        k = k + 1;
    }
    assert(rocket_heights@.take(rocket_heights.len() as int) =~= rocket_heights@);
}

/// Following keeps a camera in its band: a camera between the closest and the
/// farthest depth and no higher than the highest camera height stays so after
/// following any rockets, and its sideways position never changes.
pub proof fn lemma_follow_keeps_camera_in_band(rocket_ys: Seq<i64>, cam: CameraPosition)
    requires
        in_follow_band(cam),
    ensures
        in_follow_band(follow_rockets(rocket_ys, cam)),
        follow_rockets(rocket_ys, cam).x == cam.x,
    decreases rocket_ys.len(),
{
    if rocket_ys.len() > 0 {
        lemma_follow_keeps_camera_in_band(rocket_ys.drop_last(), cam);
    }
}

/// Following never moves a camera sideways, and moves it towards the scene only
/// while the rocket is low and away from it only while the rocket is high.
pub proof fn lemma_follow_step_direction(rocket_y: int, cam: CameraPosition)
    requires
        in_follow_band(cam),
    ensures
        follow_step(rocket_y, cam).x == cam.x,
        rocket_y < ZOOM_THRESHOLD ==> follow_step(rocket_y, cam).z <= cam.z
            && follow_step(rocket_y, cam).y == cam.y,
        rocket_y > ZOOM_THRESHOLD ==> follow_step(rocket_y, cam).z >= cam.z
            && follow_step(rocket_y, cam).y >= cam.y,
        rocket_y == ZOOM_THRESHOLD ==> follow_step(rocket_y, cam) == cam,
{
}

/// Every rocket of `rocket_ys` is below the zoom threshold.
pub open spec fn all_low(rocket_ys: Seq<i64>) -> bool {
    forall|i: int| 0 <= i < rocket_ys.len() ==> #[trigger] rocket_ys[i] < ZOOM_THRESHOLD
}

/// Every rocket of `rocket_ys` is above the zoom threshold.
pub open spec fn all_high(rocket_ys: Seq<i64>) -> bool {
    forall|i: int| 0 <= i < rocket_ys.len() ==> #[trigger] rocket_ys[i] > ZOOM_THRESHOLD
}

/// While the rocket stays low, each frame brings the camera `ZOOM_IN_STEP`
/// closer until it stops at `CLOSEST_DEPTH`.
proof fn lemma_low_rockets_depth(rocket_ys: Seq<i64>, cam: CameraPosition)
    requires
        all_low(rocket_ys),
        cam.z >= CLOSEST_DEPTH,
    ensures
        follow_rockets(rocket_ys, cam).x == cam.x,
        follow_rockets(rocket_ys, cam).y == cam.y,
        follow_rockets(rocket_ys, cam).z == (if cam.z - ZOOM_IN_STEP * rocket_ys.len()
            <= CLOSEST_DEPTH {
            CLOSEST_DEPTH as int
        } else {
            cam.z - ZOOM_IN_STEP * rocket_ys.len()
        }),
    decreases rocket_ys.len(),
{
    if rocket_ys.len() > 0 {
        let init = rocket_ys.drop_last();
        assert(all_low(init)) by {
            assert forall|i: int| 0 <= i < init.len() implies #[trigger] init[i] < ZOOM_THRESHOLD by {
                assert(init[i] == rocket_ys[i]);
            }
        }
        lemma_low_rockets_depth(init, cam);
        assert(rocket_ys.last() == rocket_ys[rocket_ys.len() - 1]);
        assert(rocket_ys.last() < ZOOM_THRESHOLD);
    }
}

/// While the rocket stays high, each frame takes the camera `ZOOM_OUT_STEP`
/// back and up until it stops at `FARTHEST_DEPTH` and `HIGHEST_CAMERA`.
proof fn lemma_high_rockets_position(rocket_ys: Seq<i64>, cam: CameraPosition)
    requires
        all_high(rocket_ys),
        rocket_ys.len() >= 1,
    ensures
        follow_rockets(rocket_ys, cam).x == cam.x,
        follow_rockets(rocket_ys, cam).z == (if cam.z + ZOOM_OUT_STEP * rocket_ys.len()
            > FARTHEST_DEPTH {
            FARTHEST_DEPTH as int
        } else {
            cam.z + ZOOM_OUT_STEP * rocket_ys.len()
        }),
        follow_rockets(rocket_ys, cam).y == (if cam.y + ZOOM_OUT_STEP * rocket_ys.len()
            > HIGHEST_CAMERA {
            HIGHEST_CAMERA as int
        } else {
            cam.y + ZOOM_OUT_STEP * rocket_ys.len()
        }),
    decreases rocket_ys.len(),
{
    let init = rocket_ys.drop_last();
    assert(rocket_ys.last() == rocket_ys[rocket_ys.len() - 1]);
    assert(rocket_ys.last() > ZOOM_THRESHOLD);
    if rocket_ys.len() > 1 {
        assert(all_high(init)) by {
            assert forall|i: int| 0 <= i < init.len() implies #[trigger] init[i] > ZOOM_THRESHOLD by {
                assert(init[i] == rocket_ys[i]);
            }
        }
        lemma_high_rockets_position(init, cam);
    } else {
        assert(init.len() == 0);
        assert(follow_rockets(init, cam) == cam);
    }
}

/// A low rocket brings the camera in to the closest depth: once enough frames
/// have passed (`ZOOM_IN_STEP` per frame covers the way from the camera's depth
/// down to `CLOSEST_DEPTH`) the camera stands at `CLOSEST_DEPTH`, unmoved
/// otherwise, and every further frame with a low rocket leaves it there.
pub proof fn lemma_low_rocket_brings_camera_closest(rocket_ys: Seq<i64>, cam: CameraPosition)
    requires
        all_low(rocket_ys),
        cam.z >= CLOSEST_DEPTH,
        ZOOM_IN_STEP * rocket_ys.len() >= cam.z - CLOSEST_DEPTH,
    ensures
        follow_rockets(rocket_ys, cam) == (CameraPosition { z: CLOSEST_DEPTH, ..cam }),
        forall|y: int|
            y < ZOOM_THRESHOLD ==> #[trigger] follow_step(y, follow_rockets(rocket_ys, cam))
                == follow_rockets(rocket_ys, cam),
{
    lemma_low_rockets_depth(rocket_ys, cam);
}

/// A high rocket takes the camera out to the farthest depth and the highest
/// height: after at least one frame, and once enough frames have passed
/// (`ZOOM_OUT_STEP` per frame covers the way to both limits) the camera stands
/// at `FARTHEST_DEPTH` and `HIGHEST_CAMERA`, unmoved sideways, and every further
/// frame with a high rocket leaves it there.
pub proof fn lemma_high_rocket_takes_camera_farthest(rocket_ys: Seq<i64>, cam: CameraPosition)
    requires
        all_high(rocket_ys),
        rocket_ys.len() >= 1,
        ZOOM_OUT_STEP * rocket_ys.len() >= FARTHEST_DEPTH - cam.z,
        ZOOM_OUT_STEP * rocket_ys.len() >= HIGHEST_CAMERA - cam.y,
    ensures
        follow_rockets(rocket_ys, cam) == (CameraPosition {
            x: cam.x,
            y: HIGHEST_CAMERA,
            z: FARTHEST_DEPTH,
        }),
        forall|y: int|
            y > ZOOM_THRESHOLD ==> #[trigger] follow_step(y, follow_rockets(rocket_ys, cam))
                == follow_rockets(rocket_ys, cam),
{
    lemma_high_rockets_position(rocket_ys, cam);
}

/// Following rockets in two batches is following them all in order: the
/// cameras after `first` and then `second` are the cameras after `first + second`.
pub proof fn lemma_follow_in_batches(first: Seq<i64>, second: Seq<i64>, cam: CameraPosition)
    ensures
        follow_rockets(first + second, cam) == follow_rockets(second, follow_rockets(first, cam)),
    decreases second.len(),
{
    if second.len() == 0 {
        assert(first + second =~= first);
    } else {
        lemma_follow_in_batches(first, second.drop_last(), cam);
        assert((first + second).drop_last() =~= first + second.drop_last());
        assert((first + second).last() == second.last());
    }
}

/// Rockets are followed in list order: the first rocket moves the camera first,
/// and the rest follow from where it left the camera; a rocket added at the end
/// moves the camera last.
pub proof fn lemma_follow_first_rocket_first(r: i64, rest: Seq<i64>, cam: CameraPosition)
    ensures
        follow_rockets(seq![r] + rest, cam) == follow_rockets(rest, follow_step(r as int, cam)),
        follow_rockets(rest.push(r), cam) == follow_step(r as int, follow_rockets(rest, cam)),
{
    lemma_follow_in_batches(seq![r], rest, cam);
    lemma_follow_single(r, cam);
    lemma_follow_in_batches(rest, seq![r], cam);
    assert(rest + seq![r] =~= rest.push(r));
    lemma_follow_single(r, follow_rockets(rest, cam));
}

/// Following a single rocket is one frame of following.
proof fn lemma_follow_single(r: i64, cam: CameraPosition)
    ensures
        follow_rockets(seq![r], cam) == follow_step(r as int, cam),
{
    let one = seq![r];
    assert(one.drop_last() =~= Seq::<i64>::empty());
    assert(one.last() == r);
    assert(follow_rockets(Seq::<i64>::empty(), cam) == cam);
}

/// A low rocket and then a high one: the camera first zooms in (stopping at the
/// closest depth), then zooms out and climbs from there.
pub proof fn lemma_low_then_high(low: i64, high: i64, cam: CameraPosition)
    requires
        low < ZOOM_THRESHOLD,
        high > ZOOM_THRESHOLD,
        cam.z <= FARTHEST_DEPTH - ZOOM_OUT_STEP,
        cam.y <= HIGHEST_CAMERA - ZOOM_OUT_STEP,
    ensures
        follow_rockets(seq![low, high], cam) == (CameraPosition {
            x: cam.x,
            y: (cam.y + ZOOM_OUT_STEP) as i64,
            z: ((if cam.z - ZOOM_IN_STEP <= CLOSEST_DEPTH {
                CLOSEST_DEPTH as int
            } else {
                cam.z - ZOOM_IN_STEP
            }) + ZOOM_OUT_STEP) as i64,
        }),
{
    lemma_follow_first_rocket_first(high, seq![low], cam);
    assert(seq![low].push(high) =~= seq![low, high]);
    lemma_follow_first_rocket_first(low, Seq::<i64>::empty(), cam);
    assert(Seq::<i64>::empty().push(low) =~= seq![low]);
}

} // verus!

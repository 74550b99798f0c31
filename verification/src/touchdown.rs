use vstd::prelude::*;
use crate::camera::UNIT;

verus! {

/// Horizontal offset between the lander's coordinates and the height-map
/// columns (168 units), in thousandths of a unit.
pub const TERRAIN_SHIFT: i64 = 168_000;

/// Distance from the lander's centre to each of its feet (2.5 units), in
/// thousandths of a unit.
pub const FOOT_OFFSET: i64 = 2_500;

/// How much higher the ground under the right foot may be than under the left
/// one for the plane to count as stable (3 units), in thousandths of a unit.
pub const LEVEL_TOLERANCE: i64 = 3_000;

/// The height-map column under horizontal position `x` (in thousandths): the
/// whole number of units, rounded towards zero, and column 0 left of the origin.
pub open spec fn column_under(x: int) -> int {
    if x < 0 {
        0
    } else {
        x / UNIT as int
    }
}

/// The columns under the lander's left and right foot when its centre is at `x`.
pub open spec fn feet_columns(x: int) -> (int, int) {
    (
        column_under(x + TERRAIN_SHIFT - FOOT_OFFSET),
        column_under(x + TERRAIN_SHIFT + FOOT_OFFSET),
    )
}

/// The ground under the feet is a stable plane: both heights are equal, or the
/// right one is at most `LEVEL_TOLERANCE` above the left one.
pub open spec fn stable_plane(left: int, right: int) -> bool {
    left == right || right - left <= LEVEL_TOLERANCE
}

/// The height-map columns under the left and the right foot of a lander whose
/// centre touched the ground at `x` (thousandths of a unit).
pub fn feet_columns_at(x: i64) -> (cols: (u64, u64))
    ensures
        cols.0 == feet_columns(x as int).0,
        cols.1 == feet_columns(x as int).1,
{
    let left: i128 = x as i128 + TERRAIN_SHIFT as i128 - FOOT_OFFSET as i128;
    let right: i128 = x as i128 + TERRAIN_SHIFT as i128 + FOOT_OFFSET as i128;
    let l: u64 = if left < 0 {
        0
    } else {
        (left / UNIT as i128) as u64
    };
    let r: u64 = if right < 0 {
        0
    } else {
        (right / UNIT as i128) as u64
    };
    (l, r)
}

/// Whether the lander came down on a stable plane, given the heights (in
/// thousandths) of the ground under its left and its right foot.
pub fn is_stable_plane(left: i64, right: i64) -> (stable: bool)
    ensures
        stable == stable_plane(left as int, right as int),
{
    left == right || (right as i128) - (left as i128) <= LEVEL_TOLERANCE as i128
}

/// The left foot never stands right of the right foot.
pub proof fn lemma_feet_in_order(x: int)
    ensures
        feet_columns(x).0 <= feet_columns(x).1,
        feet_columns(x).1 - feet_columns(x).0 <= 5,
{
}

} // verus!

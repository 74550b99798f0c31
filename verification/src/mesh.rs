use vstd::prelude::*;

verus! {

/// Number of line segments that the terrain outline draws for a height map of
/// `map_size` points and a terrain profile of `profile_len` points: one per map
/// point that has a next profile point.
pub open spec fn outline_segments(map_size: nat, profile_len: nat) -> nat {
    if profile_len == 0 {
        0
    } else if map_size < profile_len - 1 {
        map_size
    } else {
        (profile_len - 1) as nat
    }
}

/// Index buffer of the terrain outline (a line list): for each map point `i`
/// that has a next profile point, the segment from vertex `2i` to vertex
/// `2i + 1`; the buffer therefore counts up from zero.
pub fn outline_indices(map_size: usize, profile_len: usize) -> (indices: Vec<u32>)
    requires
        outline_segments(map_size as nat, profile_len as nat) <= 0x8000_0000,
    ensures
        indices@.len() == 2 * outline_segments(map_size as nat, profile_len as nat),
        forall|k: int| 0 <= k < indices@.len() ==> #[trigger] indices@[k] == k,
{
    let mut indices: Vec<u32> = Vec::new();
    let mut i: usize = 0;
    while i < map_size
        invariant
            i <= map_size,
            outline_segments(map_size as nat, profile_len as nat) <= 0x8000_0000,
            indices@.len() == 2 * outline_segments(i as nat, profile_len as nat),
            forall|k: int| 0 <= k < indices@.len() ==> #[trigger] indices@[k] == k,
        decreases map_size - i,
    {
        if profile_len > 0 && i < profile_len - 1 {
            assert(i < outline_segments(map_size as nat, profile_len as nat));
            let index_base: u32 = (i as u32) * 2;
            indices.push(index_base);
            indices.push(index_base + 1);
        }
        i = i + 1;
    }
    indices
}

/// The corner of quad `k / 6` that entry `k` of a quad-strip index buffer
/// names: each quad `i` is drawn as the triangles `(4i, 4i + 1, 4i + 2)` and
/// `(4i + 2, 4i + 1, 4i + 3)`.
pub open spec fn quad_corner(k: int) -> int {
    let r = k % 6;
    if r == 0 {
        0
    } else if r == 1 || r == 4 {
        1
    } else if r == 2 || r == 3 {
        2
    } else {
        3
    }
}

/// Index buffer of a strip of `quads` quads, one per height-map point, each
/// with its own four vertices `4i..4i + 4` (lower left, lower right, upper
/// left, upper right) drawn as two triangles.
pub fn quad_strip_indices(quads: usize) -> (indices: Vec<u32>)
    requires
        quads <= 0x4000_0000,
    ensures
        indices@.len() == 6 * quads,
        forall|k: int| 0 <= k < indices@.len() ==> #[trigger] indices@[k] == 4 * (k / 6) + quad_corner(k),
{
    let mut indices: Vec<u32> = Vec::new();
    let mut i: usize = 0;
    while i < quads
        invariant
            i <= quads <= 0x4000_0000,
            indices@.len() == 6 * i,
            forall|k: int| 0 <= k < indices@.len() ==> #[trigger] indices@[k] == 4 * (k / 6) + quad_corner(k),
        decreases quads - i,
    {
        let index_base: u32 = (i as u32) * 4;
        let ghost before = indices@;
        indices.push(index_base);
        indices.push(index_base + 1);
        indices.push(index_base + 2);
        indices.push(index_base + 2);
        indices.push(index_base + 1);
        indices.push(index_base + 3);
        assert forall|k: int| 0 <= k < indices@.len() implies #[trigger] indices@[k] == 4 * (k / 6)
            + quad_corner(k) by {
            if k >= 6 * i {
                assert(k / 6 == i);
                assert(k % 6 == k - 6 * i);
            } else {
                assert(indices@[k] == before[k]);
            }
        }
        i = i + 1;
    }
    indices
}

} // verus!

use vstd::prelude::*;

verus! {

/// Number of points of the height map that the terrain is drawn from.
pub const HEIGHTMAP_SIZE: usize = 50000;

/// Sets up the height map of the terrain (all `HEIGHTMAP_SIZE` points at height
/// zero) and its smoothing on key press.
pub struct HeightmapPlugin;

impl HeightmapPlugin {
    /// Number of points of the height map that the plugin sets up.
    pub fn heightmap_size(&self) -> (n: usize)
        ensures
            n == HEIGHTMAP_SIZE,
    {
        HEIGHTMAP_SIZE
    }
}

} // verus!

use vstd::prelude::*;

verus! {

/// The backdrop of the scene: a large quad behind the terrain, drawn with the
/// game's own background material.
pub struct Background;

} // verus!

//! Game logic of a small lunar-lander game: how the chase camera follows the
//! lander, how the terrain is laid out (midpoint displacement schedule, valley
//! flattening, landing platforms), which control the pilot's keys select, and
//! the index buffers of the terrain meshes.
//!
//! Positions and heights never appear here as floating-point numbers: camera
//! coordinates are carried in thousandths of a world unit, and terrain heights
//! are carried by order keys (integers that compare and repeat exactly as the
//! heights they stand for).

pub mod background;
pub mod camera;
pub mod landing;
pub mod mesh;
pub mod midpoint;
pub mod random;
pub mod regions;
pub mod rocket;
pub mod terrain;
pub mod touchdown;
pub mod valleys;

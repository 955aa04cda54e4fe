use vstd::prelude::*;

verus! {

/// Edge length of a chunk, in cells, along x.
pub const WIDTH: u32 = 16;

/// Edge length of a chunk, in cells, along y.
pub const HEIGHT: u32 = 16;

/// A cell of the world grid in global coordinates.
#[derive(Debug, Clone, Copy, PartialEq, Eq, Hash, Structural)]
pub struct GridPos {
    pub x: u32,
    pub y: u32,
}

/// The way a snake faces; `North` is towards smaller `y`.
#[derive(Debug, Clone, Copy, PartialEq, Eq, Hash, Structural)]
pub enum Direction {
    North,
    South,
    East,
    West,
}

} // verus!

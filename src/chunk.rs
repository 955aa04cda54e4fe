use crate::types::{GridPos, HEIGHT, WIDTH};
use vstd::prelude::*;

verus! {

/// The state of one cell.
#[derive(Clone, Copy, Debug, PartialEq, Eq, Structural)]
pub enum Tile {
    /// Nothing in it.
    Empty,
    /// A snake that runs into it dies.
    Wall,
    /// A snake grows by eating it.
    Apple,
}

/// A 16×16 square of tiles, stored row by row in one flat vector.
#[derive(Debug)]
pub struct Chunk {
    /// The tiles; the tile at local `(x, y)` sits at `y * 16 + x`.
    pub grid: Vec<Tile>,
}

/// The flat index of local position `pos`, when both coordinates lie in `[0, 16)`.
pub open spec fn local_index(pos: GridPos) -> Option<int> {
    if pos.x < WIDTH && pos.y < HEIGHT {
        Some(pos.y * WIDTH + pos.x)
    } else {
        None
    }
}

/// A chunk's worth of empty tiles.
pub open spec fn empty_grid() -> Seq<Tile> {
    Seq::new((WIDTH * HEIGHT) as nat, |i: int| Tile::Empty)
}

impl Chunk {
    /// A chunk of 256 empty tiles.
    pub fn new() -> (c: Chunk)
        ensures
            c.grid@ == empty_grid(),
    {
        let mut grid: Vec<Tile> = Vec::new();
        let mut i: usize = 0;
        while i < (WIDTH * HEIGHT) as usize
            invariant
                i <= WIDTH * HEIGHT,
                grid@ == Seq::new(i as nat, |j: int| Tile::Empty),
            decreases WIDTH * HEIGHT - i,
        {
            grid.push(Tile::Empty);
            i = i + 1;
            assert(grid@ =~= Seq::new(i as nat, |j: int| Tile::Empty));
        }
        Chunk { grid }
    }

    /// The tile at local position `pos`; none outside `[0, 16)` on either axis.
    pub fn get_tile(&self, pos: GridPos) -> (r: Option<&Tile>)
        ensures
            match local_index(pos) {
                Some(i) if i < self.grid@.len() => r == Some(&self.grid@[i]),
                _ => r is None,
            },
    {
        match self.pos(pos) {
            Some(index) => {
                if index < self.grid.len() {
                    Some(&self.grid[index])
                } else {
                    None
                }
            },
            None => None,
        }
    }

    /// Puts `tile` at local position `pos`; returns none, and changes nothing, outside
    /// `[0, 16)` on either axis.
    pub fn set_tile(&mut self, pos: GridPos, tile: Tile) -> (r: Option<()>)
        ensures
            match local_index(pos) {
                Some(i) if i < old(self).grid@.len() => {
                    &&& r is Some
                    &&& final(self).grid@ == old(self).grid@.update(i, tile)
                },
                _ => r is None && final(self).grid@ == old(self).grid@,
            },
    {
        match self.pos(pos) {
            Some(index) => {
                if index < self.grid.len() {
                    self.grid.set(index, tile);
                    Some(())
                } else {
                    None
                }
            },
            None => None,
        }
    }

    /// The flat index of local position `pos`; none outside `[0, 16)` on either axis.
    pub fn pos(&self, pos: GridPos) -> (r: Option<usize>)
        ensures
            match local_index(pos) {
                Some(i) => r == Some(i as usize),
                None => r is None,
            },
    {
        if pos.x < WIDTH && pos.y < HEIGHT {
            Some((pos.y * WIDTH + pos.x) as usize)
        } else {
            None
        }
    }
}

} // verus!

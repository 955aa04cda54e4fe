use crate::chunk::{empty_grid, Chunk};
use crate::types::{GridPos, HEIGHT, WIDTH};
use std::collections::HashMap;
use vstd::prelude::*;

verus! {

broadcast use vstd::std_specs::hash::group_hash_axioms;

/// Why a world cannot be built.
#[derive(Debug, Clone, Copy, PartialEq, Eq, Structural)]
pub enum WorldError {
    /// The width or the height is not a multiple of the chunk edge (16).
    NotMultipleOf16Error,
}

/// Dense, row-major chunk number.
pub type ChunkId = u32;

/// The world grid: its size in cells and one chunk per 16×16 square, keyed by chunk number.
#[derive(Debug)]
pub struct World {
    /// Width in cells.
    pub width: u32,
    /// Height in cells.
    pub height: u32,
    /// The chunks, by number.
    pub chunks: HashMap<ChunkId, Chunk>,
}

/// How many chunks a world of `width × height` cells holds.
pub open spec fn chunk_count(width: u32, height: u32) -> int {
    (width / WIDTH) as int * (height / HEIGHT) as int
}

/// Every chunk of a `width × height` world can be numbered by a `ChunkId`: for sizes that are
/// multiples of 16, `(width/16) * (height/16)` fits in a `u32`.
pub open spec fn numberable(width: u32, height: u32) -> bool {
    width % 16 == 0 && height % 16 == 0 ==> width as int * height as int <= 256 * u32::MAX
}

pub proof fn lemma_numberable(width: u32, height: u32)
    requires
        numberable(width, height),
        width % 16 == 0,
        height % 16 == 0,
    ensures
        chunk_count(width, height) <= u32::MAX,
{
    let a = (width / 16) as int;
    let b = (height / 16) as int;
    assert(width as int * height as int == 256 * (a * b)) by (nonlinear_arith)
        requires
            width as int == 16 * a,
            height as int == 16 * b,
    ;
}

/// The chunk number of `pos` in a world `width` cells wide: `floor(y/16) * (width/16) +
/// floor(x/16)`, taken modulo `2^32` (positions outside the world wrap around).
pub open spec fn chunk_index(width: u32, pos: GridPos) -> ChunkId {
    ((pos.y / HEIGHT) as int * (width / WIDTH) as int + (pos.x / WIDTH) as int) as u32
}

/// `pos` lies inside a world of `width × height` cells.
pub open spec fn in_bounds(width: u32, height: u32, pos: GridPos) -> bool {
    pos.x < width && pos.y < height
}

/// Inside the world, the chunk number is exact and names one of the world's chunks.
pub proof fn lemma_chunk_index_in_bounds(width: u32, height: u32, pos: GridPos)
    requires
        in_bounds(width, height, pos),
        width % WIDTH == 0,
        height % HEIGHT == 0,
        chunk_count(width, height) <= u32::MAX,
    ensures
        chunk_index(width, pos) as int == (pos.y / HEIGHT) as int * (width / WIDTH) as int + (
        pos.x / WIDTH) as int,
        chunk_index(width, pos) < chunk_count(width, height),
{
    let cy = (pos.y / HEIGHT) as int;
    let cx = (pos.x / WIDTH) as int;
    let cols = (width / WIDTH) as int;
    let rows = (height / HEIGHT) as int;
    assert(cy < rows) by (nonlinear_arith)
        requires
            cy == pos.y as int / 16,
            rows == height as int / 16,
            pos.y < height,
            height as int % 16 == 0,
    ;
    assert(cx < cols) by (nonlinear_arith)
        requires
            cx == pos.x as int / 16,
            cols == width as int / 16,
            pos.x < width,
            width as int % 16 == 0,
    ;
    assert(cy * cols + cx < rows * cols) by (nonlinear_arith)
        requires
            0 <= cy < rows,
            0 <= cx < cols,
    ;
    assert(rows * cols == cols * rows) by (nonlinear_arith);
}

impl World {
    /// Builds a world of `width × height` cells with one empty chunk per 16×16 square,
    /// numbered row-major from 0; fails when either size is not a multiple of 16.
    pub fn new(width: u32, height: u32) -> (r: Result<World, WorldError>)
        requires
            numberable(width, height),
        ensures
            match r {
                Ok(w) => {
                    &&& width % WIDTH == 0 && height % HEIGHT == 0
                    &&& w.width == width
                    &&& w.height == height
                    &&& w.chunks@.dom() == Set::new(
                        |i: ChunkId| (i as int) < chunk_count(width, height),
                    )
                    &&& forall|i: ChunkId| #[trigger]
                        w.chunks@.contains_key(i) ==> w.chunks@[i].grid@ == empty_grid()
                },
                Err(e) => e == WorldError::NotMultipleOf16Error && !(width % WIDTH == 0
                    && height % HEIGHT == 0),
            },
    {
        if width % WIDTH == 0 && height % HEIGHT == 0 {
            proof {
                lemma_numberable(width, height);
            }
            let mut chunks: HashMap<ChunkId, Chunk> = HashMap::new();
            let chunks_total: u32 = (width / WIDTH) * (height / HEIGHT);
            let mut i: u32 = 0;
            while i < chunks_total
                invariant
                    i <= chunks_total,
                    chunks_total == chunk_count(width, height),
                    chunks@.dom() == Set::new(|j: ChunkId| j < i),
                    forall|j: ChunkId| #[trigger]
                        chunks@.contains_key(j) ==> chunks@[j].grid@ == empty_grid(),
                decreases chunks_total - i,
            {
                chunks.insert(i, Chunk::new());
                i = i + 1;
                assert(chunks@.dom() =~= Set::new(|j: ChunkId| j < i));
            }
            assert(chunks@.dom() =~= Set::new(
                |j: ChunkId| (j as int) < chunk_count(width, height),
            ));
            Ok(World { width, height, chunks })
        } else {
            Err(WorldError::NotMultipleOf16Error)
        }
    }

    /// The number of the chunk holding `global_pos` (see `chunk_index`).
    pub fn chunk_at(&self, global_pos: &GridPos) -> (r: ChunkId)
        ensures
            r == chunk_index(self.width, *global_pos),
    {
        let chunks_per_row = (self.width / WIDTH) as u64;
        let chunk_x = (global_pos.x / WIDTH) as u64;
        let chunk_y = (global_pos.y / HEIGHT) as u64;
        assert(chunk_y * chunks_per_row <= 0x1000_0000 * 0x1000_0000) by (nonlinear_arith)
            requires
                chunk_y < 0x1000_0000,
                chunks_per_row < 0x1000_0000,
        ;
        #[verifier::truncate]
        ((chunk_y * chunks_per_row + chunk_x) as u32)
    }
}

} // verus!

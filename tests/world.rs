use snake_core::chunk::{Chunk, Tile};
use snake_core::types::{GridPos, HEIGHT, WIDTH};
use snake_core::world::{World, WorldError};

#[test]
fn chunk_new_success_size() {
    let chunk = Chunk::new();
    assert_eq!(chunk.grid.len(), (HEIGHT * WIDTH) as usize)
}

#[test]
fn chunk_get_tile_success() {
    let chunk = Chunk::new();
    assert!(matches!(chunk.get_tile(GridPos { x: 3, y: 4 }), Some(Tile::Empty)));
    assert!(chunk.get_tile(GridPos { x: 16, y: 0 }).is_none());
}

#[test]
fn chunk_set_tile_success() {
    let mut chunk = Chunk::new();
    assert_eq!(chunk.set_tile(GridPos { x: 15, y: 15 }, Tile::Apple), Some(()));
    assert!(matches!(chunk.get_tile(GridPos { x: 15, y: 15 }), Some(Tile::Apple)));
    assert!(matches!(chunk.grid[255], Tile::Apple));
    assert_eq!(chunk.set_tile(GridPos { x: 0, y: 16 }, Tile::Wall), None);
    assert!(chunk.grid.iter().filter(|t| matches!(t, Tile::Wall)).count() == 0);
}

#[test]
fn test_pos_to_index_conversion() {
    let chunk = Chunk::new();
    assert_eq!(chunk.pos(GridPos { x: 0, y: 0 }), Some(0));
    assert_eq!(chunk.pos(GridPos { x: 9, y: 0 }), Some(9));
}

#[test]
fn chunk_pos_fail() {
    let chunk = Chunk::new();
    assert_eq!(chunk.pos(GridPos { x: 17, y: 5 }), None);
}

#[test]
fn chunk_pos_row_major() {
    let chunk = Chunk::new();
    assert_eq!(chunk.pos(GridPos { x: 2, y: 3 }), Some(50));
    assert_eq!(chunk.pos(GridPos { x: 15, y: 15 }), Some(255));
    assert_eq!(chunk.pos(GridPos { x: 5, y: 16 }), None);
}

#[test]
fn world_new_success() {
    let world = World::new(256, 256).unwrap();
    assert_eq!(world.chunks.len(), 256);
}

#[test]
fn world_new_fail_error() {
    let world = World::new(257, 256);
    assert!(matches!(world, Err(WorldError::NotMultipleOf16Error)));
}

#[test]
fn world_new_fails_on_height() {
    assert!(matches!(World::new(256, 250), Err(WorldError::NotMultipleOf16Error)));
}

#[test]
fn world_chunks_numbered_densely() {
    let world = World::new(64, 32).unwrap();
    assert_eq!(world.chunks.len(), 8);
    for i in 0..8u32 {
        assert_eq!(world.chunks[&i].grid.len(), 256);
    }
    assert!(!world.chunks.contains_key(&8));
}

#[test]
fn test_chunk_at_logic() {
    let world = World::new(64, 32).unwrap();
    assert_eq!(world.chunk_at(&GridPos { x: 0, y: 0 }), 0);
    assert_eq!(world.chunk_at(&GridPos { x: 15, y: 15 }), 0);
    assert_eq!(world.chunk_at(&GridPos { x: 5, y: 10 }), 0);
    assert_eq!(world.chunk_at(&GridPos { x: 16, y: 0 }), 1);
    assert_eq!(world.chunk_at(&GridPos { x: 20, y: 5 }), 1);
    assert_eq!(world.chunk_at(&GridPos { x: 0, y: 16 }), 4);
    assert_eq!(world.chunk_at(&GridPos { x: 10, y: 20 }), 4);
    assert_eq!(world.chunk_at(&GridPos { x: 30, y: 25 }), 5);
    assert_eq!(world.chunk_at(&GridPos { x: 63, y: 31 }), 7);
    assert_eq!(world.chunk_at(&GridPos { x: 48, y: 16 }), 7);
}

#[test]
fn chunk_at_out_of_bounds_wraps() {
    let world = World::new(64, 32).unwrap();
    // Beyond the world the formula goes on: floor(y/16) * 4 + floor(x/16).
    assert_eq!(world.chunk_at(&GridPos { x: 64, y: 0 }), 4);
    assert_eq!(world.chunk_at(&GridPos { x: 0, y: 32 }), 8);
    let expected = ((u32::MAX as u64 / 16) * 4 + (u32::MAX as u64 / 16)) as u32;
    assert_eq!(world.chunk_at(&GridPos { x: u32::MAX, y: u32::MAX }), expected);
}

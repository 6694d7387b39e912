use tiled_map::chunk::{Chunk, Rect, Tile};
use tiled_map::map::CompiledMap;

// corners: A bottom-left, B top-left, C top-right, D bottom-right
const A: (i128, i128) = (0, 16);
const B: (i128, i128) = (0, 0);
const C: (i128, i128) = (16, 0);
const D: (i128, i128) = (16, 16);

fn uvs(flip_d: bool, flip_h: bool, flip_v: bool) -> Vec<(i128, i128)> {
    let tile = Tile {
        tile_id: 1,
        pos: (0, 0),
        vertex: Rect { min_x: 0, min_y: -32, max_x: 32, max_y: 0 },
        uv: Rect { min_x: 0, min_y: 0, max_x: 16, max_y: 16 },
        flip_d,
        flip_h,
        flip_v,
    };
    let chunk = Chunk { position: (0, 0), tiles: vec![vec![tile]] };
    CompiledMap::assemble_chunk(&chunk, 1).unwrap().uvs
}

#[test]
fn no_flip_keeps_the_corners() {
    assert_eq!(uvs(false, false, false), vec![A, B, C, D]);
}

#[test]
fn diagonal_flip_swaps_first_and_third() {
    assert_eq!(uvs(true, false, false), vec![C, B, A, D]);
}

#[test]
fn horizontal_flip_reverses() {
    assert_eq!(uvs(false, true, false), vec![D, C, B, A]);
}

#[test]
fn vertical_flip_reverses_then_swaps_pairs() {
    assert_eq!(uvs(false, false, true), vec![B, A, D, C]);
}

#[test]
fn combined_flips() {
    assert_eq!(uvs(true, true, false), vec![D, A, B, C]);
    assert_eq!(uvs(true, false, true), vec![B, C, D, A]);
    assert_eq!(uvs(false, true, true), vec![C, D, A, B]);
    assert_eq!(uvs(true, true, true), vec![A, D, C, B]);
}

#[test]
fn chunk_without_tiles_of_the_tileset_has_no_mesh() {
    let chunk = Chunk { position: (0, 0), tiles: vec![vec![Tile::empty(0, 0), Tile::empty(0, 1)]] };
    assert!(CompiledMap::assemble_chunk(&chunk, 1).is_none());
    let mut t = Tile::empty(0, 0);
    t.tile_id = 3;
    let chunk = Chunk { position: (0, 0), tiles: vec![vec![t]] };
    assert!(CompiledMap::assemble_chunk(&chunk, 4).is_none());
    assert!(CompiledMap::assemble_chunk(&chunk, 3).is_some());
}

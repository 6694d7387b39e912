use tiled_map::chunk::MAX_CHUNK_EXTENT;
use tiled_map::geometry::{GridPos, Orientation, WorldPos};
use tiled_map::map::CompiledMap;

#[test]
fn project_ortho_scales_and_flips_y() {
    let w = CompiledMap::project_ortho(GridPos { x: 3, y: 4 }, 16, 8);
    // (48, -32) pixels, in half-pixels
    assert_eq!(w, WorldPos { x: 96, y: -64 });
}

#[test]
fn unproject_ortho_round_trip() {
    for &(x, y) in &[(0i64, 0i64), (1, 0), (5, 7), (-3, 2), (-4, -9)] {
        let w = CompiledMap::project_ortho(GridPos { x, y }, 16, 12);
        let g = CompiledMap::unproject_ortho(w, 16, 12);
        assert_eq!((g.cell_x, g.cell_y, g.offset_x, g.offset_y), (x as i128, y as i128, 0, 0));
    }
}

#[test]
fn unproject_ortho_keeps_the_offset() {
    // pixel (40, -10) on 16x16 tiles: column 2.5, row 0.625
    let g = CompiledMap::unproject_ortho(WorldPos { x: 80, y: -20 }, 16, 16);
    assert_eq!((g.cell_x, g.offset_x), (2, 16));
    assert_eq!((g.cell_y, g.offset_y), (0, 20));
    // negative coordinates floor towards minus infinity
    let g = CompiledMap::unproject_ortho(WorldPos { x: -1, y: 1 }, 16, 16);
    assert_eq!((g.cell_x, g.offset_x), (-1, 31));
    assert_eq!((g.cell_y, g.offset_y), (-1, 31));
}

#[test]
fn project_iso_diamond() {
    let w = CompiledMap::project_iso(GridPos { x: 3, y: 1 }, 32, 16);
    // ((3 - 1) * 32 / 2, -(3 + 1) * 16 / 2) = (32, -32) pixels
    assert_eq!(w, WorldPos { x: 64, y: -64 });
}

#[test]
fn unproject_iso_round_trip() {
    for &(x, y) in &[(0i64, 0i64), (1, 0), (0, 1), (5, 7), (-3, 2), (-4, -9)] {
        let w = CompiledMap::project_iso(GridPos { x, y }, 32, 16);
        let g = CompiledMap::unproject_iso(w, 32, 16);
        assert_eq!((g.cell_x, g.cell_y), (x as i128, y as i128));
    }
}

#[test]
fn unproject_iso_rounds_to_nearest() {
    // pixel (10, -4) on 32x16: x = (10/16 + 4/8)/2 = 0.5625, y = (0.5 - 0.625)/2 = -0.0625
    let g = CompiledMap::unproject_iso(WorldPos { x: 20, y: -8 }, 32, 16);
    assert_eq!((g.cell_x, g.cell_y), (1, 0));
    // exactly half a cell rounds away from zero: pixel (8, 0) gives (0.25, -0.25);
    // pixel (16, 0) gives (0.5, -0.5)
    let g = CompiledMap::unproject_iso(WorldPos { x: 32, y: 0 }, 32, 16);
    assert_eq!((g.cell_x, g.cell_y), (1, -1));
}

#[test]
fn orientation_support() {
    assert!(Orientation::Orthogonal.is_supported());
    assert!(Orientation::Isometric.is_supported());
    assert!(!Orientation::Staggered.is_supported());
    assert!(!Orientation::Hexagonal.is_supported());
}

#[test]
fn chunk_counts_are_ceilings() {
    assert_eq!(CompiledMap::chunk_count(0, 32), 1);
    assert_eq!(CompiledMap::chunk_count(1, 32), 1);
    assert_eq!(CompiledMap::chunk_count(32, 32), 1);
    assert_eq!(CompiledMap::chunk_count(33, 32), 2);
    assert_eq!(CompiledMap::chunk_count(100, 32), 4);
    assert_eq!(CompiledMap::chunk_count(u32::MAX, MAX_CHUNK_EXTENT), 1048576);
}

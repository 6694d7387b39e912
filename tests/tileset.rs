use tiled_map::tileset::{TileImage, Tileset, TilesetIndex};

fn tileset(first_gid: u32, tile_count: u32) -> Tileset {
    Tileset {
        first_gid,
        tile_width: 16,
        tile_height: 16,
        spacing: 0,
        tile_count,
        image: Some(TileImage { source: "tiles.png".to_string(), width: 160, height: 16 }),
    }
}

#[test]
fn resolve_within_one_tileset() {
    let index = TilesetIndex::new(&vec![tileset(1, 10)]);
    assert_eq!(index.resolve(1), Some(1));
    assert_eq!(index.resolve(10), Some(1));
    assert_eq!(index.resolve(11), None);
    assert_eq!(index.resolve(0), None);
}

#[test]
fn resolve_across_tilesets() {
    let index = TilesetIndex::new(&vec![tileset(1, 10), tileset(11, 5)]);
    assert_eq!(index.resolve(10), Some(1));
    assert_eq!(index.resolve(11), Some(11));
    assert_eq!(index.resolve(15), Some(11));
    assert_eq!(index.resolve(16), None);
}

#[test]
fn overlapping_ranges_keep_the_first_tileset() {
    let index = TilesetIndex::new(&vec![tileset(1, 10), tileset(5, 10)]);
    assert_eq!(index.resolve(7), Some(1));
    assert_eq!(index.resolve(12), Some(5));
}

#[test]
fn atlas_columns_and_sprite_grid() {
    let mut t = tileset(1, 10);
    assert_eq!(t.atlas_columns(), 10);
    assert_eq!(t.sprite_grid(), (10, 1));
    // 3 tiles of 16 with 2 spacing fit in 52 pixels: (52 + 2) / 18
    t.spacing = 2;
    t.image = Some(TileImage { source: "s.png".to_string(), width: 52, height: 34 });
    assert_eq!(t.atlas_columns(), 3);
    assert_eq!(t.sprite_grid(), (3, 2));
    assert!(t.owns_gid(10));
    assert!(!t.owns_gid(11));
}

#[test]
fn sprite_gids_cover_the_whole_tiles() {
    let mut t = tileset(5, 10);
    t.image = Some(TileImage { source: "s.png".to_string(), width: 40, height: 33 });
    // 2 columns by 2 rows of 16 pixel tiles
    assert_eq!(t.sprite_gids(), vec![5, 6, 7, 8]);
    t.first_gid = u32::MAX - 1;
    assert_eq!(t.sprite_gids(), vec![u32::MAX - 1, u32::MAX]);
}

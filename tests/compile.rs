use tiled_map::chunk::{LayerTile, Rect, Tile, DEFAULT_CHUNK_EXTENT};
use tiled_map::compile::{CompileError, LayerData, MapLayer};
use tiled_map::geometry::Orientation;
use tiled_map::map::{CompiledMap, MapDescription};
use tiled_map::tileset::{TileImage, Tileset};

fn cell(gid: u32) -> LayerTile {
    LayerTile { gid, flip_h: false, flip_v: false, flip_d: false }
}

fn tileset16(first_gid: u32, tile_count: u32, image_width: u32) -> Tileset {
    Tileset {
        first_gid,
        tile_width: 16,
        tile_height: 16,
        spacing: 0,
        tile_count,
        image: Some(TileImage { source: "tiles.png".to_string(), width: image_width, height: 16 }),
    }
}

fn two_by_two(orientation: Orientation) -> MapDescription {
    MapDescription {
        width: 2,
        height: 2,
        tile_width: 16,
        tile_height: 16,
        orientation,
        tilesets: vec![tileset16(1, 1, 16)],
        layers: vec![MapLayer {
            visible: true,
            tiles: LayerData::Finite(vec![vec![cell(0), cell(1)], vec![cell(0), cell(0)]]),
        }],
        object_groups: vec![],
    }
}

#[test]
fn single_tile_map_compiles_to_one_quad() {
    let m = CompiledMap::compile(two_by_two(Orientation::Orthogonal), DEFAULT_CHUNK_EXTENT).unwrap();
    assert_eq!(m.layers.len(), 1);
    let tl = &m.layers[0].tileset_layers[0];
    assert_eq!(tl.tileset_guid, 1);
    assert_eq!(tl.tile_size, (16, 16));
    assert_eq!(tl.chunks.len(), 1);
    assert_eq!(tl.chunks[0].len(), 1);
    let chunk = &tl.chunks[0][0];
    assert_eq!(chunk.tiles.len(), 32);
    assert_eq!(chunk.tiles[0].len(), 32);
    let t = chunk.tiles[1][0];
    assert_eq!(t.tile_id, 1);
    assert_eq!(t.pos, (1, 0));
    // x in [16, 32], y in [-16, 0] pixels
    assert_eq!(t.vertex, Rect { min_x: 32, min_y: -32, max_x: 64, max_y: 0 });
    // [0, 0, 1, 1] once divided by the 16x16 image
    assert_eq!(t.uv, Rect { min_x: 0, min_y: 0, max_x: 16, max_y: 16 });
    assert_eq!(chunk.tiles[0][0], Tile::empty(0, 0));
    assert_eq!(chunk.tiles[5][7], Tile::empty(5, 7));

    assert_eq!(m.meshes.len(), 1);
    let (layer, tileset, mesh) = &m.meshes[0];
    assert_eq!((*layer, *tileset), (0, 1));
    assert_eq!(mesh.positions, vec![(32, -32), (32, 0), (64, 0), (64, -32)]);
    assert_eq!(mesh.uvs, vec![(0, 16), (0, 0), (16, 0), (16, 16)]);
    assert_eq!(mesh.indices, vec![0, 2, 1, 0, 3, 2]);
    assert_eq!(m.asset_dependencies, vec!["tiles.png".to_string()]);
    assert_eq!(m.tile_size, (16, 16));
}

#[test]
fn isometric_vertex_rect() {
    let m = CompiledMap::compile(two_by_two(Orientation::Isometric), DEFAULT_CHUNK_EXTENT).unwrap();
    let t = m.layers[0].tileset_layers[0].chunks[0][0].tiles[1][0];
    // anchor (8, -8) pixels; box [0, 16] x [-24, -8]
    assert_eq!(t.vertex, Rect { min_x: 0, min_y: -48, max_x: 32, max_y: -16 });
}

#[test]
fn atlas_offsets_follow_columns_and_spacing() {
    let ts = Tileset {
        first_gid: 5,
        tile_width: 16,
        tile_height: 16,
        spacing: 2,
        tile_count: 9,
        image: Some(TileImage { source: "a.png".to_string(), width: 52, height: 52 }),
    };
    // local index 4: column 1, row 1 of a 3-column sheet
    let t = CompiledMap::build_tile(Orientation::Orthogonal, &ts, 0, 0, 0, 0, &cell(9));
    assert_eq!(t.uv, Rect { min_x: 16, min_y: 16, max_x: 32, max_y: 32 });
    // local index 0 lies at minus the spacing
    let t = CompiledMap::build_tile(Orientation::Orthogonal, &ts, 0, 0, 0, 0, &cell(5));
    assert_eq!(t.uv, Rect { min_x: -2, min_y: -2, max_x: 14, max_y: 14 });
    // orthogonal boxes grow by the spacing
    assert_eq!(t.vertex, Rect { min_x: 0, min_y: -36, max_x: 36, max_y: 0 });
    // a gid of another tileset leaves the cell empty
    let t = CompiledMap::build_tile(Orientation::Orthogonal, &ts, 3, 4, 1, 2, &cell(14));
    assert_eq!(t, Tile::empty(1, 2));
}

#[test]
fn chunk_grid_of_a_larger_map() {
    let grid = vec![vec![cell(1); 70]; 33];
    let d = MapDescription {
        width: 70,
        height: 33,
        tile_width: 16,
        tile_height: 16,
        orientation: Orientation::Orthogonal,
        tilesets: vec![tileset16(1, 1, 16)],
        layers: vec![MapLayer { visible: true, tiles: LayerData::Finite(grid) }],
        object_groups: vec![],
    };
    let m = CompiledMap::compile(d, DEFAULT_CHUNK_EXTENT).unwrap();
    let tl = &m.layers[0].tileset_layers[0];
    assert_eq!(tl.chunks.len(), 3);
    assert_eq!(tl.chunks[2].len(), 2);
    assert_eq!(tl.chunks[2][1].position, (2, 1));
    // every chunk draws at least one tile
    assert_eq!(m.meshes.len(), 6);
    // the last chunk holds the 6 x 1 cells left over
    let (_, _, last) = &m.meshes[5];
    assert_eq!(last.positions.len(), 24);
    assert_eq!(last.indices.len(), 36);
    assert_eq!(last.indices[30..], [20, 22, 21, 20, 23, 22]);
}

#[test]
fn empty_map_has_one_chunk() {
    let d = MapDescription {
        width: 0,
        height: 0,
        tile_width: 16,
        tile_height: 16,
        orientation: Orientation::Orthogonal,
        tilesets: vec![tileset16(1, 1, 16)],
        layers: vec![MapLayer { visible: true, tiles: LayerData::Finite(vec![]) }],
        object_groups: vec![],
    };
    let m = CompiledMap::compile(d, 8).unwrap();
    let tl = &m.layers[0].tileset_layers[0];
    assert_eq!(tl.chunks.len(), 1);
    assert_eq!(tl.chunks[0].len(), 1);
    assert_eq!(tl.chunks[0][0].tiles.len(), 8);
    assert!(m.meshes.is_empty());
}

#[test]
fn hidden_layers_are_skipped() {
    let mut d = two_by_two(Orientation::Orthogonal);
    d.layers.insert(0, MapLayer { visible: false, tiles: LayerData::Infinite });
    let m = CompiledMap::compile(d, DEFAULT_CHUNK_EXTENT).unwrap();
    assert_eq!(m.layers.len(), 1);
    assert_eq!(m.meshes[0].0, 0);
}

#[test]
fn each_tileset_gets_its_own_layer_and_mesh() {
    let mut d = two_by_two(Orientation::Orthogonal);
    d.tilesets.push(tileset16(2, 1, 16));
    d.layers[0].tiles = LayerData::Finite(vec![vec![cell(2), cell(1)], vec![cell(0), cell(2)]]);
    let m = CompiledMap::compile(d, DEFAULT_CHUNK_EXTENT).unwrap();
    assert_eq!(m.layers[0].tileset_layers.len(), 2);
    assert_eq!(m.meshes.len(), 2);
    assert_eq!((m.meshes[0].0, m.meshes[0].1), (0, 1));
    assert_eq!((m.meshes[1].0, m.meshes[1].1), (0, 2));
    assert_eq!(m.meshes[0].2.positions.len(), 4);
    assert_eq!(m.meshes[1].2.positions.len(), 8);
}

#[test]
fn unsupported_orientation_is_an_error() {
    let r = CompiledMap::compile(two_by_two(Orientation::Hexagonal), DEFAULT_CHUNK_EXTENT);
    assert_eq!(r.err(), Some(CompileError::UnsupportedOrientation));
    let r = CompiledMap::compile(two_by_two(Orientation::Staggered), DEFAULT_CHUNK_EXTENT);
    assert_eq!(r.err(), Some(CompileError::UnsupportedOrientation));
}

#[test]
fn tileset_without_image_is_an_error() {
    let mut d = two_by_two(Orientation::Orthogonal);
    d.tilesets.push(Tileset { image: None, ..tileset16(2, 1, 16) });
    let r = CompiledMap::compile(d, DEFAULT_CHUNK_EXTENT);
    assert_eq!(r.err(), Some(CompileError::MissingImage { first_gid: 2 }));
}

#[test]
fn image_narrower_than_a_tile_is_an_error() {
    let mut d = two_by_two(Orientation::Orthogonal);
    d.tilesets[0] = tileset16(1, 1, 8);
    let r = CompiledMap::compile(d, DEFAULT_CHUNK_EXTENT);
    assert_eq!(r.err(), Some(CompileError::EmptyAtlas { first_gid: 1 }));
}

#[test]
fn unused_narrow_tileset_compiles() {
    let mut d = two_by_two(Orientation::Orthogonal);
    d.tilesets.push(tileset16(2, 1, 8));
    let m = CompiledMap::compile(d, DEFAULT_CHUNK_EXTENT).unwrap();
    assert_eq!(m.layers[0].tileset_layers.len(), 2);
    assert_eq!(m.layers[0].tileset_layers[1].tileset_guid, 2);
    assert_eq!(m.meshes.len(), 1);
}

#[test]
fn narrow_tileset_used_only_by_a_hidden_layer_compiles() {
    let mut d = two_by_two(Orientation::Orthogonal);
    d.tilesets.push(tileset16(2, 1, 8));
    d.layers.push(MapLayer { visible: false, tiles: LayerData::Finite(vec![vec![cell(2)]]) });
    assert!(CompiledMap::compile(d, DEFAULT_CHUNK_EXTENT).is_ok());
}

#[test]
fn empty_map_with_narrow_tileset_has_one_chunk() {
    let d = MapDescription {
        width: 0,
        height: 0,
        tile_width: 16,
        tile_height: 16,
        orientation: Orientation::Orthogonal,
        tilesets: vec![tileset16(1, 1, 8)],
        layers: vec![MapLayer { visible: true, tiles: LayerData::Finite(vec![]) }],
        object_groups: vec![],
    };
    let m = CompiledMap::compile(d, DEFAULT_CHUNK_EXTENT).unwrap();
    let tl = &m.layers[0].tileset_layers[0];
    assert_eq!((tl.chunks.len(), tl.chunks[0].len()), (1, 1));
    assert!(m.meshes.is_empty());
}

#[test]
fn draws_tileset_looks_at_visible_cells() {
    let d = two_by_two(Orientation::Orthogonal);
    assert!(CompiledMap::draws_tileset(&d.layers, &tileset16(1, 1, 16), 2, 2));
    assert!(!CompiledMap::draws_tileset(&d.layers, &tileset16(2, 5, 16), 2, 2));
}

#[test]
fn visible_infinite_layer_is_an_error() {
    let mut d = two_by_two(Orientation::Orthogonal);
    d.layers.push(MapLayer { visible: true, tiles: LayerData::Infinite });
    let r = CompiledMap::compile(d, DEFAULT_CHUNK_EXTENT);
    assert_eq!(r.err(), Some(CompileError::InfiniteLayer { layer: 1 }));
}

#[test]
fn map_center() {
    let m = CompiledMap::compile(two_by_two(Orientation::Orthogonal), DEFAULT_CHUNK_EXTENT).unwrap();
    // centre (16, -16) pixels, in quarter-pixels
    let c = m.center();
    assert_eq!((c.x, c.y), (64, -64));
    let m = CompiledMap::compile(two_by_two(Orientation::Isometric), DEFAULT_CHUNK_EXTENT).unwrap();
    // centre (0, -16) pixels
    let c = m.center();
    assert_eq!((c.x, c.y), (0, -64));
}

//! Compilation of a map description into tileset layers and chunk meshes.
use vstd::prelude::*;

use crate::chunk::{
    chunk_count, grid_fits, tileset_layer_matches, Chunk, Layer, LayerTile, Tile, TilesetLayer,
    MAX_CHUNK_EXTENT,
};
use crate::geometry::Orientation;
use crate::map::CompiledMap;
use crate::mesh::{chunk_bounded, chunk_mesh, quad_count, tiles_in_order, MeshBuffer};
use crate::tileset::Tileset;

verus! {

/// The cells of a map layer.
#[derive(Clone, Debug)]
pub enum LayerData {
    /// A dense grid, indexed `[y][x]`.
    Finite(Vec<Vec<LayerTile>>),
    /// A layer streamed in chunks, which maps compiled here do not support.
    Infinite,
}

/// A tile layer of the map description.
#[derive(Clone, Debug)]
pub struct MapLayer {
    pub visible: bool,
    pub tiles: LayerData,
}

/// Why a map cannot be compiled.
#[derive(Clone, Copy, Debug, PartialEq, Eq, Structural)]
pub enum CompileError {
    /// The map is neither orthogonal nor isometric.
    UnsupportedOrientation,
    /// A tileset has no image.
    MissingImage { first_gid: u32 },
    /// A visible layer draws a tile of a tileset whose image is narrower
    /// than one tile.
    EmptyAtlas { first_gid: u32 },
    /// A visible layer is not a dense grid.
    InfiniteLayer { layer: usize },
}

/// A mesh as a triple of positions, texture coordinates and indices.
pub type MeshView = (Seq<(i128, i128)>, Seq<(i128, i128)>, Seq<u32>);

/// The first tileset, from `i` on, that has no image.
pub open spec fn tileset_error_from(ts: Seq<Tileset>, i: int) -> Option<CompileError>
    decreases ts.len() - i,
{
    if i < 0 || i >= ts.len() {
        None
    } else if ts[i].image is None {
        Some(CompileError::MissingImage { first_gid: ts[i].first_gid })
    } else {
        tileset_error_from(ts, i + 1)
    }
}

/// Whether every visible dense layer is a `width` x `height` grid.
pub open spec fn layers_fit(layers: Seq<MapLayer>, width: int, height: int) -> bool {
    forall|i: int| 0 <= i < layers.len() && (#[trigger] layers[i]).visible && layers[i].tiles is Finite
        ==> grid_fits(grid_of(layers[i]), width, height)
}

/// Whether some cell of a visible dense layer holds a gid of `ts`.
pub open spec fn tileset_drawn(layers: Seq<MapLayer>, ts: Tileset, width: int, height: int) -> bool {
    exists|l: int, y: int, x: int|
        0 <= l < layers.len() && layers[l].visible && layers[l].tiles is Finite && 0 <= y < height && 0 <= x
            < width && ts.owns((#[trigger] grid_of(layers[l])[y]@[x]).gid as int)
}

/// The first tileset, from `i` on, whose tiles are drawn but cannot be cut
/// from its image.
pub open spec fn atlas_error_from(
    layers: Seq<MapLayer>,
    ts: Seq<Tileset>,
    width: int,
    height: int,
    i: int,
) -> Option<CompileError>
    decreases ts.len() - i,
{
    if i < 0 || i >= ts.len() {
        None
    } else if !ts[i].usable() && tileset_drawn(layers, ts[i], width, height) {
        Some(CompileError::EmptyAtlas { first_gid: ts[i].first_gid })
    } else {
        atlas_error_from(layers, ts, width, height, i + 1)
    }
}

/// The first visible layer, from `i` on, that is not a dense grid.
pub open spec fn layer_error_from(layers: Seq<MapLayer>, i: int) -> Option<CompileError>
    decreases layers.len() - i,
{
    if i < 0 || i >= layers.len() {
        None
    } else if layers[i].visible && layers[i].tiles is Infinite {
        Some(CompileError::InfiniteLayer { layer: i as usize })
    } else {
        layer_error_from(layers, i + 1)
    }
}

/// The visible layers, in order.
pub open spec fn visible_layers(layers: Seq<MapLayer>) -> Seq<MapLayer>
    decreases layers.len(),
{
    if layers.len() == 0 {
        Seq::empty()
    } else if layers.last().visible {
        visible_layers(layers.drop_last()).push(layers.last())
    } else {
        visible_layers(layers.drop_last())
    }
}

pub open spec fn grid_of(l: MapLayer) -> Seq<Vec<LayerTile>> {
    match l.tiles {
        LayerData::Finite(g) => g@,
        LayerData::Infinite => Seq::empty(),
    }
}

/// Meshes of the chunks in `col`, tagged with the layer and tileset keys.
pub open spec fn column_meshes(col: Seq<Chunk>, layer: u32, first_gid: u32) -> Seq<(u32, u32, MeshView)>
    decreases col.len(),
{
    if col.len() == 0 {
        Seq::empty()
    } else {
        let rest = column_meshes(col.drop_last(), layer, first_gid);
        match chunk_mesh(col.last(), first_gid) {
            Some(m) => rest.push((layer, first_gid, m)),
            None => rest,
        }
    }
}

/// Meshes of a tileset layer's chunks, column by column.
pub open spec fn chunk_meshes(cols: Seq<Vec<Chunk>>, layer: u32, first_gid: u32) -> Seq<(u32, u32, MeshView)>
    decreases cols.len(),
{
    if cols.len() == 0 {
        Seq::empty()
    } else {
        chunk_meshes(cols.drop_last(), layer, first_gid) + column_meshes(cols.last()@, layer, first_gid)
    }
}

/// Meshes of a layer, tileset layer by tileset layer.
pub open spec fn layer_meshes(tls: Seq<TilesetLayer>, layer: u32) -> Seq<(u32, u32, MeshView)>
    decreases tls.len(),
{
    if tls.len() == 0 {
        Seq::empty()
    } else {
        layer_meshes(tls.drop_last(), layer) + chunk_meshes(tls.last().chunks@, layer, tls.last().tileset_guid)
    }
}

/// Meshes of all layers, the layer key being the layer's index.
pub open spec fn map_meshes(layers: Seq<Layer>) -> Seq<(u32, u32, MeshView)>
    decreases layers.len(),
{
    if layers.len() == 0 {
        Seq::empty()
    } else {
        map_meshes(layers.drop_last()) + layer_meshes(layers.last().tileset_layers@, (layers.len() - 1) as u32)
    }
}

pub open spec fn meshes_view(m: Seq<(u32, u32, MeshBuffer)>) -> Seq<(u32, u32, MeshView)> {
    m.map_values(|e: (u32, u32, MeshBuffer)| (e.0, e.1, e.2.view_tuple()))
}

/// Whether every chunk of the columns `cols` is within the size bounds of a chunk.
pub open spec fn chunks_bounded(cols: Seq<Vec<Chunk>>) -> bool {
    forall|i: int, j: int| 0 <= i < cols.len() && 0 <= j < cols[i]@.len() ==> chunk_bounded(#[trigger] cols[i]@[j])
}

/// Whether `layer` is the compiled form of the visible map layer `src`.
pub open spec fn layer_matches(
    layer: Layer,
    src: MapLayer,
    orientation: Orientation,
    tilesets: Seq<Tileset>,
    width: int,
    height: int,
    extent: int,
) -> bool {
    &&& layer.tileset_layers@.len() == tilesets.len()
    &&& forall|t: int| 0 <= t < tilesets.len() ==> tileset_layer_matches(
        #[trigger] layer.tileset_layers@[t], orientation, tilesets[t], grid_of(src), width, height, extent)
}

pub proof fn lemma_matches_bounded(tl: TilesetLayer, o: Orientation, ts: Tileset, g: Seq<Vec<LayerTile>>, w: int, h: int, e: int)
    requires
        tileset_layer_matches(tl, o, ts, g, w, h, e),
        1 <= e <= MAX_CHUNK_EXTENT,
    ensures
        chunks_bounded(tl.chunks@),
{
    assert forall|i: int, j: int| 0 <= i < tl.chunks@.len() && 0 <= j < tl.chunks@[i]@.len()
        implies chunk_bounded(#[trigger] tl.chunks@[i]@[j]) by {
        assert(crate::chunk::chunk_matches(tl.chunks@[i]@[j], o, ts, g, w, h, e, i, j));
    }
}

impl CompiledMap {
    /// Meshes of a tileset layer's chunks, tagged with `layer` and the tileset key.
    pub fn tileset_layer_meshes(tl: &TilesetLayer, layer: u32, out: &mut Vec<(u32, u32, MeshBuffer)>)
        requires
            chunks_bounded(tl.chunks@),
        ensures
            meshes_view(final(out)@) == meshes_view(old(out)@) + chunk_meshes(tl.chunks@, layer, tl.tileset_guid),
    {
        let ghost start = meshes_view(out@);
        let mut x: usize = 0;
        while x < tl.chunks.len()
            invariant
                x <= tl.chunks@.len(),
                chunks_bounded(tl.chunks@),
                meshes_view(out@) == start + chunk_meshes(tl.chunks@.take(x as int), layer, tl.tileset_guid),
            decreases tl.chunks@.len() - x,
        {
            let col = &tl.chunks[x];
            let ghost mid = meshes_view(out@);
            let mut y: usize = 0;
            while y < col.len()
                invariant
                    x < tl.chunks@.len(),
                    y <= col@.len(),
                    col == tl.chunks@[x as int],
                    chunks_bounded(tl.chunks@),
                    meshes_view(out@) == mid + column_meshes(col@.take(y as int), layer, tl.tileset_guid),
                decreases col@.len() - y,
            {
                let ghost before = meshes_view(out@);
                assert(col@.take(y + 1).drop_last() =~= col@.take(y as int));
                assert(chunk_bounded(tl.chunks@[x as int]@[y as int]));
                let m = CompiledMap::assemble_chunk(&col[y], tl.tileset_guid);
                match m {
                    Some(buf) => {
                        out.push((layer, tl.tileset_guid, buf));
                        assert(meshes_view(out@) =~= before.push((layer, tl.tileset_guid, buf.view_tuple())));
                    },
                    None => {},
                }
                y += 1;
            }
            assert(col@.take(col@.len() as int) =~= col@);
            assert(tl.chunks@.take(x + 1).drop_last() =~= tl.chunks@.take(x as int));
            x += 1;
        }
        assert(tl.chunks@.take(tl.chunks@.len() as int) =~= tl.chunks@);
    }

    /// Whether some cell of a visible dense layer holds a gid of `ts`.
    pub fn draws_tileset(layers: &Vec<MapLayer>, ts: &Tileset, width: u32, height: u32) -> (r: bool)
        requires
            layers_fit(layers@, width as int, height as int),
        ensures
            r == tileset_drawn(layers@, *ts, width as int, height as int),
    {
        let mut l: usize = 0;
        while l < layers.len()
            invariant
                l <= layers@.len(),
                layers_fit(layers@, width as int, height as int),
                forall|a: int, y: int, x: int| 0 <= a < l && layers@[a].visible && layers@[a].tiles is Finite
                    && 0 <= y < height && 0 <= x < width ==> !ts.owns((#[trigger] grid_of(layers@[a])[y]@[x]).gid as int),
            decreases layers@.len() - l,
        {
            let layer = &layers[l];
            if layer.visible {
                match &layer.tiles {
                    LayerData::Finite(grid) => {
                        assert(grid_fits(grid@, width as int, height as int));
                        let mut y: usize = 0;
                        while y < height as usize
                            invariant
                                l < layers@.len(),
                                *layer == layers@[l as int],
                                layer.visible,
                                layer.tiles is Finite,
                                grid@ == grid_of(*layer),
                                grid_fits(grid@, width as int, height as int),
                                y <= height,
                                forall|a: int, b: int, x: int| 0 <= a < l && layers@[a].visible && layers@[a].tiles is Finite
                                    && 0 <= b < height && 0 <= x < width ==> !ts.owns((#[trigger] grid_of(layers@[a])[b]@[x]).gid as int),
                                forall|b: int, x: int| 0 <= b < y && 0 <= x < width ==> !ts.owns((#[trigger] grid@[b]@[x]).gid as int),
                            decreases height - y,
                        {
                            let row = &grid[y];
                            let mut x: usize = 0;
                            while x < width as usize
                                invariant
                                    l < layers@.len(),
                                    *layer == layers@[l as int],
                                    layer.visible,
                                    layer.tiles is Finite,
                                    grid@ == grid_of(*layer),
                                    y < height,
                                    *row == grid@[y as int],
                                    grid_fits(grid@, width as int, height as int),
                                    x <= width,
                                    forall|c: int| 0 <= c < x ==> !ts.owns((#[trigger] row@[c]).gid as int),
                                decreases width - x,
                            {
                                if ts.owns_gid(row[x].gid) {
                                    assert(ts.owns(grid_of(layers@[l as int])[y as int]@[x as int].gid as int));
                                    return true;
                                }
                                x += 1;
                            }
                            y += 1;
                        }
                    },
                    LayerData::Infinite => {},
                }
            }
            l += 1;
        }
        false
    }
}

/// Whether every tile of every chunk of the columns is empty.
pub open spec fn chunks_empty(cols: Seq<Vec<Chunk>>) -> bool {
    forall|i: int, j: int, a: int, b: int|
        0 <= i < cols.len() && 0 <= j < cols[i]@.len() && 0 <= a < cols[i]@[j].tiles@.len()
            && 0 <= b < cols[i]@[j].tiles@[a]@.len() ==> (#[trigger] cols[i]@[j].tiles@[a]@[b]).tile_id == 0
}

proof fn lemma_tiles_in_order_empty(cols: Seq<Vec<Tile>>)
    requires
        forall|a: int, b: int| 0 <= a < cols.len() && 0 <= b < cols[a]@.len() ==> (#[trigger] cols[a]@[b]).tile_id == 0,
    ensures
        forall|k: int| 0 <= k < tiles_in_order(cols).len() ==> (#[trigger] tiles_in_order(cols)[k]).tile_id == 0,
    decreases cols.len(),
{
    if cols.len() > 0 {
        let d = cols.drop_last();
        assert forall|a: int, b: int| 0 <= a < d.len() && 0 <= b < d[a]@.len() implies (#[trigger] d[a]@[b]).tile_id == 0 by {
            assert(d[a] == cols[a]);
        }
        lemma_tiles_in_order_empty(d);
        let t = tiles_in_order(cols);
        assert forall|k: int| 0 <= k < t.len() implies (#[trigger] t[k]).tile_id == 0 by {
            let n = tiles_in_order(d).len();
            if k >= n {
                assert(t[k] == cols[cols.len() - 1]@[k - n]);
            }
        }
    }
}

proof fn lemma_no_quads(tiles: Seq<Tile>, first_gid: u32)
    requires
        forall|k: int| 0 <= k < tiles.len() ==> (#[trigger] tiles[k]).tile_id == 0,
    ensures
        quad_count(tiles, first_gid) == 0,
    decreases tiles.len(),
{
    if tiles.len() > 0 {
        let d = tiles.drop_last();
        assert forall|k: int| 0 <= k < d.len() implies (#[trigger] d[k]).tile_id == 0 by {
            assert(d[k] == tiles[k]);
        }
        lemma_no_quads(d, first_gid);
        assert(tiles.last() == tiles[tiles.len() - 1]);
    }
}

proof fn lemma_column_meshes_empty(col: Seq<Chunk>, layer: u32, first_gid: u32)
    requires
        forall|j: int, a: int, b: int| 0 <= j < col.len() && 0 <= a < col[j].tiles@.len()
            && 0 <= b < col[j].tiles@[a]@.len() ==> (#[trigger] col[j].tiles@[a]@[b]).tile_id == 0,
    ensures
        column_meshes(col, layer, first_gid).len() == 0,
    decreases col.len(),
{
    if col.len() > 0 {
        let d = col.drop_last();
        assert forall|j: int, a: int, b: int| 0 <= j < d.len() && 0 <= a < d[j].tiles@.len()
            && 0 <= b < d[j].tiles@[a]@.len() implies (#[trigger] d[j].tiles@[a]@[b]).tile_id == 0 by {
            assert(d[j] == col[j]);
        }
        lemma_column_meshes_empty(d, layer, first_gid);
        let c = col[col.len() - 1];
        assert(col.last() == c);
        assert forall|a: int, b: int| 0 <= a < c.tiles@.len() && 0 <= b < c.tiles@[a]@.len()
            implies (#[trigger] c.tiles@[a]@[b]).tile_id == 0 by {
            assert(col[col.len() - 1].tiles@[a]@[b] == c.tiles@[a]@[b]);
        }
        lemma_tiles_in_order_empty(c.tiles@);
        lemma_no_quads(tiles_in_order(c.tiles@), first_gid);
    }
}

/// Chunks whose tiles are all empty give no mesh.
pub proof fn lemma_chunk_meshes_empty(cols: Seq<Vec<Chunk>>, layer: u32, first_gid: u32)
    requires
        chunks_empty(cols),
    ensures
        chunk_meshes(cols, layer, first_gid).len() == 0,
    decreases cols.len(),
{
    if cols.len() > 0 {
        let d = cols.drop_last();
        assert forall|i: int, j: int, a: int, b: int|
            0 <= i < d.len() && 0 <= j < d[i]@.len() && 0 <= a < d[i]@[j].tiles@.len()
                && 0 <= b < d[i]@[j].tiles@[a]@.len() implies (#[trigger] d[i]@[j].tiles@[a]@[b]).tile_id == 0 by {
            assert(d[i] == cols[i]);
        }
        lemma_chunk_meshes_empty(d, layer, first_gid);
        let col = cols[cols.len() - 1]@;
        assert(cols.last()@ == col);
        assert forall|j: int, a: int, b: int| 0 <= j < col.len() && 0 <= a < col[j].tiles@.len()
            && 0 <= b < col[j].tiles@[a]@.len() implies (#[trigger] col[j].tiles@[a]@[b]).tile_id == 0 by {
            assert(cols[cols.len() - 1]@[j].tiles@[a]@[b] == col[j].tiles@[a]@[b]);
        }
        lemma_column_meshes_empty(col, layer, first_gid);
    }
}

/// Tileset layers whose chunks are all empty give no mesh.
pub proof fn lemma_layer_meshes_empty(tls: Seq<TilesetLayer>, layer: u32)
    requires
        forall|t: int| 0 <= t < tls.len() ==> chunks_empty(#[trigger] tls[t].chunks@),
    ensures
        layer_meshes(tls, layer).len() == 0,
    decreases tls.len(),
{
    if tls.len() > 0 {
        let d = tls.drop_last();
        assert forall|t: int| 0 <= t < d.len() implies chunks_empty(#[trigger] d[t].chunks@) by {
            assert(d[t] == tls[t]);
        }
        lemma_layer_meshes_empty(d, layer);
        assert(tls.last() == tls[tls.len() - 1]);
        lemma_chunk_meshes_empty(tls.last().chunks@, layer, tls.last().tileset_guid);
    }
}

/// Layers whose chunks are all empty give no mesh.
pub proof fn lemma_map_meshes_empty(layers: Seq<Layer>)
    requires
        forall|k: int, t: int| 0 <= k < layers.len() && 0 <= t < layers[k].tileset_layers@.len()
            ==> chunks_empty(#[trigger] layers[k].tileset_layers@[t].chunks@),
    ensures
        map_meshes(layers).len() == 0,
    decreases layers.len(),
{
    if layers.len() > 0 {
        let d = layers.drop_last();
        assert forall|k: int, t: int| 0 <= k < d.len() && 0 <= t < d[k].tileset_layers@.len()
            implies chunks_empty(#[trigger] d[k].tileset_layers@[t].chunks@) by {
            assert(d[k] == layers[k]);
        }
        lemma_map_meshes_empty(d);
        let l = layers[layers.len() - 1];
        assert(layers.last() == l);
        assert forall|t: int| 0 <= t < l.tileset_layers@.len() implies chunks_empty(#[trigger] l.tileset_layers@[t].chunks@) by {
            assert(layers[layers.len() - 1].tileset_layers@[t] == l.tileset_layers@[t]);
        }
        lemma_layer_meshes_empty(l.tileset_layers@, (layers.len() - 1) as u32);
    }
}

} // verus!

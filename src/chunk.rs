//! Per-tile geometry and the partition of a layer into chunks.
use vstd::prelude::*;

use crate::geometry::{iso_x, iso_y, ortho_x, ortho_y, GridPos, Orientation};
use crate::map::CompiledMap;
use crate::tileset::Tileset;

verus! {

/// One cell of a layer's grid as read from the map: its gid (without flip
/// bits) and how the tile is flipped.
#[derive(Clone, Copy, Debug, PartialEq, Eq, Structural)]
pub struct LayerTile {
    pub gid: u32,
    pub flip_h: bool,
    pub flip_v: bool,
    pub flip_d: bool,
}

/// An axis-aligned rectangle given by its two corners.
#[derive(Clone, Copy, Debug, PartialEq, Eq, Structural)]
pub struct Rect {
    pub min_x: i128,
    pub min_y: i128,
    pub max_x: i128,
    pub max_y: i128,
}

/// A tile of a chunk. `vertex` is in world half-pixels; `uv` is in pixels of
/// the tileset image (divide by the image size for normalized coordinates).
#[derive(Clone, Copy, Debug, PartialEq, Eq)]
pub struct Tile {
    pub tile_id: u32,
    pub pos: (u32, u32),
    pub vertex: Rect,
    pub uv: Rect,
    pub flip_d: bool,
    pub flip_h: bool,
    pub flip_v: bool,
}

pub open spec fn rect(a: int, b: int, c: int, d: int) -> Rect {
    Rect { min_x: a as i128, min_y: b as i128, max_x: c as i128, max_y: d as i128 }
}

/// A cell that holds no tile of the tileset at hand.
pub open spec fn empty_tile(x: u32, y: u32) -> Tile {
    Tile {
        tile_id: 0,
        pos: (x, y),
        vertex: rect(0, 0, 0, 0),
        uv: rect(0, 0, 0, 0),
        flip_d: false,
        flip_h: false,
        flip_v: false,
    }
}

/// Image column of local tile `idx`, in pixels.
pub open spec fn sheet_x(ts: Tileset, idx: int) -> int {
    (idx % ts.columns()) * (ts.tile_width + ts.spacing) - ts.spacing
}

/// Image row of local tile `idx`, in pixels.
pub open spec fn sheet_y(ts: Tileset, idx: int) -> int {
    (idx / ts.columns()) * (ts.tile_height + ts.spacing) - ts.spacing
}

/// The part of the image that local tile `idx` shows.
pub open spec fn uv_rect(ts: Tileset, idx: int) -> Rect {
    rect(
        sheet_x(ts, idx),
        sheet_y(ts, idx),
        sheet_x(ts, idx) + ts.tile_width,
        sheet_y(ts, idx) + ts.tile_height,
    )
}

/// The world rectangle of the tile drawn at cell `(x, y)`, in half-pixels.
pub open spec fn vertex_rect(orientation: Orientation, ts: Tileset, x: int, y: int) -> Rect {
    let w = ts.tile_width as int;
    let h = ts.tile_height as int;
    let s = ts.spacing as int;
    if orientation is Orthogonal {
        let cx = ortho_x(x, w);
        let cy = ortho_y(y, h);
        rect(cx, cy - 2 * (h + s), cx + 2 * (w + s), cy)
    } else {
        let cx = iso_x(x, y, w);
        let cy = iso_y(x, y, h);
        rect(cx - w, cy - 2 * h, cx + w, cy)
    }
}

/// The tile that `ts` contributes at local position `(lx, ly)` for map cell
/// `(x, y)` holding `cell`.
pub open spec fn placed_tile(
    orientation: Orientation,
    ts: Tileset,
    x: int,
    y: int,
    lx: u32,
    ly: u32,
    cell: LayerTile,
) -> Tile {
    if ts.owns(cell.gid as int) {
        let idx = cell.gid - ts.first_gid;
        Tile {
            tile_id: cell.gid,
            pos: (lx, ly),
            vertex: vertex_rect(orientation, ts, x, y),
            uv: uv_rect(ts, idx),
            flip_d: cell.flip_d,
            flip_h: cell.flip_h,
            flip_v: cell.flip_v,
        }
    } else {
        empty_tile(lx, ly)
    }
}

/// The chunk extent a map is compiled with unless told otherwise.
pub const DEFAULT_CHUNK_EXTENT: u32 = 32;

/// Largest chunk extent: the vertex indices of a full chunk must fit in `u32`.
pub const MAX_CHUNK_EXTENT: u32 = 4096;

/// A fixed-size block of tiles, indexed `tiles[x][y]`.
#[derive(Debug)]
pub struct Chunk {
    pub position: (u32, u32),
    pub tiles: Vec<Vec<Tile>>,
}

/// The chunks of one layer for one tileset, indexed `chunks[x][y]`.
#[derive(Debug)]
pub struct TilesetLayer {
    pub tile_size: (u32, u32),
    pub chunks: Vec<Vec<Chunk>>,
    pub tileset_guid: u32,
}

/// One visible layer: a tileset layer per tileset, in tileset order.
#[derive(Debug)]
pub struct Layer {
    pub tileset_layers: Vec<TilesetLayer>,
}

/// Number of chunks along an axis of `n` cells: `ceil(n / e)`, at least one.
pub open spec fn chunk_count(n: int, e: int) -> int {
    if n == 0 {
        1
    } else {
        (n + e - 1) / e
    }
}

/// The chunk count along an axis is the ceiling of cells over extent: the
/// fewest chunks that cover the cells, and one for an empty axis.
pub proof fn lemma_chunk_count_is_ceiling(n: int, e: int)
    requires
        n >= 0,
        e >= 1,
    ensures
        chunk_count(n, e) >= 1,
        chunk_count(n, e) * e >= n,
        n > 0 ==> (chunk_count(n, e) - 1) * e < n,
        n == 0 ==> chunk_count(n, e) == 1,
{
    if n > 0 {
        let k = (n + e - 1) / e;
        vstd::arithmetic::div_mod::lemma_fundamental_div_mod(n + e - 1, e);
        let r = (n + e - 1) % e;
        assert(0 <= r < e) by {
            vstd::arithmetic::div_mod::lemma_mod_bound(n + e - 1, e);
        }
        assert(n + e - 1 == e * k + r);
        assert(k * e >= n) by (nonlinear_arith) requires n + e - 1 == e * k + r, r < e;
        assert((k - 1) * e < n) by (nonlinear_arith) requires n + e - 1 == e * k + r, r >= 0;
        assert(k >= 1) by (nonlinear_arith) requires k * e >= n, n > 0, e >= 1;
    }
}

/// Whether every cell of the grid that holds a gid of `ts` can be cut from
/// its image.
pub open spec fn drawable(ts: Tileset, grid: Seq<Vec<LayerTile>>, width: int, height: int) -> bool {
    forall|y: int, x: int| 0 <= y < height && 0 <= x < width && ts.owns((#[trigger] grid[y]@[x]).gid as int)
        ==> ts.usable()
}

/// Whether `grid` is a dense `width` x `height` grid, indexed `grid[y][x]`.
pub open spec fn grid_fits(grid: Seq<Vec<LayerTile>>, width: int, height: int) -> bool {
    &&& grid.len() == height
    &&& forall|j: int| 0 <= j < height ==> (#[trigger] grid[j])@.len() == width
}

/// The tile at local position `(lx, ly)` of chunk `(cx, cy)`.
pub open spec fn chunk_tile(
    orientation: Orientation,
    ts: Tileset,
    grid: Seq<Vec<LayerTile>>,
    width: int,
    height: int,
    extent: int,
    cx: int,
    cy: int,
    lx: u32,
    ly: u32,
) -> Tile {
    let x = cx * extent + lx;
    let y = cy * extent + ly;
    if x < width && y < height {
        placed_tile(orientation, ts, x, y, lx, ly, grid[y]@[x])
    } else {
        empty_tile(lx, ly)
    }
}

/// Whether `c` is chunk `(cx, cy)` of the given layer and tileset.
pub open spec fn chunk_matches(
    c: Chunk,
    orientation: Orientation,
    ts: Tileset,
    grid: Seq<Vec<LayerTile>>,
    width: int,
    height: int,
    extent: int,
    cx: int,
    cy: int,
) -> bool {
    &&& c.position == (cx as u32, cy as u32)
    &&& c.tiles@.len() == extent
    &&& forall|i: int| 0 <= i < extent ==> (#[trigger] c.tiles@[i])@.len() == extent
    &&& forall|i: int, j: int|
        0 <= i < extent && 0 <= j < extent ==> (#[trigger] c.tiles@[i]@[j]) == chunk_tile(
            orientation, ts, grid, width, height, extent, cx, cy, i as u32, j as u32)
}

/// Whether `tl` is the tileset layer of the given layer grid and tileset.
pub open spec fn tileset_layer_matches(
    tl: TilesetLayer,
    orientation: Orientation,
    ts: Tileset,
    grid: Seq<Vec<LayerTile>>,
    width: int,
    height: int,
    extent: int,
) -> bool {
    &&& tl.tile_size == (ts.tile_width, ts.tile_height)
    &&& tl.tileset_guid == ts.first_gid
    &&& tl.chunks@.len() == chunk_count(width, extent)
    &&& forall|i: int| 0 <= i < chunk_count(width, extent)
        ==> (#[trigger] tl.chunks@[i])@.len() == chunk_count(height, extent)
    &&& forall|i: int, j: int|
        0 <= i < chunk_count(width, extent) && 0 <= j < chunk_count(height, extent)
        ==> chunk_matches(#[trigger] tl.chunks@[i]@[j], orientation, ts, grid, width, height, extent, i, j)
}

impl Tile {
    pub fn empty(x: u32, y: u32) -> (r: Tile)
        ensures
            r == empty_tile(x, y),
    {
        let z = Rect { min_x: 0, min_y: 0, max_x: 0, max_y: 0 };
        Tile { tile_id: 0, pos: (x, y), vertex: z, uv: z, flip_d: false, flip_h: false, flip_v: false }
    }
}

proof fn lemma_sheet_bounds(ts: Tileset, idx: int)
    requires
        ts.usable(),
        0 <= idx < 0x1_0000_0000,
    ensures
        -0x1_0000_0000 <= sheet_x(ts, idx) <= 0x4_0000_0000,
        -0x1_0000_0000 <= sheet_y(ts, idx) <= 0x4_0000_0000_0000_0000,
{
    let c = ts.columns();
    let d = ts.tile_width + ts.spacing;
    let e = ts.tile_height + ts.spacing;
    let wd = ts.image->0.width + ts.spacing;
    assert(c == wd / d);
    assert(0 <= idx % c < c) by (nonlinear_arith) requires c >= 1;
    assert(c * d <= wd) by (nonlinear_arith) requires c == wd / d, d > 0, wd >= 0;
    assert((idx % c) * d <= c * d) by (nonlinear_arith) requires 0 <= idx % c < c, d >= 0;
    assert(0 <= (idx % c) * d) by (nonlinear_arith) requires 0 <= idx % c, d >= 0;
    assert(0 <= idx / c <= idx) by (nonlinear_arith) requires c >= 1, idx >= 0;
    assert(0 <= (idx / c) * e <= 0x1_0000_0000 * 0x2_0000_0000) by (nonlinear_arith)
        requires 0 <= idx / c <= idx, idx < 0x1_0000_0000, 0 <= e < 0x2_0000_0000;
}

impl CompiledMap {
    /// Computes the tile that `ts` contributes at local position `(lx, ly)`
    /// for map cell `(x, y)`.
    pub fn build_tile(
        orientation: Orientation,
        ts: &Tileset,
        x: u32,
        y: u32,
        lx: u32,
        ly: u32,
        cell: &LayerTile,
    ) -> (r: Tile)
        requires
            orientation.spec_supported(),
            ts.owns(cell.gid as int) ==> ts.usable(),
        ensures
            r == placed_tile(orientation, *ts, x as int, y as int, lx, ly, *cell),
    {
        if !ts.owns_gid(cell.gid) {
            return Tile::empty(lx, ly);
        }
        let idx = (cell.gid - ts.first_gid) as u64;
        let cols = ts.atlas_columns();
        proof {
            lemma_sheet_bounds(*ts, idx as int);
        }
        let w = ts.tile_width as i128;
        let h = ts.tile_height as i128;
        let s = ts.spacing as i128;
        let sx = ((idx % cols) as i128) * (w + s) - s;
        let sy = ((idx / cols) as i128) * (h + s) - s;
        let uv = Rect { min_x: sx, min_y: sy, max_x: sx + w, max_y: sy + h };
        let pos = GridPos { x: x as i64, y: y as i64 };
        let vertex = match orientation {
            Orientation::Orthogonal => {
                let c = CompiledMap::project_ortho(pos, ts.tile_width, ts.tile_height);
                assert(-0x4_0000_0000_0000_0000 <= c.y <= 0 && 0 <= c.x <= 0x4_0000_0000_0000_0000)
                    by (nonlinear_arith)
                    requires c.x == 2 * w * (x as int), c.y == -(2 * h * (y as int)),
                        0 <= w < 0x1_0000_0000, 0 <= h < 0x1_0000_0000,
                        0 <= x < 0x1_0000_0000, 0 <= y < 0x1_0000_0000;
                Rect { min_x: c.x, min_y: c.y - 2 * (h + s), max_x: c.x + 2 * (w + s), max_y: c.y }
            },
            _ => {
                let c = CompiledMap::project_iso(pos, ts.tile_width, ts.tile_height);
                assert(-0x4_0000_0000_0000_0000 <= c.y <= 0x4_0000_0000_0000_0000
                    && -0x4_0000_0000_0000_0000 <= c.x <= 0x4_0000_0000_0000_0000)
                    by (nonlinear_arith)
                    requires c.x == (x - y) * w, c.y == -((x + y) * h),
                        0 <= w < 0x1_0000_0000, 0 <= h < 0x1_0000_0000,
                        0 <= x < 0x1_0000_0000, 0 <= y < 0x1_0000_0000;
                Rect { min_x: c.x - w, min_y: c.y - 2 * h, max_x: c.x + w, max_y: c.y }
            },
        };
        Tile {
            tile_id: cell.gid,
            pos: (lx, ly),
            vertex,
            uv,
            flip_d: cell.flip_d,
            flip_h: cell.flip_h,
            flip_v: cell.flip_v,
        }
    }

    /// Number of chunks along an axis of `n` cells, chunks being `extent` cells wide.
    pub fn chunk_count(n: u32, extent: u32) -> (r: u32)
        requires
            extent >= 1,
        ensures
            r == chunk_count(n as int, extent as int),
            r >= 1,
    {
        if n == 0 {
            1
        } else {
            let r = ((n as u64 + extent as u64 - 1) / extent as u64) as u32;
            assert(1 <= (n + extent - 1) / (extent as int) <= n) by (nonlinear_arith)
                requires n >= 1, extent >= 1;
            r
        }
    }

    /// Builds chunk `(cx, cy)` of a layer for one tileset.
    pub fn build_chunk(
        orientation: Orientation,
        ts: &Tileset,
        grid: &Vec<Vec<LayerTile>>,
        width: u32,
        height: u32,
        extent: u32,
        cx: u32,
        cy: u32,
    ) -> (r: Chunk)
        requires
            orientation.spec_supported(),
            drawable(*ts, grid@, width as int, height as int),
            grid_fits(grid@, width as int, height as int),
            1 <= extent <= MAX_CHUNK_EXTENT,
            cx < chunk_count(width as int, extent as int),
            cy < chunk_count(height as int, extent as int),
        ensures
            chunk_matches(r, orientation, *ts, grid@, width as int, height as int, extent as int, cx as int, cy as int),
    {
        assert(cx * extent <= width + extent && cy * extent <= height + extent) by (nonlinear_arith)
            requires cx < chunk_count(width as int, extent as int), cy < chunk_count(height as int, extent as int), extent >= 1;
        let ox = cx as u64 * extent as u64;
        let oy = cy as u64 * extent as u64;
        let mut tiles: Vec<Vec<Tile>> = Vec::new();
        let mut lx: u32 = 0;
        while lx < extent
            invariant
                lx <= extent,
                ox == cx * extent,
                oy == cy * extent,
                ox <= width + extent,
                oy <= height + extent,
                orientation.spec_supported(),
                drawable(*ts, grid@, width as int, height as int),
                grid_fits(grid@, width as int, height as int),
                1 <= extent <= MAX_CHUNK_EXTENT,
                tiles@.len() == lx,
                forall|i: int| 0 <= i < lx ==> (#[trigger] tiles@[i])@.len() == extent,
                forall|i: int, j: int| 0 <= i < lx && 0 <= j < extent ==> (#[trigger] tiles@[i]@[j]) == chunk_tile(
                    orientation, *ts, grid@, width as int, height as int, extent as int, cx as int, cy as int, i as u32, j as u32),
            decreases extent - lx,
        {
            let mut column: Vec<Tile> = Vec::new();
            let mut ly: u32 = 0;
            while ly < extent
                invariant
                    lx < extent,
                    ly <= extent,
                    ox == cx * extent,
                    oy == cy * extent,
                    ox <= width + extent,
                    oy <= height + extent,
                    orientation.spec_supported(),
                    drawable(*ts, grid@, width as int, height as int),
                    grid_fits(grid@, width as int, height as int),
                    1 <= extent <= MAX_CHUNK_EXTENT,
                    column@.len() == ly,
                    forall|j: int| 0 <= j < ly ==> (#[trigger] column@[j]) == chunk_tile(
                        orientation, *ts, grid@, width as int, height as int, extent as int, cx as int, cy as int, lx, j as u32),
                decreases extent - ly,
            {
                let x = ox + lx as u64;
                let y = oy + ly as u64;
                let t = if x < width as u64 && y < height as u64 {
                    let row = &grid[y as usize];
                    CompiledMap::build_tile(orientation, ts, x as u32, y as u32, lx, ly, &row[x as usize])
                } else {
                    Tile::empty(lx, ly)
                };
                column.push(t);
                ly += 1;
            }
            tiles.push(column);
            lx += 1;
        }
        Chunk { position: (cx, cy), tiles }
    }

    /// Partitions a layer's grid into chunks for one tileset.
    pub fn build_tileset_layer(
        orientation: Orientation,
        ts: &Tileset,
        grid: &Vec<Vec<LayerTile>>,
        width: u32,
        height: u32,
        extent: u32,
    ) -> (r: TilesetLayer)
        requires
            orientation.spec_supported(),
            drawable(*ts, grid@, width as int, height as int),
            grid_fits(grid@, width as int, height as int),
            1 <= extent <= MAX_CHUNK_EXTENT,
        ensures
            tileset_layer_matches(r, orientation, *ts, grid@, width as int, height as int, extent as int),
    {
        let ncx = CompiledMap::chunk_count(width, extent);
        let ncy = CompiledMap::chunk_count(height, extent);
        let mut chunks: Vec<Vec<Chunk>> = Vec::new();
        let mut cx: u32 = 0;
        while cx < ncx
            invariant
                cx <= ncx,
                ncx == chunk_count(width as int, extent as int),
                ncy == chunk_count(height as int, extent as int),
                orientation.spec_supported(),
                drawable(*ts, grid@, width as int, height as int),
                grid_fits(grid@, width as int, height as int),
                1 <= extent <= MAX_CHUNK_EXTENT,
                chunks@.len() == cx,
                forall|i: int| 0 <= i < cx ==> (#[trigger] chunks@[i])@.len() == ncy,
                forall|i: int, j: int| 0 <= i < cx && 0 <= j < ncy ==> chunk_matches(
                    #[trigger] chunks@[i]@[j], orientation, *ts, grid@, width as int, height as int, extent as int, i, j),
            decreases ncx - cx,
        {
            let mut column: Vec<Chunk> = Vec::new();
            let mut cy: u32 = 0;
            while cy < ncy
                invariant
                    cx < ncx,
                    cy <= ncy,
                    ncx == chunk_count(width as int, extent as int),
                    ncy == chunk_count(height as int, extent as int),
                    orientation.spec_supported(),
                    drawable(*ts, grid@, width as int, height as int),
                    grid_fits(grid@, width as int, height as int),
                    1 <= extent <= MAX_CHUNK_EXTENT,
                    column@.len() == cy,
                    forall|j: int| 0 <= j < cy ==> chunk_matches(
                        #[trigger] column@[j], orientation, *ts, grid@, width as int, height as int, extent as int, cx as int, j),
                decreases ncy - cy,
            {
                column.push(CompiledMap::build_chunk(orientation, ts, grid, width, height, extent, cx, cy));
                cy += 1;
            }
            chunks.push(column);
            cx += 1;
        }
        TilesetLayer { tile_size: (ts.tile_width, ts.tile_height), chunks, tileset_guid: ts.first_gid }
    }
}

} // verus!

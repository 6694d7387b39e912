//! Assembly of a chunk's tiles into one quad mesh.
use vstd::prelude::*;

use crate::chunk::{Chunk, Tile, MAX_CHUNK_EXTENT};
use crate::map::CompiledMap;

verus! {

/// Vertex, texture and index buffers of one chunk: a quad of four corners and
/// six indices per tile. Positions are world half-pixels; texture coordinates
/// are pixels of the tileset image.
#[derive(Clone, Debug)]
pub struct MeshBuffer {
    pub positions: Vec<(i128, i128)>,
    pub uvs: Vec<(i128, i128)>,
    pub indices: Vec<u32>,
}

/// Reorders the four texture corners of a quad by the flip flags, in the
/// fixed sequence diagonal, horizontal, vertical.
pub open spec fn flip_corners<A>(c: Seq<A>, flip_d: bool, flip_h: bool, flip_v: bool) -> Seq<A> {
    let c1 = if flip_d { seq![c[2], c[1], c[0], c[3]] } else { c };
    let c2 = if flip_h { seq![c1[3], c1[2], c1[1], c1[0]] } else { c1 };
    if flip_v {
        let r = seq![c2[3], c2[2], c2[1], c2[0]];
        seq![r[2], r[3], r[0], r[1]]
    } else {
        c2
    }
}

/// Whether the tileset with first gid `first_gid` draws `t`.
pub open spec fn emits(t: Tile, first_gid: u32) -> bool {
    t.tile_id >= first_gid && t.tile_id != 0
}

pub open spec fn quad_positions(t: Tile) -> Seq<(i128, i128)> {
    let v = t.vertex;
    seq![(v.min_x, v.min_y), (v.min_x, v.max_y), (v.max_x, v.max_y), (v.max_x, v.min_y)]
}

/// Texture corners of `t`, starting bottom-left, top-left, top-right,
/// bottom-right, then reordered by its flips.
pub open spec fn quad_uvs(t: Tile) -> Seq<(i128, i128)> {
    let u = t.uv;
    flip_corners(
        seq![(u.min_x, u.max_y), (u.min_x, u.min_y), (u.max_x, u.min_y), (u.max_x, u.max_y)],
        t.flip_d,
        t.flip_h,
        t.flip_v,
    )
}

/// Two triangles over the quad whose first corner is vertex `i`.
pub open spec fn quad_indices(i: int) -> Seq<u32> {
    seq![i as u32, (i + 2) as u32, (i + 1) as u32, i as u32, (i + 3) as u32, (i + 2) as u32]
}

/// The tiles of a chunk in buffer order: column by column.
pub open spec fn tiles_in_order(cols: Seq<Vec<Tile>>) -> Seq<Tile>
    decreases cols.len(),
{
    if cols.len() == 0 {
        Seq::empty()
    } else {
        tiles_in_order(cols.drop_last()) + cols.last()@
    }
}

pub open spec fn quad_count(tiles: Seq<Tile>, first_gid: u32) -> nat
    decreases tiles.len(),
{
    if tiles.len() == 0 {
        0
    } else {
        quad_count(tiles.drop_last(), first_gid) + if emits(tiles.last(), first_gid) { 1nat } else { 0nat }
    }
}

pub open spec fn mesh_positions(tiles: Seq<Tile>, first_gid: u32) -> Seq<(i128, i128)>
    decreases tiles.len(),
{
    if tiles.len() == 0 {
        Seq::empty()
    } else if emits(tiles.last(), first_gid) {
        mesh_positions(tiles.drop_last(), first_gid) + quad_positions(tiles.last())
    } else {
        mesh_positions(tiles.drop_last(), first_gid)
    }
}

pub open spec fn mesh_uvs(tiles: Seq<Tile>, first_gid: u32) -> Seq<(i128, i128)>
    decreases tiles.len(),
{
    if tiles.len() == 0 {
        Seq::empty()
    } else if emits(tiles.last(), first_gid) {
        mesh_uvs(tiles.drop_last(), first_gid) + quad_uvs(tiles.last())
    } else {
        mesh_uvs(tiles.drop_last(), first_gid)
    }
}

pub open spec fn mesh_indices(tiles: Seq<Tile>, first_gid: u32) -> Seq<u32>
    decreases tiles.len(),
{
    if tiles.len() == 0 {
        Seq::empty()
    } else if emits(tiles.last(), first_gid) {
        mesh_indices(tiles.drop_last(), first_gid) + quad_indices(
            4 * quad_count(tiles.drop_last(), first_gid) as int,
        )
    } else {
        mesh_indices(tiles.drop_last(), first_gid)
    }
}

/// Whether every column of the chunk holds at most `MAX_CHUNK_EXTENT` tiles,
/// and there are at most as many columns.
pub open spec fn chunk_bounded(c: Chunk) -> bool {
    &&& c.tiles@.len() <= MAX_CHUNK_EXTENT
    &&& forall|i: int| 0 <= i < c.tiles@.len() ==> (#[trigger] c.tiles@[i])@.len() <= MAX_CHUNK_EXTENT
}

/// The mesh of a chunk for one tileset; none where it draws no tile.
pub open spec fn chunk_mesh(c: Chunk, first_gid: u32) -> Option<(Seq<(i128, i128)>, Seq<(i128, i128)>, Seq<u32>)> {
    let tiles = tiles_in_order(c.tiles@);
    if quad_count(tiles, first_gid) == 0 {
        None
    } else {
        Some((mesh_positions(tiles, first_gid), mesh_uvs(tiles, first_gid), mesh_indices(tiles, first_gid)))
    }
}

impl MeshBuffer {
    pub open spec fn view_tuple(&self) -> (Seq<(i128, i128)>, Seq<(i128, i128)>, Seq<u32>) {
        (self.positions@, self.uvs@, self.indices@)
    }
}

/// Every combination of flips, applied to the corners `[a, b, c, d]`.
pub proof fn lemma_flip_table<A>(a: A, b: A, c: A, d: A)
    ensures
        ({
            let s = seq![a, b, c, d];
            &&& flip_corners(s, false, false, false) == seq![a, b, c, d]
            &&& flip_corners(s, true, false, false) == seq![c, b, a, d]
            &&& flip_corners(s, false, true, false) == seq![d, c, b, a]
            &&& flip_corners(s, false, false, true) == seq![b, a, d, c]
            &&& flip_corners(s, true, true, false) == seq![d, a, b, c]
            &&& flip_corners(s, true, false, true) == seq![b, c, d, a]
            &&& flip_corners(s, false, true, true) == seq![c, d, a, b]
            &&& flip_corners(s, true, true, true) == seq![a, d, c, b]
        }),
{
    let s = seq![a, b, c, d];
    assert(flip_corners(s, false, false, false) =~= seq![a, b, c, d]);
    assert(flip_corners(s, true, false, false) =~= seq![c, b, a, d]);
    assert(flip_corners(s, false, true, false) =~= seq![d, c, b, a]);
    assert(flip_corners(s, false, false, true) =~= seq![b, a, d, c]);
    assert(flip_corners(s, true, true, false) =~= seq![d, a, b, c]);
    assert(flip_corners(s, true, false, true) =~= seq![b, c, d, a]);
    assert(flip_corners(s, false, true, true) =~= seq![c, d, a, b]);
    assert(flip_corners(s, true, true, true) =~= seq![a, d, c, b]);
}

proof fn lemma_mesh_lens(tiles: Seq<Tile>, first_gid: u32)
    ensures
        mesh_positions(tiles, first_gid).len() == 4 * quad_count(tiles, first_gid),
        mesh_uvs(tiles, first_gid).len() == 4 * quad_count(tiles, first_gid),
    decreases tiles.len(),
{
    if tiles.len() > 0 {
        lemma_mesh_lens(tiles.drop_last(), first_gid);
    }
}

/// The quad of the `k`-th tile, where it is drawn, takes the four entries of
/// the buffers after the quads of the tiles before it: its corners in order,
/// and its texture corners reordered by its flips.
pub proof fn lemma_tile_quad(tiles: Seq<Tile>, k: int, first_gid: u32)
    requires
        0 <= k < tiles.len(),
        emits(tiles[k], first_gid),
    ensures
        ({
            let q = 4 * quad_count(tiles.take(k), first_gid) as int;
            &&& mesh_positions(tiles, first_gid).subrange(q, q + 4) == quad_positions(tiles[k])
            &&& mesh_uvs(tiles, first_gid).subrange(q, q + 4) == quad_uvs(tiles[k])
        }),
    decreases tiles.len(),
{
    let q = 4 * quad_count(tiles.take(k), first_gid) as int;
    let d = tiles.drop_last();
    if k == tiles.len() - 1 {
        assert(tiles.take(k) =~= d);
        lemma_mesh_lens(d, first_gid);
        assert(mesh_positions(tiles, first_gid).subrange(q, q + 4) =~= quad_positions(tiles[k]));
        assert(mesh_uvs(tiles, first_gid).subrange(q, q + 4) =~= quad_uvs(tiles[k]));
    } else {
        assert(d.take(k) =~= tiles.take(k));
        assert(d[k] == tiles[k]);
        lemma_tile_quad(d, k, first_gid);
        lemma_mesh_lens(d, first_gid);
        lemma_quad_count_prefix(d.take(k + 1), d.skip(k + 1), first_gid);
        assert(d.take(k + 1) + d.skip(k + 1) =~= d);
        assert(d.take(k + 1).drop_last() =~= d.take(k));
        assert(mesh_positions(tiles, first_gid).subrange(q, q + 4) =~= mesh_positions(d, first_gid).subrange(q, q + 4));
        assert(mesh_uvs(tiles, first_gid).subrange(q, q + 4) =~= mesh_uvs(d, first_gid).subrange(q, q + 4));
    }
}

/// In a chunk's mesh, each drawn tile's texture corners, which start
/// bottom-left `a`, top-left `b`, top-right `c`, bottom-right `d`, come out
/// in the order its flips give: `[c, b, a, d]` for a diagonal flip alone,
/// `[d, c, b, a]` for a horizontal one alone, `[b, a, d, c]` for a vertical
/// one alone; its corners come out unflipped.
pub proof fn lemma_chunk_flip_order(c: Chunk, first_gid: u32, k: int)
    requires
        0 <= k < tiles_in_order(c.tiles@).len(),
        emits(tiles_in_order(c.tiles@)[k], first_gid),
    ensures
        ({
            let tiles = tiles_in_order(c.tiles@);
            let t = tiles[k];
            let q = 4 * quad_count(tiles.take(k), first_gid) as int;
            let uvs = mesh_uvs(tiles, first_gid).subrange(q, q + 4);
            let a = (t.uv.min_x, t.uv.max_y);
            let b = (t.uv.min_x, t.uv.min_y);
            let cc = (t.uv.max_x, t.uv.min_y);
            let d = (t.uv.max_x, t.uv.max_y);
            &&& mesh_positions(tiles, first_gid).subrange(q, q + 4) == quad_positions(t)
            &&& uvs == flip_corners(seq![a, b, cc, d], t.flip_d, t.flip_h, t.flip_v)
            &&& (!t.flip_d && !t.flip_h && !t.flip_v ==> uvs == seq![a, b, cc, d])
            &&& (t.flip_d && !t.flip_h && !t.flip_v ==> uvs == seq![cc, b, a, d])
            &&& (!t.flip_d && t.flip_h && !t.flip_v ==> uvs == seq![d, cc, b, a])
            &&& (!t.flip_d && !t.flip_h && t.flip_v ==> uvs == seq![b, a, d, cc])
        }),
{
    let tiles = tiles_in_order(c.tiles@);
    let t = tiles[k];
    lemma_tile_quad(tiles, k, first_gid);
    lemma_flip_table((t.uv.min_x, t.uv.max_y), (t.uv.min_x, t.uv.min_y), (t.uv.max_x, t.uv.min_y), (t.uv.max_x, t.uv.max_y));
}

proof fn lemma_quad_count_le(tiles: Seq<Tile>, first_gid: u32)
    ensures
        quad_count(tiles, first_gid) <= tiles.len(),
    decreases tiles.len(),
{
    if tiles.len() > 0 {
        lemma_quad_count_le(tiles.drop_last(), first_gid);
    }
}

proof fn lemma_tiles_in_order_len(cols: Seq<Vec<Tile>>)
    requires
        forall|i: int| 0 <= i < cols.len() ==> (#[trigger] cols[i])@.len() <= MAX_CHUNK_EXTENT,
    ensures
        tiles_in_order(cols).len() <= cols.len() * MAX_CHUNK_EXTENT,
    decreases cols.len(),
{
    if cols.len() > 0 {
        lemma_tiles_in_order_len(cols.drop_last());
        assert(cols.last() == cols[cols.len() - 1]);
    }
}

/// Texture corners of `t`, reordered by its flips.
fn tile_uvs(t: &Tile) -> (r: [(i128, i128); 4])
    ensures
        r@ == quad_uvs(*t),
{
    let u = t.uv;
    let mut c = [(u.min_x, u.max_y), (u.min_x, u.min_y), (u.max_x, u.min_y), (u.max_x, u.max_y)];
    if t.flip_d {
        c = [c[2], c[1], c[0], c[3]];
    }
    if t.flip_h {
        c = [c[3], c[2], c[1], c[0]];
    }
    if t.flip_v {
        let r = [c[3], c[2], c[1], c[0]];
        c = [r[2], r[3], r[0], r[1]];
    }
    assert(c@ =~= quad_uvs(*t));
    c
}

impl CompiledMap {
    /// Assembles the quads of the tiles of `chunk` that the tileset with first
    /// gid `first_gid` draws; `None` where it draws none.
    pub fn assemble_chunk(chunk: &Chunk, first_gid: u32) -> (r: Option<MeshBuffer>)
        requires
            chunk_bounded(*chunk),
        ensures
            match r {
                Some(m) => chunk_mesh(*chunk, first_gid) == Some(m.view_tuple()),
                None => chunk_mesh(*chunk, first_gid) is None,
            },
    {
        let ghost cols = chunk.tiles@;
        let mut positions: Vec<(i128, i128)> = Vec::new();
        let mut uvs: Vec<(i128, i128)> = Vec::new();
        let mut indices: Vec<u32> = Vec::new();
        let mut n: u32 = 0;
        let mut x: usize = 0;
        proof {
            lemma_tiles_in_order_len(cols);
        }
        while x < chunk.tiles.len()
            invariant
                x <= cols.len(),
                cols == chunk.tiles@,
                chunk_bounded(*chunk),
                tiles_in_order(cols).len() <= cols.len() * MAX_CHUNK_EXTENT,
                n == 4 * quad_count(tiles_in_order(cols.take(x as int)), first_gid),
                positions@ == mesh_positions(tiles_in_order(cols.take(x as int)), first_gid),
                uvs@ == mesh_uvs(tiles_in_order(cols.take(x as int)), first_gid),
                indices@ == mesh_indices(tiles_in_order(cols.take(x as int)), first_gid),
            decreases cols.len() - x,
        {
            let column = &chunk.tiles[x];
            let ghost prefix = tiles_in_order(cols.take(x as int));
            proof {
                assert(cols.take(x + 1).drop_last() =~= cols.take(x as int));
                lemma_tiles_in_order_len(cols.take(x + 1));
                lemma_quad_count_le(tiles_in_order(cols.take(x + 1)), first_gid);
                assert(x + 1 <= MAX_CHUNK_EXTENT);
                assert((x + 1) * MAX_CHUNK_EXTENT <= MAX_CHUNK_EXTENT * MAX_CHUNK_EXTENT) by (nonlinear_arith)
                    requires x + 1 <= MAX_CHUNK_EXTENT;
            }
            let mut y: usize = 0;
            while y < column.len()
                invariant
                    y <= column@.len(),
                    x < cols.len(),
                    column == cols[x as int],
                    prefix == tiles_in_order(cols.take(x as int)),
                    tiles_in_order(cols.take(x + 1)) == prefix + column@,
                    quad_count(prefix + column@, first_gid) <= MAX_CHUNK_EXTENT * MAX_CHUNK_EXTENT,
                    n == 4 * quad_count(prefix + column@.take(y as int), first_gid),
                    positions@ == mesh_positions(prefix + column@.take(y as int), first_gid),
                    uvs@ == mesh_uvs(prefix + column@.take(y as int), first_gid),
                    indices@ == mesh_indices(prefix + column@.take(y as int), first_gid),
                decreases column@.len() - y,
            {
                let t = &column[y];
                let ghost before = prefix + column@.take(y as int);
                let ghost after = prefix + column@.take(y + 1);
                proof {
                    assert(after.drop_last() =~= before);
                    assert(after.last() == *t);
                    assert(prefix + column@ =~= after + column@.skip(y + 1));
                    lemma_quad_count_prefix(after, column@.skip(y + 1), first_gid);
                }
                if t.tile_id >= first_gid && t.tile_id != 0 {
                    let v = t.vertex;
                    positions.push((v.min_x, v.min_y));
                    positions.push((v.min_x, v.max_y));
                    positions.push((v.max_x, v.max_y));
                    positions.push((v.max_x, v.min_y));
                    let c = tile_uvs(t);
                    uvs.push(c[0]);
                    uvs.push(c[1]);
                    uvs.push(c[2]);
                    uvs.push(c[3]);
                    indices.push(n);
                    indices.push(n + 2);
                    indices.push(n + 1);
                    indices.push(n);
                    indices.push(n + 3);
                    indices.push(n + 2);
                    n = n + 4;
                    proof {
                        assert(positions@ =~= mesh_positions(after, first_gid));
                        assert(uvs@ =~= mesh_uvs(after, first_gid));
                        assert(indices@ =~= mesh_indices(after, first_gid));
                    }
                }
                y += 1;
            }
            proof {
                assert(column@.take(column@.len() as int) =~= column@);
            }
            x += 1;
        }
        proof {
            assert(cols.take(cols.len() as int) =~= cols);
        }
        if n == 0 {
            None
        } else {
            Some(MeshBuffer { positions, uvs, indices })
        }
    }
}

proof fn lemma_quad_count_prefix(a: Seq<Tile>, b: Seq<Tile>, first_gid: u32)
    ensures
        quad_count(a, first_gid) <= quad_count(a + b, first_gid),
    decreases b.len(),
{
    if b.len() > 0 {
        assert((a + b).drop_last() =~= a + b.drop_last());
        lemma_quad_count_prefix(a, b.drop_last(), first_gid);
    } else {
        assert(a + b =~= a);
    }
}

} // verus!

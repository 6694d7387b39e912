//! The map description handed to the compiler, and the compiled map.
use vstd::prelude::*;

use crate::chunk::{drawable, grid_fits, Layer, TilesetLayer, MAX_CHUNK_EXTENT};
use crate::compile::{
    atlas_error_from, chunks_empty, grid_of, layers_fit, lemma_matches_bounded, layer_error_from, tileset_drawn, layer_matches, map_meshes, meshes_view, tileset_error_from,
    visible_layers, CompileError, LayerData, MapLayer,
};
use crate::geometry::{iso_x, iso_y, ortho_x, ortho_y, GridPos, Orientation, WorldPos};
use crate::mesh::MeshBuffer;
use crate::object::{group_matches, ObjectGroup, ObjectGroupSource};
use crate::tileset::{ranges_of, Tileset, TilesetIndex};

verus! {

/// A parsed map: its grid, tilesets, tile layers and object groups.
#[derive(Clone, Debug)]
pub struct MapDescription {
    pub width: u32,
    pub height: u32,
    pub tile_width: u32,
    pub tile_height: u32,
    pub orientation: Orientation,
    pub tilesets: Vec<Tileset>,
    pub layers: Vec<MapLayer>,
    pub object_groups: Vec<ObjectGroupSource>,
}

impl MapDescription {
    /// Every visible dense layer covers the whole map.
    pub open spec fn wf(&self) -> bool {
        layers_fit(self.layers@, self.width as int, self.height as int)
    }

    /// Why the map cannot be compiled, if it cannot.
    pub open spec fn failure(&self) -> Option<CompileError> {
        if !self.orientation.spec_supported() {
            Some(CompileError::UnsupportedOrientation)
        } else if tileset_error_from(self.tilesets@, 0) is Some {
            tileset_error_from(self.tilesets@, 0)
        } else if layer_error_from(self.layers@, 0) is Some {
            layer_error_from(self.layers@, 0)
        } else {
            atlas_error_from(self.layers@, self.tilesets@, self.width as int, self.height as int, 0)
        }
    }
}

/// A compiled map: a tileset layer per visible layer and tileset, the meshes
/// of all chunks that draw a tile, and the resolved object groups.
#[derive(Debug)]
pub struct CompiledMap {
    pub width: u32,
    pub height: u32,
    pub tile_width: u32,
    pub tile_height: u32,
    pub orientation: Orientation,
    pub tilesets: Vec<Tileset>,
    /// `(layer key, tileset key, mesh)`; the layer key is the index in `layers`.
    pub meshes: Vec<(u32, u32, MeshBuffer)>,
    pub layers: Vec<Layer>,
    pub groups: Vec<ObjectGroup>,
    pub tile_size: (u32, u32),
    /// The image of each tileset, in tileset order.
    pub asset_dependencies: Vec<String>,
}

/// Whether `m` is the compilation of `d` with chunks `extent` tiles square.
pub open spec fn compiled_from(m: CompiledMap, d: MapDescription, extent: int) -> bool {
    let visible = visible_layers(d.layers@);
    &&& m.width == d.width
    &&& m.height == d.height
    &&& m.tile_width == d.tile_width
    &&& m.tile_height == d.tile_height
    &&& m.tile_size == (d.tile_width, d.tile_height)
    &&& m.orientation == d.orientation
    &&& m.tilesets@ == d.tilesets@
    &&& m.layers@.len() == visible.len()
    &&& (forall|k: int| 0 <= k < visible.len() ==> layer_matches(
        #[trigger] m.layers@[k], visible[k], d.orientation, d.tilesets@, d.width as int, d.height as int, extent))
    &&& meshes_view(m.meshes@) == map_meshes(m.layers@)
    &&& m.groups@.len() == d.object_groups@.len()
    &&& (forall|g: int| 0 <= g < m.groups@.len() ==> group_matches(
        #[trigger] m.groups@[g], d.object_groups@[g], ranges_of(d.tilesets@)))
    &&& m.asset_dependencies@.len() == d.tilesets@.len()
    &&& (forall|t: int| 0 <= t < d.tilesets@.len() ==> (#[trigger] m.asset_dependencies@[t])@ == d.tilesets@[t].image->0.source@)
}

/// A map with no columns or no rows compiles to layers whose chunk grids are
/// one chunk wide or high, and to no mesh at all; an empty map has exactly
/// one chunk per tileset layer.
pub proof fn lemma_empty_map_has_no_meshes(m: CompiledMap, d: MapDescription, extent: int)
    requires
        compiled_from(m, d, extent),
        extent >= 1,
        d.width == 0 || d.height == 0,
    ensures
        m.meshes@.len() == 0,
        forall|k: int, t: int| 0 <= k < m.layers@.len() && 0 <= t < m.layers@[k].tileset_layers@.len() ==> {
            let tl = #[trigger] m.layers@[k].tileset_layers@[t];
            &&& d.width == 0 ==> tl.chunks@.len() == 1
            &&& d.height == 0 ==> forall|i: int| 0 <= i < tl.chunks@.len() ==> (#[trigger] tl.chunks@[i])@.len() == 1
        },
{
    let vis = visible_layers(d.layers@);
    let w = d.width as int;
    let h = d.height as int;
    assert forall|k: int, t: int| 0 <= k < m.layers@.len() && 0 <= t < m.layers@[k].tileset_layers@.len()
        implies chunks_empty(#[trigger] m.layers@[k].tileset_layers@[t].chunks@) by {
        assert(layer_matches(m.layers@[k], vis[k], d.orientation, d.tilesets@, w, h, extent));
        let tl = m.layers@[k].tileset_layers@[t];
        let ts = d.tilesets@[t];
        assert(crate::chunk::tileset_layer_matches(tl, d.orientation, ts, grid_of(vis[k]), w, h, extent));
        let cols = tl.chunks@;
        assert forall|i: int, j: int, a: int, b: int|
            0 <= i < cols.len() && 0 <= j < cols[i]@.len() && 0 <= a < cols[i]@[j].tiles@.len()
                && 0 <= b < cols[i]@[j].tiles@[a]@.len() implies (#[trigger] cols[i]@[j].tiles@[a]@[b]).tile_id == 0 by {
            assert(crate::chunk::chunk_matches(cols[i]@[j], d.orientation, ts, grid_of(vis[k]), w, h, extent, i, j));
        }
    }
    crate::compile::lemma_map_meshes_empty(m.layers@);
    assert(meshes_view(m.meshes@).len() == m.meshes@.len());
}

proof fn lemma_tilesets_have_images(ts: Seq<Tileset>, i: int)
    requires
        0 <= i,
        tileset_error_from(ts, i) is None,
    ensures
        forall|j: int| i <= j < ts.len() ==> (#[trigger] ts[j]).image is Some,
    decreases ts.len() - i,
{
    if i < ts.len() {
        lemma_tilesets_have_images(ts, i + 1);
    }
}

proof fn lemma_atlases_cut(ls: Seq<MapLayer>, ts: Seq<Tileset>, w: int, h: int, i: int)
    requires
        0 <= i,
        atlas_error_from(ls, ts, w, h, i) is None,
    ensures
        forall|j: int| i <= j < ts.len() && !(#[trigger] ts[j]).usable() ==> !tileset_drawn(ls, ts[j], w, h),
    decreases ts.len() - i,
{
    if i < ts.len() {
        lemma_atlases_cut(ls, ts, w, h, i + 1);
    }
}

proof fn lemma_layer_drawable(ls: Seq<MapLayer>, t: Tileset, w: int, h: int, l: int)
    requires
        0 <= l < ls.len(),
        ls[l].visible,
        ls[l].tiles is Finite,
        !t.usable() ==> !tileset_drawn(ls, t, w, h),
    ensures
        drawable(t, grid_of(ls[l]), w, h),
{
    let g = grid_of(ls[l]);
    assert forall|y: int, x: int| 0 <= y < h && 0 <= x < w && t.owns((#[trigger] g[y]@[x]).gid as int)
        implies t.usable() by {
        if !t.usable() {
            assert(tileset_drawn(ls, t, w, h));
        }
    }
}

proof fn lemma_layers_finite(ls: Seq<MapLayer>, i: int)
    requires
        0 <= i,
        layer_error_from(ls, i) is None,
    ensures
        forall|j: int| i <= j < ls.len() && (#[trigger] ls[j]).visible ==> ls[j].tiles is Finite,
    decreases ls.len() - i,
{
    if i < ls.len() {
        lemma_layers_finite(ls, i + 1);
    }
}

impl CompiledMap {
    /// Compiles `desc` into layers and meshes, with chunks `extent` tiles
    /// square.
    pub fn compile(desc: MapDescription, extent: u32) -> (r: Result<CompiledMap, CompileError>)
        requires
            desc.wf(),
            1 <= extent <= MAX_CHUNK_EXTENT,
        ensures
            match r {
                Ok(m) => desc.failure() is None && compiled_from(m, desc, extent as int),
                Err(e) => desc.failure() == Some(e),
            },
    {
        if !desc.orientation.is_supported() {
            return Err(CompileError::UnsupportedOrientation);
        }
        let mut i: usize = 0;
        while i < desc.tilesets.len()
            invariant
                i <= desc.tilesets@.len(),
                desc.orientation.spec_supported(),
                tileset_error_from(desc.tilesets@, 0) == tileset_error_from(desc.tilesets@, i as int),
            decreases desc.tilesets@.len() - i,
        {
            let t = &desc.tilesets[i];
            match &t.image {
                None => return Err(CompileError::MissingImage { first_gid: t.first_gid }),
                Some(_) => {},
            }
            i += 1;
        }
        let mut i: usize = 0;
        while i < desc.layers.len()
            invariant
                i <= desc.layers@.len(),
                desc.orientation.spec_supported(),
                tileset_error_from(desc.tilesets@, 0) is None,
                layer_error_from(desc.layers@, 0) == layer_error_from(desc.layers@, i as int),
            decreases desc.layers@.len() - i,
        {
            let l = &desc.layers[i];
            if l.visible {
                match &l.tiles {
                    LayerData::Infinite => {
                        return Err(CompileError::InfiniteLayer { layer: i });
                    },
                    LayerData::Finite(_) => {},
                }
            }
            i += 1;
        }
        proof {
            lemma_tilesets_have_images(desc.tilesets@, 0);
            lemma_layers_finite(desc.layers@, 0);
        }
        let mut i: usize = 0;
        while i < desc.tilesets.len()
            invariant
                i <= desc.tilesets@.len(),
                desc.orientation.spec_supported(),
                desc.wf(),
                tileset_error_from(desc.tilesets@, 0) is None,
                layer_error_from(desc.layers@, 0) is None,
                forall|j: int| 0 <= j < desc.tilesets@.len() ==> (#[trigger] desc.tilesets@[j]).image is Some,
                atlas_error_from(desc.layers@, desc.tilesets@, desc.width as int, desc.height as int, 0)
                    == atlas_error_from(desc.layers@, desc.tilesets@, desc.width as int, desc.height as int, i as int),
            decreases desc.tilesets@.len() - i,
        {
            let t = &desc.tilesets[i];
            if t.atlas_columns() == 0 && CompiledMap::draws_tileset(&desc.layers, t, desc.width, desc.height) {
                return Err(CompileError::EmptyAtlas { first_gid: t.first_gid });
            }
            i += 1;
        }
        proof {
            lemma_atlases_cut(desc.layers@, desc.tilesets@, desc.width as int, desc.height as int, 0);
        }
        let MapDescription {
            width, height, tile_width, tile_height, orientation, tilesets, layers: src_layers, object_groups,
        } = desc;
        let index = TilesetIndex::new(&tilesets);

        let mut layers: Vec<Layer> = Vec::new();
        i = 0;
        while i < src_layers.len()
            invariant
                i <= src_layers@.len(),
                src_layers@ == desc.layers@,
                tilesets@ == desc.tilesets@,
                orientation == desc.orientation,
                width == desc.width,
                height == desc.height,
                desc.wf(),
                orientation.spec_supported(),
                1 <= extent <= MAX_CHUNK_EXTENT,
                forall|j: int| 0 <= j < tilesets@.len() && !(#[trigger] tilesets@[j]).usable()
                    ==> !tileset_drawn(src_layers@, tilesets@[j], width as int, height as int),
                forall|j: int| 0 <= j < tilesets@.len() ==> (#[trigger] tilesets@[j]).image is Some,
                forall|j: int| 0 <= j < src_layers@.len() && (#[trigger] src_layers@[j]).visible ==> src_layers@[j].tiles is Finite,
                layers@.len() == visible_layers(src_layers@.take(i as int)).len(),
                forall|k: int| 0 <= k < layers@.len() ==> layer_matches(
                    #[trigger] layers@[k], visible_layers(src_layers@.take(i as int))[k], orientation,
                    tilesets@, width as int, height as int, extent as int),
            decreases src_layers@.len() - i,
        {
            let l = &src_layers[i];
            proof {
                assert(src_layers@.take(i + 1).drop_last() =~= src_layers@.take(i as int));
                assert(src_layers@.take(i + 1).last() == src_layers@[i as int]);
            }
            if l.visible {
                match &l.tiles {
                    LayerData::Finite(grid) => {
                        proof {
                            assert(grid_fits(grid_of(desc.layers@[i as int]), width as int, height as int));
                            assert forall|j: int| 0 <= j < tilesets@.len() implies
                                drawable(#[trigger] tilesets@[j], grid@, width as int, height as int) by {
                                lemma_layer_drawable(src_layers@, tilesets@[j], width as int, height as int, i as int);
                            }
                        }
                        let mut tls: Vec<TilesetLayer> = Vec::new();
                        let mut t: usize = 0;
                        while t < tilesets.len()
                            invariant
                                t <= tilesets@.len(),
                                grid_fits(grid@, width as int, height as int),
                                grid@ == grid_of(*l),
                                orientation.spec_supported(),
                                1 <= extent <= MAX_CHUNK_EXTENT,
                                forall|j: int| 0 <= j < tilesets@.len() ==> drawable(
                                    #[trigger] tilesets@[j], grid@, width as int, height as int),
                                tls@.len() == t,
                                forall|j: int| 0 <= j < t ==> crate::chunk::tileset_layer_matches(
                                    #[trigger] tls@[j], orientation, tilesets@[j], grid@, width as int, height as int, extent as int),
                            decreases tilesets@.len() - t,
                        {
                            let tl = CompiledMap::build_tileset_layer(orientation, &tilesets[t], grid, width, height, extent);
                            tls.push(tl);
                            t += 1;
                        }
                        let ghost before = layers@;
                        layers.push(Layer { tileset_layers: tls });
                        proof {
                            let vis = visible_layers(src_layers@.take(i + 1));
                            assert(vis == visible_layers(src_layers@.take(i as int)).push(*l));
                            assert forall|k: int| 0 <= k < layers@.len() implies layer_matches(
                                #[trigger] layers@[k], vis[k], orientation, tilesets@, width as int, height as int, extent as int) by {
                                if k < before.len() {
                                    assert(layers@[k] == before[k]);
                                }
                            }
                        }
                    },
                    LayerData::Infinite => {},
                }
            }
            i += 1;
        }
        proof {
            assert(src_layers@.take(src_layers@.len() as int) =~= src_layers@);
        }

        proof {
            let vis = visible_layers(src_layers@);
            assert forall|j: int, t: int| 0 <= j < layers@.len() && 0 <= t < tilesets@.len() implies
                crate::compile::chunks_bounded((#[trigger] layers@[j].tileset_layers@[t]).chunks@) by {
                assert(layer_matches(layers@[j], vis[j], orientation, tilesets@, width as int, height as int, extent as int));
                lemma_matches_bounded(layers@[j].tileset_layers@[t], orientation, tilesets@[t], grid_of(vis[j]),
                    width as int, height as int, extent as int);
            }
        }
        let mut meshes: Vec<(u32, u32, MeshBuffer)> = Vec::new();
        let mut k: usize = 0;
        while k < layers.len()
            invariant
                k <= layers@.len(),
                1 <= extent <= MAX_CHUNK_EXTENT,
                forall|j: int| 0 <= j < layers@.len() ==> (#[trigger] layers@[j]).tileset_layers@.len() == tilesets@.len(),
                forall|j: int, t: int| 0 <= j < layers@.len() && 0 <= t < tilesets@.len() ==>
                    crate::compile::chunks_bounded((#[trigger] layers@[j].tileset_layers@[t]).chunks@),
                meshes_view(meshes@) == map_meshes(layers@.take(k as int)),
            decreases layers@.len() - k,
        {
            let layer = &layers[k];
            let ghost mid = meshes_view(meshes@);
            let mut t: usize = 0;
            while t < layer.tileset_layers.len()
                invariant
                    k < layers@.len(),
                    t <= layer.tileset_layers@.len(),
                    *layer == layers@[k as int],
                    layer.tileset_layers@.len() == tilesets@.len(),
                    forall|j: int, u: int| 0 <= j < layers@.len() && 0 <= u < tilesets@.len() ==>
                        crate::compile::chunks_bounded((#[trigger] layers@[j].tileset_layers@[u]).chunks@),
                    meshes_view(meshes@) == mid + crate::compile::layer_meshes(layer.tileset_layers@.take(t as int), k as u32),
                decreases layer.tileset_layers@.len() - t,
            {
                assert(layer.tileset_layers@.take(t + 1).drop_last() =~= layer.tileset_layers@.take(t as int));
                CompiledMap::tileset_layer_meshes(&layer.tileset_layers[t], k as u32, &mut meshes);
                t += 1;
            }
            assert(layer.tileset_layers@.take(layer.tileset_layers@.len() as int) =~= layer.tileset_layers@);
            assert(layers@.take(k + 1).drop_last() =~= layers@.take(k as int));
            k += 1;
        }
        assert(layers@.take(layers@.len() as int) =~= layers@);

        let mut asset_dependencies: Vec<String> = Vec::new();
        let mut t: usize = 0;
        while t < tilesets.len()
            invariant
                t <= tilesets@.len(),
                forall|j: int| 0 <= j < tilesets@.len() ==> (#[trigger] tilesets@[j]).image is Some,
                asset_dependencies@.len() == t,
                forall|j: int| 0 <= j < t ==> (#[trigger] asset_dependencies@[j])@ == tilesets@[j].image->0.source@,
            decreases tilesets@.len() - t,
        {
            match &tilesets[t].image {
                Some(img) => asset_dependencies.push(img.source.clone()),
                None => {},
            }
            t += 1;
        }

        let mut groups: Vec<ObjectGroup> = Vec::new();
        let ghost orig = object_groups@;
        let mut rest = object_groups;
        while rest.len() > 0
            invariant
                rest@ == orig.skip(groups@.len() as int),
                groups@.len() <= orig.len(),
                index@ == ranges_of(tilesets@),
                forall|g: int| 0 <= g < groups@.len() ==> group_matches(#[trigger] groups@[g], orig[g], index@),
            decreases rest@.len(),
        {
            let ghost n = groups@.len();
            let g = rest.remove(0);
            assert(g == orig[n as int]);
            groups.push(ObjectGroup::new_with_tile_ids(g, &index));
            assert(rest@ =~= orig.skip(groups@.len() as int));
        }

        Ok(CompiledMap {
            width,
            height,
            tile_width,
            tile_height,
            orientation,
            tilesets,
            meshes,
            layers,
            groups,
            tile_size: (tile_width, tile_height),
            asset_dependencies,
        })
    }
}

impl CompiledMap {
    /// The map's centre in world quarter-pixels: the projection, in
    /// half-pixels, of grid point `(width, height)`, which is twice the
    /// centre. A centred map is moved by the opposite of it.
    pub fn center(&self) -> (r: WorldPos)
        requires
            self.orientation.spec_supported(),
        ensures
            self.orientation is Orthogonal ==> r.x == ortho_x(self.width as int, self.tile_width as int)
                && r.y == ortho_y(self.height as int, self.tile_height as int),
            self.orientation is Isometric ==> r.x == iso_x(self.width as int, self.height as int, self.tile_width as int)
                && r.y == iso_y(self.width as int, self.height as int, self.tile_height as int),
    {
        let p = GridPos { x: self.width as i64, y: self.height as i64 };
        match self.orientation {
            Orientation::Orthogonal => CompiledMap::project_ortho(p, self.tile_width, self.tile_height),
            _ => CompiledMap::project_iso(p, self.tile_width, self.tile_height),
        }
    }

    /// Whether some object is a sprite of the tileset with first gid
    /// `first_gid`, which then needs a sprite atlas.
    pub fn needs_atlas(&self, first_gid: u32) -> (r: bool)
        ensures
            r == exists|g: int, o: int| 0 <= g < self.groups@.len() && 0 <= o < self.groups@[g].objects@.len()
                && #[trigger] self.groups@[g].objects@[o].tileset_gid == Some(first_gid),
    {
        let mut g: usize = 0;
        while g < self.groups.len()
            invariant
                g <= self.groups@.len(),
                forall|a: int, o: int| 0 <= a < g && 0 <= o < self.groups@[a].objects@.len()
                    ==> #[trigger] self.groups@[a].objects@[o].tileset_gid != Some(first_gid),
            decreases self.groups@.len() - g,
        {
            let objects = &self.groups[g].objects;
            let mut o: usize = 0;
            while o < objects.len()
                invariant
                    g < self.groups@.len(),
                    o <= objects@.len(),
                    *objects == self.groups@[g as int].objects,
                    forall|a: int, b: int| 0 <= a < g && 0 <= b < self.groups@[a].objects@.len()
                        ==> #[trigger] self.groups@[a].objects@[b].tileset_gid != Some(first_gid),
                    forall|b: int| 0 <= b < o ==> #[trigger] objects@[b].tileset_gid != Some(first_gid),
                decreases objects@.len() - o,
            {
                match objects[o].tileset_gid {
                    Some(t) => {
                        if t == first_gid {
                            assert(self.groups@[g as int].objects@[o as int].tileset_gid == Some(first_gid));
                            return true;
                        }
                    },
                    None => {},
                }
                o += 1;
            }
            g += 1;
        }
        false
    }
}

} // verus!

//! Tilesets and the index that maps a global tile id (gid) to its tileset.
use vstd::prelude::*;

verus! {

/// The image a tileset slices into tiles.
#[derive(Clone, Debug)]
pub struct TileImage {
    pub source: String,
    pub width: u32,
    pub height: u32,
}

/// A tileset: gids `first_gid .. first_gid + tile_count` belong to it.
#[derive(Clone, Debug)]
pub struct Tileset {
    pub first_gid: u32,
    pub tile_width: u32,
    pub tile_height: u32,
    pub spacing: u32,
    pub tile_count: u32,
    pub image: Option<TileImage>,
}

impl Tileset {
    /// One past the last gid of this tileset.
    pub open spec fn end_gid(&self) -> int {
        self.first_gid + self.tile_count
    }

    pub open spec fn owns(&self, gid: int) -> bool {
        self.first_gid <= gid < self.end_gid()
    }

    /// Number of tile columns in the image (no gap after the last column).
    pub open spec fn columns(&self) -> int {
        match self.image {
            Some(img) => if self.tile_width + self.spacing == 0 {
                0
            } else {
                (img.width + self.spacing) / (self.tile_width + self.spacing)
            },
            None => 0,
        }
    }

    /// Whether tiles can be cut out of this tileset's image.
    pub open spec fn usable(&self) -> bool {
        self.image is Some && self.columns() >= 1
    }

    pub fn owns_gid(&self, gid: u32) -> (r: bool)
        ensures
            r == self.owns(gid as int),
    {
        self.first_gid <= gid && (gid as u64) < self.first_gid as u64 + self.tile_count as u64
    }

    /// Columns and rows of whole tiles in the image, with no spacing: the
    /// grid a sprite atlas is cut by.
    pub fn sprite_grid(&self) -> (r: (u32, u32))
        requires
            self.image is Some,
            self.tile_width > 0,
            self.tile_height > 0,
        ensures
            r.0 == self.image->0.width / self.tile_width,
            r.1 == self.image->0.height / self.tile_height,
    {
        match &self.image {
            Some(img) => (img.width / self.tile_width, img.height / self.tile_height),
            None => (0, 0),
        }
    }

    /// Number of sprites of this tileset's atlas that have a gid: one per
    /// whole tile of the image, as far as gids reach.
    pub open spec fn sprite_count(&self) -> int {
        let n = (self.image->0.width as int / self.tile_width as int) * (self.image->0.height as int / self.tile_height as int);
        if self.first_gid + n > 0x1_0000_0000 {
            0x1_0000_0000 - self.first_gid
        } else {
            n
        }
    }

    /// The gids that the sprites of this tileset's atlas stand for, from
    /// `first_gid` on.
    pub fn sprite_gids(&self) -> (r: Vec<u32>)
        requires
            self.image is Some,
            self.tile_width > 0,
            self.tile_height > 0,
        ensures
            r@.len() == self.sprite_count(),
            forall|i: int| 0 <= i < r@.len() ==> #[trigger] r@[i] == self.first_gid + i,
    {
        let (columns, rows) = self.sprite_grid();
        assert(columns as int * rows as int <= 0xffff_ffff * 0xffff_ffff) by (nonlinear_arith)
            requires columns <= 0xffff_ffff, rows <= 0xffff_ffff;
        let total = columns as u64 * rows as u64;
        let room = 0x1_0000_0000u64 - self.first_gid as u64;
        let n = if total > room { room } else { total };
        let mut out: Vec<u32> = Vec::new();
        let mut i: u64 = 0;
        while i < n
            invariant
                i <= n,
                n + self.first_gid <= 0x1_0000_0000,
                out@.len() == i,
                forall|j: int| 0 <= j < i ==> #[trigger] out@[j] == self.first_gid + j,
            decreases n - i,
        {
            out.push((self.first_gid as u64 + i) as u32);
            i += 1;
        }
        out
    }

    pub fn atlas_columns(&self) -> (r: u64)
        ensures
            r == self.columns(),
    {
        match &self.image {
            Some(img) => {
                let d = self.tile_width as u64 + self.spacing as u64;
                if d == 0 {
                    0
                } else {
                    (img.width as u64 + self.spacing as u64) / d
                }
            },
            None => 0,
        }
    }
}

/// The tileset that owns `gid`: the first one in `ranges[i..]` whose range holds it.
pub open spec fn resolve_from(ranges: Seq<(u32, u64)>, gid: int, i: int) -> Option<u32>
    decreases ranges.len() - i,
{
    if i < 0 || i >= ranges.len() {
        None
    } else if ranges[i].0 <= gid < ranges[i].1 {
        Some(ranges[i].0)
    } else {
        resolve_from(ranges, gid, i + 1)
    }
}

/// The tileset key of `gid`: `None` for gid 0 and for gids no range holds.
pub open spec fn resolve_gid(ranges: Seq<(u32, u64)>, gid: int) -> Option<u32> {
    if gid == 0 {
        None
    } else {
        resolve_from(ranges, gid, 0)
    }
}

/// Maps gids to the first gid of the tileset that owns them. Where ranges
/// overlap, the tileset listed first keeps the gid.
#[derive(Clone, Debug)]
pub struct TilesetIndex {
    pub ranges: Vec<(u32, u64)>,
}

pub open spec fn ranges_of(tilesets: Seq<Tileset>) -> Seq<(u32, u64)> {
    tilesets.map_values(|t: Tileset| (t.first_gid, t.end_gid() as u64))
}

impl View for TilesetIndex {
    type V = Seq<(u32, u64)>;

    open spec fn view(&self) -> Seq<(u32, u64)> {
        self.ranges@
    }
}

impl TilesetIndex {
    /// The tileset key of `gid`, `None` for gid 0 and for gids no tileset owns.
    pub open spec fn spec_resolve(&self, gid: int) -> Option<u32> {
        resolve_gid(self@, gid)
    }

    /// Builds the index over the tilesets in declaration order.
    pub fn new(tilesets: &Vec<Tileset>) -> (r: TilesetIndex)
        ensures
            r@ == ranges_of(tilesets@),
    {
        let mut ranges: Vec<(u32, u64)> = Vec::new();
        let mut i: usize = 0;
        while i < tilesets.len()
            invariant
                i <= tilesets.len(),
                ranges@ == ranges_of(tilesets@).take(i as int),
            decreases tilesets.len() - i,
        {
            let t = &tilesets[i];
            ranges.push((t.first_gid, t.first_gid as u64 + t.tile_count as u64));
            i += 1;
            assert(ranges@ =~= ranges_of(tilesets@).take(i as int));
        }
        assert(ranges@ =~= ranges_of(tilesets@));
        TilesetIndex { ranges }
    }

    /// The first gid of the tileset that owns `gid`.
    pub fn resolve(&self, gid: u32) -> (r: Option<u32>)
        ensures
            r == self.spec_resolve(gid as int),
    {
        if gid == 0 {
            return None;
        }
        let mut i: usize = 0;
        while i < self.ranges.len()
            invariant
                i <= self.ranges.len(),
                gid != 0,
                resolve_from(self@, gid as int, 0) == resolve_from(self@, gid as int, i as int),
            decreases self.ranges.len() - i,
        {
            let (first, end) = self.ranges[i];
            if first <= gid && (gid as u64) < end {
                assert(resolve_from(self@, gid as int, i as int) == Some(first));
                return Some(first);
            }
            i += 1;
        }
        None
    }
}

} // verus!

//! Object groups: shapes and tile sprites placed freely on the map.
use vstd::prelude::*;

use crate::geometry::{Orientation, WorldPos};
use crate::tileset::{resolve_from, resolve_gid, TilesetIndex};

verus! {

/// A point in pixels, `y` growing downwards as in the map description.
#[derive(Clone, Copy, Debug, PartialEq, Eq, Structural)]
pub struct Pos2 {
    pub x: i64,
    pub y: i64,
}

/// The outline of an object, in pixels.
#[derive(Clone, Debug)]
pub enum ObjectShape {
    Rect { width: i64, height: i64 },
    Ellipse { width: i64, height: i64 },
    Polyline { points: Vec<(i64, i64)> },
    Polygon { points: Vec<(i64, i64)> },
    Point(i64, i64),
}

/// An object as the map description gives it; `x`, `y` in pixels.
#[derive(Clone, Debug)]
pub struct ObjectSource {
    pub gid: u32,
    pub name: String,
    pub visible: bool,
    pub x: i64,
    pub y: i64,
    pub shape: ObjectShape,
}

/// An object group as the map description gives it.
#[derive(Clone, Debug)]
pub struct ObjectGroupSource {
    pub name: String,
    pub visible: bool,
    pub objects: Vec<ObjectSource>,
}

/// A compiled object. `tileset_gid` and `sprite_index` are both set exactly
/// when the object's gid belongs to a tileset: the object is then a sprite,
/// else a plain shape.
#[derive(Clone, Debug)]
pub struct Object {
    pub shape: ObjectShape,
    pub position: Pos2,
    pub name: String,
    pub visible: bool,
    pub gid: u32,
    pub tileset_gid: Option<u32>,
    pub sprite_index: Option<u32>,
}

/// A compiled object group.
#[derive(Clone, Debug)]
pub struct ObjectGroup {
    pub name: String,
    pub visible: bool,
    pub objects: Vec<Object>,
}

/// Why an object cannot be placed.
#[derive(Clone, Copy, Debug, PartialEq, Eq, Structural)]
pub enum ObjectError {
    /// The map is neither orthogonal nor isometric.
    UnsupportedOrientation,
    /// The object's shape cannot be placed on a map of this orientation.
    UnsupportedShape,
}

/// The sprite index of `gid` in the tileset whose first gid is `first`.
pub open spec fn sprite_of(gid: u32, tileset: Option<u32>) -> Option<u32> {
    match tileset {
        Some(first) => Some((gid - first) as u32),
        None => None,
    }
}

/// The compiled form of `src`, its gid resolved through `ranges`.
pub open spec fn object_of(src: ObjectSource, ranges: Seq<(u32, u64)>) -> Object {
    Object {
        shape: src.shape,
        position: Pos2 { x: src.x, y: src.y },
        name: src.name,
        visible: src.visible,
        gid: src.gid,
        tileset_gid: resolve_gid(ranges, src.gid as int),
        sprite_index: sprite_of(src.gid, resolve_gid(ranges, src.gid as int)),
    }
}

/// Whether the objects of `g` are those of `src`, resolved through `ranges`.
pub open spec fn group_matches(g: ObjectGroup, src: ObjectGroupSource, ranges: Seq<(u32, u64)>) -> bool {
    &&& g.name == src.name
    &&& g.visible == src.visible
    &&& g.objects@.len() == src.objects@.len()
    &&& forall|i: int| 0 <= i < g.objects@.len() ==> #[trigger] g.objects@[i] == object_of(src.objects@[i], ranges)
}

/// Where an object's anchor lies, in world half-pixels relative to the map's
/// origin; `None` where the object stays at the origin.
pub open spec fn anchor_of(o: Object, orientation: Orientation, is_tile: bool) -> Result<Option<WorldPos>, ObjectError> {
    if !orientation.spec_supported() {
        Err(ObjectError::UnsupportedOrientation)
    } else {
        match o.shape {
            ObjectShape::Rect { width, height } | ObjectShape::Ellipse { width, height } => {
                if orientation is Isometric {
                    Err(ObjectError::UnsupportedShape)
                } else if is_tile {
                    Ok(Some(WorldPos {
                        x: (2 * o.position.x + width) as i128,
                        y: (-2 * o.position.y + height) as i128,
                    }))
                } else {
                    Ok(Some(WorldPos {
                        x: (2 * o.position.x + width) as i128,
                        y: (-2 * o.position.y - height) as i128,
                    }))
                }
            },
            _ => if orientation is Isometric {
                Err(ObjectError::UnsupportedShape)
            } else {
                Ok(None)
            },
        }
    }
}

proof fn lemma_resolve_from_le(ranges: Seq<(u32, u64)>, gid: int, i: int)
    requires
        resolve_from(ranges, gid, i) is Some,
    ensures
        resolve_from(ranges, gid, i)->0 <= gid,
    decreases ranges.len() - i,
{
    if 0 <= i < ranges.len() && !(ranges[i].0 <= gid < ranges[i].1) {
        lemma_resolve_from_le(ranges, gid, i + 1);
    }
}

impl Object {
    /// The object with its gid not yet resolved.
    pub fn new(src: ObjectSource) -> (r: Object)
        ensures
            r.shape == src.shape,
            r.position == (Pos2 { x: src.x, y: src.y }),
            r.name == src.name,
            r.visible == src.visible,
            r.gid == src.gid,
            r.tileset_gid is None,
            r.sprite_index is None,
    {
        Object {
            shape: src.shape,
            position: Pos2 { x: src.x, y: src.y },
            name: src.name,
            visible: src.visible,
            gid: src.gid,
            tileset_gid: None,
            sprite_index: None,
        }
    }

    /// Whether the object is a plain shape rather than a tile sprite.
    pub fn is_shape(&self) -> (r: bool)
        ensures
            r == (self.tileset_gid is None),
    {
        self.tileset_gid.is_none()
    }

    /// Resolves the object's gid to its tileset and sprite index.
    pub fn set_tile_ids(&mut self, index: &TilesetIndex)
        ensures
            final(self).tileset_gid == index.spec_resolve(old(self).gid as int),
            final(self).sprite_index == sprite_of(old(self).gid, index.spec_resolve(old(self).gid as int)),
            final(self).shape == old(self).shape,
            final(self).position == old(self).position,
            final(self).name == old(self).name,
            final(self).visible == old(self).visible,
            final(self).gid == old(self).gid,
    {
        let t = index.resolve(self.gid);
        match t {
            Some(first) => {
                proof {
                    lemma_resolve_from_le(index@, self.gid as int, 0);
                }
                self.tileset_gid = Some(first);
                self.sprite_index = Some(self.gid - first);
            },
            None => {
                self.tileset_gid = None;
                self.sprite_index = None;
            },
        }
    }

    /// The compiled object of `src`, its gid resolved through `ranges`.
    pub fn new_with_tile_ids(src: ObjectSource, index: &TilesetIndex) -> (r: Object)
        ensures
            r == object_of(src, index@),
    {
        let mut o = Object::new(src);
        o.set_tile_ids(index);
        o
    }

    /// Width and height of the object: those of a rectangle or ellipse, one
    /// pixel square for other shapes.
    pub fn dimensions(&self) -> (r: Option<(i64, i64)>)
        ensures
            r == match self.shape {
                ObjectShape::Rect { width, height } | ObjectShape::Ellipse { width, height } => Some((width, height)),
                _ => Some((1i64, 1i64)),
            },
    {
        match &self.shape {
            ObjectShape::Rect { width, height } => Some((*width, *height)),
            ObjectShape::Ellipse { width, height } => Some((*width, *height)),
            _ => Some((1, 1)),
        }
    }

    /// The object's anchor relative to the map's origin, in world
    /// half-pixels. A shape is anchored at the centre of its box, whose
    /// top-left corner is the object's position; a tile sprite
    /// (`is_tile`) at the centre of its box, whose bottom-left corner is
    /// the position.
    pub fn transform_from_map(&self, orientation: Orientation, is_tile: bool) -> (r: Result<Option<WorldPos>, ObjectError>)
        ensures
            r == anchor_of(*self, orientation, is_tile),
    {
        if !orientation.is_supported() {
            return Err(ObjectError::UnsupportedOrientation);
        }
        let iso = match orientation {
            Orientation::Isometric => true,
            _ => false,
        };
        let (width, height) = match &self.shape {
            ObjectShape::Rect { width, height } => (*width, *height),
            ObjectShape::Ellipse { width, height } => (*width, *height),
            _ => {
                if iso {
                    return Err(ObjectError::UnsupportedShape);
                }
                return Ok(None);
            },
        };
        if iso {
            return Err(ObjectError::UnsupportedShape);
        }
        let x = 2 * (self.position.x as i128) + width as i128;
        let y = if is_tile {
            -2 * (self.position.y as i128) + height as i128
        } else {
            -2 * (self.position.y as i128) - height as i128
        };
        Ok(Some(WorldPos { x, y }))
    }
}

impl ObjectGroup {
    /// The compiled group of `src`, each object's gid resolved through `ranges`.
    pub fn new_with_tile_ids(src: ObjectGroupSource, index: &TilesetIndex) -> (r: ObjectGroup)
        ensures
            group_matches(r, src, index@),
    {
        let ObjectGroupSource { name, visible, objects } = src;
        let ghost orig = objects@;
        let mut rest = objects;
        let mut out: Vec<Object> = Vec::new();
        while rest.len() > 0
            invariant
                rest@ == orig.skip(out@.len() as int),
                out@.len() <= orig.len(),
                forall|i: int| 0 <= i < out@.len() ==> #[trigger] out@[i] == object_of(orig[i], index@),
            decreases rest@.len(),
        {
            let ghost k = out@.len();
            let o = rest.remove(0);
            assert(o == orig[k as int]);
            out.push(Object::new_with_tile_ids(o, index));
            assert(rest@ =~= orig.skip(out@.len() as int));
        }
        ObjectGroup { name, visible, objects: out }
    }
}

} // verus!

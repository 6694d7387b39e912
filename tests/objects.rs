use tiled_map::geometry::{Orientation, WorldPos};
use tiled_map::object::{Object, ObjectError, ObjectGroup, ObjectGroupSource, ObjectShape, ObjectSource};
use tiled_map::tileset::{TileImage, Tileset, TilesetIndex};

fn source(gid: u32, x: i64, y: i64, shape: ObjectShape) -> ObjectSource {
    ObjectSource { gid, name: "o".to_string(), visible: true, x, y, shape }
}

fn index() -> TilesetIndex {
    TilesetIndex::new(&vec![Tileset {
        first_gid: 1,
        tile_width: 16,
        tile_height: 16,
        spacing: 0,
        tile_count: 10,
        image: Some(TileImage { source: "t.png".to_string(), width: 160, height: 16 }),
    }])
}

#[test]
fn rectangle_shape_is_anchored_at_its_centre() {
    let o = Object::new_with_tile_ids(source(0, 10, 20, ObjectShape::Rect { width: 4, height: 6 }), &index());
    assert!(o.is_shape());
    assert_eq!(o.dimensions(), Some((4, 6)));
    // (10, -20) plus (2, -3) is (12, -23) pixels, in half-pixels
    assert_eq!(o.transform_from_map(Orientation::Orthogonal, false), Ok(Some(WorldPos { x: 24, y: -46 })));
}

#[test]
fn tile_sprite_is_anchored_from_its_bottom_left() {
    let o = Object::new_with_tile_ids(source(3, 10, 20, ObjectShape::Rect { width: 16, height: 16 }), &index());
    assert!(!o.is_shape());
    assert_eq!(o.tileset_gid, Some(1));
    assert_eq!(o.sprite_index, Some(2));
    // (10, -20) plus (8, 8) pixels
    assert_eq!(o.transform_from_map(Orientation::Orthogonal, true), Ok(Some(WorldPos { x: 36, y: -24 })));
}

#[test]
fn unknown_gid_stays_a_shape() {
    let o = Object::new_with_tile_ids(source(42, 0, 0, ObjectShape::Ellipse { width: 2, height: 2 }), &index());
    assert!(o.is_shape());
    assert_eq!(o.sprite_index, None);
    assert_eq!(o.dimensions(), Some((2, 2)));
    assert_eq!(o.transform_from_map(Orientation::Orthogonal, false), Ok(Some(WorldPos { x: 2, y: -2 })));
}

#[test]
fn set_tile_ids_resolves_later() {
    let mut o = Object::new(source(10, 1, 2, ObjectShape::Point(1, 2)));
    assert!(o.is_shape());
    o.set_tile_ids(&index());
    assert_eq!((o.tileset_gid, o.sprite_index), (Some(1), Some(9)));
    assert_eq!(o.dimensions(), Some((1, 1)));
    assert_eq!(o.transform_from_map(Orientation::Orthogonal, false), Ok(None));
}

#[test]
fn unsupported_placements_fail() {
    let o = Object::new(source(0, 0, 0, ObjectShape::Rect { width: 4, height: 4 }));
    assert_eq!(o.transform_from_map(Orientation::Isometric, false), Err(ObjectError::UnsupportedShape));
    assert_eq!(o.transform_from_map(Orientation::Hexagonal, false), Err(ObjectError::UnsupportedOrientation));
    let p = Object::new(source(0, 0, 0, ObjectShape::Polyline { points: vec![(0, 0), (3, 4)] }));
    assert_eq!(p.transform_from_map(Orientation::Isometric, false), Err(ObjectError::UnsupportedShape));
    assert_eq!(p.transform_from_map(Orientation::Orthogonal, false), Ok(None));
}

#[test]
fn group_resolves_every_object() {
    let src = ObjectGroupSource {
        name: "things".to_string(),
        visible: true,
        objects: vec![
            source(0, 0, 0, ObjectShape::Rect { width: 1, height: 1 }),
            source(5, 0, 0, ObjectShape::Rect { width: 1, height: 1 }),
        ],
    };
    let g = ObjectGroup::new_with_tile_ids(src, &index());
    assert_eq!(g.name, "things");
    assert_eq!(g.objects.len(), 2);
    assert_eq!(g.objects[0].tileset_gid, None);
    assert_eq!(g.objects[1].tileset_gid, Some(1));
    assert_eq!(g.objects[1].sprite_index, Some(4));
}

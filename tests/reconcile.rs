use tiled_map::chunk::{LayerTile, DEFAULT_CHUNK_EXTENT};
use tiled_map::compile::{LayerData, MapLayer};
use tiled_map::geometry::Orientation;
use tiled_map::map::{CompiledMap, MapDescription};
use tiled_map::object::{ObjectGroupSource, ObjectShape, ObjectSource};
use tiled_map::reconcile::{changed_maps, layer_entry_key, removed_maps, CreatedMapEntities, MapEvent, RealizeRequest};
use tiled_map::tileset::{TileImage, Tileset};

fn cell(gid: u32) -> LayerTile {
    LayerTile { gid, flip_h: false, flip_v: false, flip_d: false }
}

fn object(gid: u32) -> ObjectSource {
    ObjectSource { gid, name: String::new(), visible: true, x: 0, y: 0, shape: ObjectShape::Rect { width: 1, height: 1 } }
}

fn map() -> CompiledMap {
    let d = MapDescription {
        width: 2,
        height: 1,
        tile_width: 16,
        tile_height: 16,
        orientation: Orientation::Orthogonal,
        tilesets: vec![
            Tileset {
                first_gid: 1,
                tile_width: 16,
                tile_height: 16,
                spacing: 0,
                tile_count: 1,
                image: Some(TileImage { source: "a.png".to_string(), width: 16, height: 16 }),
            },
            Tileset {
                first_gid: 2,
                tile_width: 16,
                tile_height: 16,
                spacing: 0,
                tile_count: 1,
                image: Some(TileImage { source: "b.png".to_string(), width: 16, height: 16 }),
            },
        ],
        layers: vec![
            MapLayer { visible: true, tiles: LayerData::Finite(vec![vec![cell(1), cell(2)]]) },
            MapLayer { visible: true, tiles: LayerData::Finite(vec![vec![cell(2), cell(0)]]) },
        ],
        object_groups: vec![
            ObjectGroupSource { name: "shown".to_string(), visible: true, objects: vec![object(0), object(2), object(0)] },
            ObjectGroupSource { name: "hidden".to_string(), visible: false, objects: vec![object(7)] },
        ],
    };
    CompiledMap::compile(d, DEFAULT_CHUNK_EXTENT).unwrap()
}

fn layer_keys(r: &CreatedMapEntities) -> Vec<(u64, Vec<u64>)> {
    r.created_layer_entities.iter().map(|e| (e.key, e.entities.clone())).collect()
}

fn object_keys(r: &CreatedMapEntities) -> Vec<(u64, Vec<u64>)> {
    r.created_object_entities.iter().map(|e| (e.key, e.entities.clone())).collect()
}

#[test]
fn plan_lists_meshes_then_visible_objects() {
    let m = map();
    assert_eq!(m.meshes.len(), 3);
    let plan = CreatedMapEntities::realize_requests(&m);
    assert_eq!(
        plan,
        vec![
            RealizeRequest::Mesh { index: 0 },
            RealizeRequest::Mesh { index: 1 },
            RealizeRequest::Mesh { index: 2 },
            RealizeRequest::Object { group: 0, object: 0 },
            RealizeRequest::Object { group: 0, object: 1 },
            RealizeRequest::Object { group: 0, object: 2 },
        ]
    );
}

#[test]
fn pass_records_handles_by_key() {
    let m = map();
    let mut r = CreatedMapEntities::new();
    assert_eq!(r.plan_pass(&m, 1), CreatedMapEntities::realize_requests(&m));
    let retired = r.finish_pass(&m, 1, &vec![10, 11, 12, 13, 14, 15]);
    assert!(retired.is_empty());
    assert_eq!(r.realized, Some(1));
    assert_eq!(
        layer_keys(&r),
        vec![(layer_entry_key(0, 1), vec![10]), (layer_entry_key(0, 2), vec![11]), (layer_entry_key(1, 2), vec![12])]
    );
    assert_eq!(layer_entry_key(1, 2), (1u64 << 32) + 2);
    // both objects with gid 0 share one entry
    assert_eq!(object_keys(&r), vec![(0, vec![13, 15]), (2, vec![14])]);
}

#[test]
fn new_generation_retires_everything_and_keeps_the_keys() {
    let m = map();
    let mut r = CreatedMapEntities::new();
    r.finish_pass(&m, 1, &vec![10, 11, 12, 13, 14, 15]);
    let keys_before: Vec<u64> = layer_keys(&r).into_iter().map(|e| e.0).collect();
    assert_eq!(r.plan_pass(&m, 2).len(), 6);
    let retired = r.finish_pass(&m, 2, &vec![20, 21, 22, 23, 24, 25]);
    assert_eq!(retired, vec![10, 11, 12, 13, 15, 14]);
    let keys_after: Vec<u64> = layer_keys(&r).into_iter().map(|e| e.0).collect();
    assert_eq!(keys_before, keys_after);
    assert_eq!(object_keys(&r), vec![(0, vec![23, 25]), (2, vec![24])]);
}

#[test]
fn retire_all_empties_the_registry() {
    let m = map();
    let mut r = CreatedMapEntities::new();
    r.finish_pass(&m, 7, &vec![1, 2, 3, 4, 5, 6]);
    assert_eq!(r.retire_all(), vec![1, 2, 3, 4, 6, 5]);
    assert_eq!(r.realized, None);
    assert!(r.created_layer_entities.is_empty());
    assert!(r.created_object_entities.is_empty());
    assert!(r.retire_all().is_empty());
}

#[test]
fn changed_maps_follow_event_order() {
    let events = vec![
        MapEvent::Created { map: 1 },
        MapEvent::Modified { map: 2 },
        MapEvent::Modified { map: 1 },
        MapEvent::Removed { map: 2 },
        MapEvent::Removed { map: 3 },
    ];
    assert_eq!(changed_maps(&events), vec![1]);
    let events = vec![MapEvent::Removed { map: 4 }, MapEvent::Created { map: 4 }];
    assert_eq!(changed_maps(&events), vec![4]);
    assert!(changed_maps(&vec![]).is_empty());
}

#[test]
fn needs_atlas_for_object_tilesets_only() {
    let m = map();
    assert!(m.needs_atlas(2));
    assert!(!m.needs_atlas(1));
}

#[test]
fn second_pass_on_the_same_generation_is_a_no_op() {
    let m = map();
    let mut r = CreatedMapEntities::new();
    r.finish_pass(&m, 3, &vec![10, 11, 12, 13, 14, 15]);
    let layers = layer_keys(&r);
    let objects = object_keys(&r);
    assert!(r.plan_pass(&m, 3).is_empty());
    assert!(r.finish_pass(&m, 3, &vec![]).is_empty());
    assert_eq!(layer_keys(&r), layers);
    assert_eq!(object_keys(&r), objects);
    assert_eq!(r.realized, Some(3));
}

#[test]
fn removed_maps_follow_event_order() {
    let events = vec![
        MapEvent::Created { map: 1 },
        MapEvent::Removed { map: 1 },
        MapEvent::Removed { map: 2 },
        MapEvent::Created { map: 2 },
        MapEvent::Modified { map: 3 },
        MapEvent::Removed { map: 3 },
    ];
    assert_eq!(removed_maps(&events), vec![1, 3]);
    assert_eq!(changed_maps(&events), vec![2]);
    assert!(removed_maps(&vec![MapEvent::Modified { map: 5 }]).is_empty());
}

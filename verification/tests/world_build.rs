use wheel_of_time::anim::Frame;
use wheel_of_time::document::CollisionObject;
use wheel_of_time::document::Layer;
use wheel_of_time::document::MapDocument;
use wheel_of_time::document::MapObject;
use wheel_of_time::document::ObjectLayerData;
use wheel_of_time::document::Shape;
use wheel_of_time::document::TileDef;
use wheel_of_time::document::TileLayerData;
use wheel_of_time::document::TileRef;
use wheel_of_time::document::Tileset;
use wheel_of_time::epoch::Epoch;
use wheel_of_time::epoch::EpochSprite;
use wheel_of_time::props::Prop;
use wheel_of_time::props::PropValue;
use wheel_of_time::world::Collider;
use wheel_of_time::world::ColliderKind;
use wheel_of_time::world::PlayerStart;
use wheel_of_time::world::build_world;

const DMG_BITS: u32 = 0x3f80_0000;

fn prop(name: &str, value: PropValue) -> Prop {
    Prop { name: name.to_string(), value }
}

fn tile_ref(id: u32) -> Option<TileRef> {
    Some(TileRef { tileset: 0, id, flip_h: false, flip_v: false, flip_d: false })
}

fn obj(id: u32, kind: &str, x: i64, y: i64, shape: Shape, props: Vec<Prop>) -> MapObject {
    MapObject { id, name: format!("o{}", id), kind: kind.to_string(), x, y, shape, props }
}

/// A 2x2 map with 16x16 cells: a "Walls" tile layer holding an epoch tile, a
/// plain tile, a hurting tile and an animated tile, and an object layer with
/// a spawn marker, a mutual teleporter pair, a dangling teleporter, one
/// teleporter without a destination, a ladder, a goal zone and an unknown
/// object.
fn sample_doc() -> MapDocument {
    let tiles = vec![
        TileDef { id: 3, props: vec![], collision: vec![], animation: None },
        TileDef {
            id: 10,
            props: vec![
                prop("epoch", PropValue::Int(0)),
                prop("epoch_min", PropValue::Int(-1)),
                prop("epoch_max", PropValue::Int(1)),
            ],
            collision: vec![],
            animation: None,
        },
        TileDef {
            id: 7,
            props: vec![prop("damage", PropValue::Decimal(DMG_BITS))],
            collision: vec![CollisionObject {
                kind: "collider".to_string(),
                x: 2,
                y: 4,
                shape: Shape::Rect { width: 8, height: 4 },
            }],
            animation: None,
        },
        TileDef {
            id: 4,
            props: vec![],
            collision: vec![],
            animation: Some(vec![
                Frame { tile_id: 4, duration: 100 },
                Frame { tile_id: 5, duration: 100 },
            ]),
        },
    ];
    // Row-major, top-down: row 0 is the top of the map, so it lands at
    // engine y = 1.
    let grid = vec![tile_ref(3), tile_ref(4), tile_ref(10), tile_ref(7)];
    let objects = vec![
        obj(1, "player_start", 24, 8, Shape::Other, vec![]),
        obj(2, "teleport", 0, 16, Shape::Rect { width: 16, height: 32 }, vec![prop(
            "dst",
            PropValue::Object(3),
        )]),
        obj(3, "teleport", 48, 16, Shape::Rect { width: 16, height: 32 }, vec![prop(
            "dst",
            PropValue::Object(2),
        )]),
        obj(4, "teleport", 32, 0, Shape::Rect { width: 16, height: 16 }, vec![prop(
            "dst",
            PropValue::Object(99),
        )]),
        obj(5, "teleport", 0, 0, Shape::Rect { width: 16, height: 16 }, vec![]),
        obj(6, "ladder", 16, 48, Shape::Rect { width: 16, height: 48 }, vec![]),
        obj(7, "level_end", 0, 0, Shape::Rect { width: 16, height: 16 }, vec![]),
        obj(8, "decoration", 5, 5, Shape::Rect { width: 1, height: 1 }, vec![]),
    ];
    MapDocument {
        width: 2,
        height: 2,
        tile_width: 16,
        tile_height: 16,
        tilesets: vec![Tileset { has_texture: true, tiles }],
        layers: vec![
            Layer::Tiles(TileLayerData {
                name: "Walls".to_string(),
                offset_x: 0,
                offset_y: 0,
                grid,
            }),
            Layer::Objects(ObjectLayerData { objects }),
        ],
    }
}

#[test]
fn build_places_tiles_bottom_up() {
    let doc = sample_doc();
    let mut epoch = Epoch { min: 0, max: 0, cur: 0 };
    let w = build_world(&doc, &mut epoch);
    // Columns are walked x-outer, y-inner; document row 0 is engine y 1.
    assert_eq!(w.tiles.len(), 4);
    let t0 = &w.tiles[0];
    assert_eq!((t0.x, t0.y, t0.layer, t0.texture_index), (0, 0, 0, 10));
    assert!(t0.visible);
    assert_eq!(
        t0.epoch_sprite,
        Some(EpochSprite { base: 9, delta: 0, first: -1, last: 1 })
    );
    let t1 = &w.tiles[1];
    assert_eq!((t1.x, t1.y, t1.texture_index), (0, 1, 3));
    assert_eq!(t1.epoch_sprite, None);
    let t2 = &w.tiles[2];
    assert_eq!((t2.x, t2.y, t2.texture_index), (1, 0, 7));
    let t3 = &w.tiles[3];
    assert_eq!((t3.x, t3.y, t3.texture_index), (1, 1, 4));
}

#[test]
fn build_widens_epoch_bounds() {
    let doc = sample_doc();
    let mut epoch = Epoch { min: 0, max: 0, cur: 0 };
    let _ = build_world(&doc, &mut epoch);
    assert_eq!((epoch.min, epoch.max, epoch.cur), (-1, 1, 0));
}

#[test]
fn build_emits_wall_and_damage_colliders() {
    let doc = sample_doc();
    let mut epoch = Epoch { min: 0, max: 0, cur: 0 };
    let w = build_world(&doc, &mut epoch);
    let walls: Vec<&Collider> = w
        .colliders
        .iter()
        .filter(|c| matches!(c.kind, ColliderKind::Solid))
        .collect();
    assert_eq!(walls.len(), 4);
    assert_eq!((walls[0].x, walls[0].y), (0, 0));
    assert_eq!((walls[1].x, walls[1].y), (0, 16));
    assert_eq!((walls[2].x, walls[2].y), (16, 0));
    assert_eq!((walls[3].x, walls[3].y), (16, 16));
    assert!(walls.iter().all(|c| c.half_width == 8 && c.half_height == 8 && c.z == 0));

    let dmg: Vec<&Collider> = w
        .colliders
        .iter()
        .filter(|c| matches!(c.kind, ColliderKind::Damage(_)))
        .collect();
    assert_eq!(dmg.len(), 1);
    // Cell origin (16, 0); entry at (2, 4) of an 8x4 rectangle:
    // x = 16 + 2, y = 0 + 16/2 - 4 - 4/2.
    assert_eq!((dmg[0].x, dmg[0].y), (18, 2));
    assert_eq!((dmg[0].half_width, dmg[0].half_height), (4, 2));
    assert_eq!(dmg[0].kind, ColliderKind::Damage(DMG_BITS));
}

#[test]
fn build_seeds_animation_clocks() {
    let doc = sample_doc();
    let mut epoch = Epoch { min: 0, max: 0, cur: 0 };
    let w = build_world(&doc, &mut epoch);
    assert_eq!(w.anims.len(), w.tiles.len());
    assert!(w.anims[0].is_none());
    assert!(w.anims[1].is_none());
    assert!(w.anims[2].is_none());
    let a = w.anims[3].as_ref().expect("animated tile");
    assert_eq!(a.frames, vec![
        Frame { tile_id: 4, duration: 100 },
        Frame { tile_id: 5, duration: 100 },
    ]);
    assert!((a.index as usize) < a.frames.len());
    assert!(a.clock <= 999);
}

#[test]
fn build_emits_spawn_marker() {
    let doc = sample_doc();
    let mut epoch = Epoch { min: 0, max: 0, cur: 0 };
    let w = build_world(&doc, &mut epoch);
    // (24, 8) in document space: x - 8, 2*16 - y - 8, at the object layer's
    // depth.
    assert_eq!(w.spawn, Some(PlayerStart { x: 16, y: 16, z: 1 }));
}

#[test]
fn build_pairs_mutual_teleporters_only() {
    let doc = sample_doc();
    let mut epoch = Epoch { min: 0, max: 0, cur: 0 };
    let w = build_world(&doc, &mut epoch);
    // The no-destination teleporter is skipped whole; three rows remain.
    assert_eq!(w.teleporters.len(), 3);
    assert_eq!(w.links.len(), 3);
    let e0 = &w.teleporters[0];
    let e1 = &w.teleporters[1];
    let e2 = &w.teleporters[2];
    assert_eq!((e0.obj_id, e0.dst_id), (2, 3));
    assert_eq!((e1.obj_id, e1.dst_id), (3, 2));
    assert_eq!((e2.obj_id, e2.dst_id), (4, 99));
    // The mutual pair links symmetrically; the dangling one stays unlinked.
    let l0 = w.links[0].expect("linked");
    let l1 = w.links[1].expect("linked");
    assert_eq!(l0.target, e1.collider);
    assert_eq!(l1.target, e0.collider);
    assert!(w.links[2].is_none());
    // Teleporter colliders sit centered on their rectangles.
    let c0 = &w.colliders[e0.collider];
    assert_eq!((c0.x, c0.y, c0.z), (0, -8, 1));
    assert_eq!((c0.half_width, c0.half_height), (8, 16));
    assert_eq!(c0.kind, ColliderKind::Teleport);
    let c1 = &w.colliders[e1.collider];
    assert_eq!((c1.x, c1.y, c1.z), (48, -8, 1));
}

#[test]
fn build_emits_ladder_and_goal_zones() {
    let doc = sample_doc();
    let mut epoch = Epoch { min: 0, max: 0, cur: 0 };
    let w = build_world(&doc, &mut epoch);
    let ladders: Vec<&Collider> = w
        .colliders
        .iter()
        .filter(|c| matches!(c.kind, ColliderKind::Ladder))
        .collect();
    assert_eq!(ladders.len(), 1);
    assert_eq!((ladders[0].x, ladders[0].y, ladders[0].z), (16, -48, 1));
    assert_eq!((ladders[0].half_width, ladders[0].half_height), (8, 24));
    let goals: Vec<&Collider> = w
        .colliders
        .iter()
        .filter(|c| matches!(c.kind, ColliderKind::LevelEnd))
        .collect();
    assert_eq!(goals.len(), 1);
    assert_eq!((goals[0].x, goals[0].y, goals[0].z), (0, 16, 1));
}

#[test]
fn rebuild_is_deterministic_but_for_animation_seeds() {
    let doc = sample_doc();
    let mut e1 = Epoch { min: 0, max: 0, cur: 0 };
    let w1 = build_world(&doc, &mut e1);
    let mut e2 = Epoch { min: 0, max: 0, cur: 0 };
    let w2 = build_world(&doc, &mut e2);
    assert_eq!(w1.tiles, w2.tiles);
    assert_eq!(w1.colliders, w2.colliders);
    assert_eq!(w1.spawn, w2.spawn);
    assert_eq!(w1.teleporters, w2.teleporters);
    assert_eq!(w1.links, w2.links);
    assert_eq!((e1.min, e1.max), (e2.min, e2.max));
}

#[test]
fn missing_texture_skips_the_whole_tileset() {
    let mut doc = sample_doc();
    doc.tilesets[0].has_texture = false;
    let mut epoch = Epoch { min: 0, max: 0, cur: 0 };
    let w = build_world(&doc, &mut epoch);
    assert!(w.tiles.is_empty());
    // The object pass still runs.
    assert!(w.spawn.is_some());
    assert_eq!((epoch.min, epoch.max), (0, 0));
}

#[test]
fn linked_teleporters_carry_positions_and_partners() {
    let doc = sample_doc();
    let mut epoch = Epoch { min: 0, max: 0, cur: 0 };
    let w = build_world(&doc, &mut epoch);
    let live = wheel_of_time::runtime::linked_teleporters(&w);
    // Only the mutual pair is live; the dangling declaration is left out.
    assert_eq!(live.len(), 2);
    assert_eq!(live[0].entity, w.teleporters[0].collider);
    assert_eq!((live[0].pos.x, live[0].pos.y, live[0].pos.z), (0, -8, 1));
    assert_eq!(live[0].target, w.teleporters[1].collider);
    assert_eq!(live[1].entity, w.teleporters[1].collider);
    assert_eq!((live[1].pos.x, live[1].pos.y, live[1].pos.z), (48, -8, 1));
    assert_eq!(live[1].target, w.teleporters[0].collider);
}

#[test]
fn tile_lookup_is_position_addressable() {
    let doc = sample_doc();
    let mut epoch = Epoch { min: 0, max: 0, cur: 0 };
    let w = build_world(&doc, &mut epoch);
    assert_eq!(w.tile_at(0, 0, 0), Some(0));
    assert_eq!(w.tile_at(0, 1, 1), Some(3));
    assert_eq!(w.tile_at(0, 1, 0), Some(2));
    assert_eq!(w.tile_at(1, 0, 0), None);
    assert_eq!(w.tile_at(0, 5, 5), None);
}

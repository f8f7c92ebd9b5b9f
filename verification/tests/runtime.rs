use wheel_of_time::document::MapDocument;
use wheel_of_time::epoch::Epoch;
use wheel_of_time::epoch::EpochSprite;
use wheel_of_time::runtime::MapEvent;
use wheel_of_time::runtime::OverlapEvent;
use wheel_of_time::runtime::Player;
use wheel_of_time::runtime::Pos3;
use wheel_of_time::runtime::TeleporterEnt;
use wheel_of_time::runtime::check_victory;
use wheel_of_time::runtime::collect_changed_maps;
use wheel_of_time::runtime::collect_damage_hits;
use wheel_of_time::runtime::process_loaded_maps;
use wheel_of_time::runtime::teleport;
use wheel_of_time::world::Collider;
use wheel_of_time::world::ColliderKind;
use wheel_of_time::world::TileInstance;
use wheel_of_time::world::apply_epoch;

const PLAYER: usize = 1;

fn tp_pair() -> Vec<TeleporterEnt> {
    vec![
        TeleporterEnt { entity: 100, pos: Pos3 { x: 0, y: 0, z: 0 }, target: 101 },
        TeleporterEnt { entity: 101, pos: Pos3 { x: -50, y: 10, z: 0 }, target: 100 },
    ]
}

fn started(a: usize, b: usize) -> OverlapEvent {
    OverlapEvent { started: true, e1: a, e2: b, sensor: true }
}

fn stopped(a: usize, b: usize) -> OverlapEvent {
    OverlapEvent { started: false, e1: a, e2: b, sensor: true }
}

#[test]
fn overlap_start_records_entry_side() {
    let tps = tp_pair();
    let mut player = Player { teleporter_side: 0 };
    let mut pos = Pos3 { x: 3, y: 0, z: 4 };
    let mut epoch = Epoch { min: -1, max: 1, cur: 0 };
    teleport(&vec![started(PLAYER, 100)], PLAYER, &mut player, &mut pos, &tps, &mut epoch);
    assert_eq!(player.teleporter_side, 3);
    assert_eq!(pos, Pos3 { x: 3, y: 0, z: 4 });
    assert_eq!(epoch.cur, 0);
}

#[test]
fn same_side_exit_is_a_graze() {
    // Entered at side +3; exits at offset +1 on the same side: no teleport,
    // no epoch change, and the side resets to zero.
    let tps = tp_pair();
    let mut player = Player { teleporter_side: 3 };
    let mut pos = Pos3 { x: 1, y: 0, z: 4 };
    let mut epoch = Epoch { min: -1, max: 1, cur: 0 };
    teleport(&vec![stopped(100, PLAYER)], PLAYER, &mut player, &mut pos, &tps, &mut epoch);
    assert_eq!(player.teleporter_side, 0);
    assert_eq!(pos, Pos3 { x: 1, y: 0, z: 4 });
    assert_eq!(epoch.cur, 0);
}

#[test]
fn through_crossing_teleports_and_raises_epoch() {
    // Entered at side +3; exits at offset (-2, 1), the opposite side, and
    // the partner sits to the left: the player lands at the partner's
    // position plus the exit offset, and the epoch rises by one.
    let tps = tp_pair();
    let mut player = Player { teleporter_side: 3 };
    let mut pos = Pos3 { x: -2, y: 1, z: 4 };
    let mut epoch = Epoch { min: -1, max: 1, cur: 0 };
    teleport(&vec![stopped(PLAYER, 100)], PLAYER, &mut player, &mut pos, &tps, &mut epoch);
    assert_eq!(pos, Pos3 { x: -52, y: 11, z: 4 });
    assert_eq!(player.teleporter_side, 0);
    assert_eq!(epoch.cur, 1);
}

#[test]
fn through_crossing_at_top_bound_keeps_epoch() {
    let tps = tp_pair();
    let mut player = Player { teleporter_side: 3 };
    let mut pos = Pos3 { x: -2, y: 1, z: 0 };
    let mut epoch = Epoch { min: -1, max: 1, cur: 1 };
    teleport(&vec![stopped(PLAYER, 100)], PLAYER, &mut player, &mut pos, &tps, &mut epoch);
    assert_eq!(pos, Pos3 { x: -52, y: 11, z: 0 });
    assert_eq!(epoch.cur, 1);
}

#[test]
fn rightward_crossing_lowers_epoch() {
    // Crossing from the left teleporter to its rightward partner.
    let tps = tp_pair();
    let mut player = Player { teleporter_side: -3 };
    let mut pos = Pos3 { x: -48, y: 10, z: 0 };
    let mut epoch = Epoch { min: -1, max: 1, cur: 0 };
    // Offset from teleporter 101 at (-50, 10) is (+2, 0): entered at -3, so
    // this is a through-crossing toward entity 100 at x = 0 > -50.
    teleport(&vec![stopped(PLAYER, 101)], PLAYER, &mut player, &mut pos, &tps, &mut epoch);
    assert_eq!(pos, Pos3 { x: 2, y: 0, z: 0 });
    assert_eq!(epoch.cur, -1);
}

#[test]
fn duplicate_stop_events_collapse_to_one_transition() {
    let tps = tp_pair();
    let mut player = Player { teleporter_side: 3 };
    let mut pos = Pos3 { x: -2, y: 1, z: 0 };
    let mut epoch = Epoch { min: -5, max: 5, cur: 0 };
    let evs = vec![stopped(PLAYER, 100), stopped(PLAYER, 100)];
    teleport(&evs, PLAYER, &mut player, &mut pos, &tps, &mut epoch);
    // The second stop sees a reset side and counts as a graze.
    assert_eq!(epoch.cur, 1);
}

#[test]
fn unlinked_and_foreign_events_do_nothing() {
    let tps = tp_pair();
    let mut player = Player { teleporter_side: 7 };
    let mut pos = Pos3 { x: 9, y: 9, z: 9 };
    let mut epoch = Epoch { min: -1, max: 1, cur: 0 };
    let evs = vec![
        // Not a sensor contact.
        OverlapEvent { started: false, e1: PLAYER, e2: 100, sensor: false },
        // The player is not part of the pair.
        stopped(100, 101),
        // The other entity is no teleporter.
        stopped(PLAYER, 999),
    ];
    teleport(&evs, PLAYER, &mut player, &mut pos, &tps, &mut epoch);
    assert_eq!(player.teleporter_side, 7);
    assert_eq!(pos, Pos3 { x: 9, y: 9, z: 9 });
    assert_eq!(epoch.cur, 0);
}

#[test]
fn apply_epoch_projects_every_descriptor() {
    let sprite = EpochSprite { base: 10, delta: 0, first: -1, last: 1 };
    let mk = |visible: bool, tex: u32, s: Option<EpochSprite>| TileInstance {
        x: 0,
        y: 0,
        layer: 0,
        texture_index: tex,
        flip_h: false,
        flip_v: false,
        flip_d: false,
        visible,
        epoch_sprite: s,
    };
    let mut tiles = vec![mk(true, 10, Some(sprite)), mk(true, 77, None), mk(false, 10, Some(sprite))];
    let epoch = Epoch { min: -1, max: 1, cur: 1 };
    apply_epoch(&epoch, &mut tiles);
    assert!(tiles[0].visible);
    assert_eq!(tiles[0].texture_index, 12);
    // A tile without a descriptor is untouched.
    assert!(tiles[1].visible);
    assert_eq!(tiles[1].texture_index, 77);
    assert!(tiles[2].visible);
    assert_eq!(tiles[2].texture_index, 12);
    // Out of range: hidden, texture left alone.
    let epoch2 = Epoch { min: -2, max: 2, cur: 2 };
    apply_epoch(&epoch2, &mut tiles);
    assert!(!tiles[0].visible);
    assert_eq!(tiles[0].texture_index, 12);
    assert!(tiles[1].visible);
}

#[test]
fn damage_hits_collects_started_sensor_overlaps() {
    let colliders = vec![
        Collider { x: 0, y: 0, z: 0, half_width: 8, half_height: 8, kind: ColliderKind::Solid },
        Collider {
            x: 0,
            y: 0,
            z: 0,
            half_width: 4,
            half_height: 2,
            kind: ColliderKind::Damage(42),
        },
    ];
    let evs = vec![
        started(PLAYER, 1),
        stopped(PLAYER, 1),
        OverlapEvent { started: true, e1: PLAYER, e2: 1, sensor: false },
        started(PLAYER, 0),
        started(PLAYER, 7),
        started(1, PLAYER),
    ];
    let hits = collect_damage_hits(&evs, PLAYER, &colliders);
    assert_eq!(hits, vec![42, 42]);
}

#[test]
fn victory_needs_a_goal_overlap() {
    let colliders = vec![Collider {
        x: 0,
        y: 0,
        z: 0,
        half_width: 8,
        half_height: 8,
        kind: ColliderKind::LevelEnd,
    }];
    assert!(!check_victory(&vec![stopped(PLAYER, 0)], PLAYER, &colliders));
    assert!(check_victory(&vec![started(0, PLAYER)], PLAYER, &colliders));
}

#[test]
fn changed_maps_keep_arrival_order_and_cancel_on_removal() {
    let evs = vec![
        MapEvent::Added(1),
        MapEvent::Modified(2),
        MapEvent::Added(1),
        MapEvent::Removed(1),
        MapEvent::Added(3),
    ];
    assert_eq!(collect_changed_maps(&evs), vec![2, 3]);
}

fn empty_doc() -> MapDocument {
    MapDocument {
        width: 0,
        height: 0,
        tile_width: 16,
        tile_height: 16,
        tilesets: vec![],
        layers: vec![],
    }
}

#[test]
fn reload_rebuilds_only_named_documents() {
    let doc = empty_doc();
    let mut epoch = Epoch { min: 0, max: 0, cur: 0 };
    let evs = vec![MapEvent::Modified(7)];
    assert!(process_loaded_maps(&evs, 7, &doc, &mut epoch).is_some());
    assert!(process_loaded_maps(&evs, 8, &doc, &mut epoch).is_none());
    let cancelled = vec![MapEvent::Modified(7), MapEvent::Removed(7)];
    assert!(process_loaded_maps(&cancelled, 7, &doc, &mut epoch).is_none());
}

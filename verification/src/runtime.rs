//! The per-tick runtime decisions: teleporter crossing detection feeding the
//! epoch state machine, damage and goal-zone overlap detection, and the
//! reload bookkeeping that decides which map documents to rebuild.

use vstd::prelude::*;
use crate::epoch::Epoch;
use crate::epoch::spec_step;
use crate::world::Collider;
use crate::world::ColliderKind;
use crate::world::Teleporter;
use crate::world::TpEntry;
use crate::world::World;
use crate::world::built_world;
use crate::world::built_bounds;
use crate::world::build_world;
use crate::document::MapDocument;

verus! {

/// Largest coordinate magnitude the crossing logic accepts for a collider or
/// a player at rest, in world units.
pub const POS_LIMIT: i64 = 0x100_0000_0000;

/// Most overlap events one tick may carry.
pub const MAX_EVENTS: usize = 65536;

/// A position in the world; `z` is the layer depth.
#[derive(Clone, Copy, PartialEq, Eq, Structural, Debug)]
pub struct Pos3 {
    pub x: i64,
    pub y: i64,
    pub z: i64,
}

/// The player's transient traversal state: the signed horizontal offset at
/// which the last teleporter was entered, zero when none is pending.
#[derive(Clone, Copy, PartialEq, Eq, Structural, Debug)]
pub struct Player {
    pub teleporter_side: i64,
}

/// One sensor-overlap signal of a tick, as the physics collaborator delivers
/// them: a start or stop of overlap between two entities.
#[derive(Clone, Copy, PartialEq, Eq, Structural, Debug)]
pub struct OverlapEvent {
    pub started: bool,
    pub e1: usize,
    pub e2: usize,
    pub sensor: bool,
}

/// A live, linked teleporter: its entity (collider index), its position, and
/// its partner's entity.
#[derive(Clone, Copy, PartialEq, Eq, Structural, Debug)]
pub struct TeleporterEnt {
    pub entity: usize,
    pub pos: Pos3,
    pub target: usize,
}

/// First linked teleporter with the given entity, if any.
pub open spec fn find_tp(tps: Seq<TeleporterEnt>, e: int) -> Option<TeleporterEnt>
    decreases tps.len(),
{
    if tps.len() == 0 {
        Option::None
    } else if tps[0].entity == e {
        Option::Some(tps[0])
    } else {
        find_tp(tps.skip(1), e)
    }
}

proof fn lemma_find_tp_hit(tps: Seq<TeleporterEnt>, e: int, i: int)
    requires
        0 <= i < tps.len(),
        tps[i].entity == e,
        forall|j: int| 0 <= j < i ==> (#[trigger] tps[j]).entity != e,
    ensures
        find_tp(tps, e) == Option::Some(tps[i]),
    decreases i,
{
    if i == 0 {
    } else {
        assert(tps.skip(1)[i - 1] == tps[i]);
        assert(forall|j: int| 0 <= j < i - 1 ==> (#[trigger] tps.skip(1)[j]) == tps[j + 1]);
        lemma_find_tp_hit(tps.skip(1), e, i - 1);
    }
}

proof fn lemma_find_tp_miss(tps: Seq<TeleporterEnt>, e: int)
    requires
        forall|j: int| 0 <= j < tps.len() ==> (#[trigger] tps[j]).entity != e,
    ensures
        find_tp(tps, e) is None,
    decreases tps.len(),
{
    if tps.len() == 0 {
    } else {
        assert(forall|j: int| 0 <= j < tps.len() - 1 ==> (#[trigger] tps.skip(1)[j]) == tps[j + 1]);
        lemma_find_tp_miss(tps.skip(1), e);
    }
}

fn find_tp_exec(tps: &Vec<TeleporterEnt>, e: usize) -> (r: Option<usize>)
    ensures
        match r {
            Some(i) => i < tps@.len() && find_tp(tps@, e as int) == Option::Some(tps@[i as int]),
            None => find_tp(tps@, e as int) is None,
        },
{
    let mut i: usize = 0;
    while i < tps.len()
        invariant
            0 <= i <= tps@.len(),
            forall|j: int| 0 <= j < i ==> (#[trigger] tps@[j]).entity != e,
        decreases tps@.len() - i,
    {
        if tps[i].entity == e {
            proof {
                lemma_find_tp_hit(tps@, e as int, i as int);
            }
            return Some(i);
        }
        i = i + 1;
    }
    proof {
        lemma_find_tp_miss(tps@, e as int);
    }
    None
}

/// What one overlap event with teleporter `tp` does to the traversal state
/// `(side, px, py, dir)`. An overlap start records the entry side. An overlap
/// end that leaves on the entry side is a graze: it only resets the side. A
/// genuine through-crossing relocates the player to the partner's position
/// plus the exit offset and decides the crossing direction: rightward when
/// the partner sits to the right of the source.
pub open spec fn tp_with(
    tps: Seq<TeleporterEnt>,
    tp: TeleporterEnt,
    started: bool,
    side: int,
    px: int,
    py: int,
    dir: int,
) -> (int, int, int, int) {
    if started {
        (px - tp.pos.x, px, py, dir)
    } else {
        let dx = px - tp.pos.x;
        let dy = py - tp.pos.y;
        if dx * side >= 0 {
            (0, px, py, dir)
        } else {
            match find_tp(tps, tp.target as int) {
                Option::Some(tp2) => (
                    0,
                    tp2.pos.x + dx,
                    tp2.pos.y + dy,
                    if tp2.pos.x > tp.pos.x {
                        1
                    } else {
                        -1
                    },
                ),
                Option::None => (side, px, py, dir),
            }
        }
    }
}

/// One overlap event against the full traversal state: only sensor events in
/// which the player meets a linked teleporter act.
pub open spec fn tp_event_step(
    tps: Seq<TeleporterEnt>,
    pe: int,
    side: int,
    px: int,
    py: int,
    dir: int,
    ev: OverlapEvent,
) -> (int, int, int, int) {
    if !ev.sensor {
        (side, px, py, dir)
    } else {
        let other: int = if ev.e1 == pe {
            ev.e2 as int
        } else if ev.e2 == pe {
            ev.e1 as int
        } else {
            -1
        };
        if other < 0 {
            (side, px, py, dir)
        } else {
            match find_tp(tps, other) {
                Option::Some(tp) => tp_with(tps, tp, ev.started, side, px, py, dir),
                Option::None => (side, px, py, dir),
            }
        }
    }
}

/// The traversal state after the first `n` events of the tick's batch.
pub open spec fn tp_fold(
    tps: Seq<TeleporterEnt>,
    pe: int,
    side: int,
    px: int,
    py: int,
    evs: Seq<OverlapEvent>,
    n: int,
) -> (int, int, int, int)
    decreases n,
{
    if n <= 0 {
        (side, px, py, 0)
    } else {
        let st = tp_fold(tps, pe, side, px, py, evs, n - 1);
        tp_event_step(tps, pe, st.0, st.1, st.2, st.3, evs[n - 1])
    }
}

/// Drains one tick's overlap batch: records entry sides, ignores grazes,
/// relocates the player across genuine through-crossings, and applies at
/// most one epoch transition for the whole tick, decided by the last
/// resolved crossing.
pub fn teleport(
    events: &Vec<OverlapEvent>,
    player_entity: usize,
    player: &mut Player,
    player_pos: &mut Pos3,
    tps: &Vec<TeleporterEnt>,
    epoch: &mut Epoch,
)
    requires
        events@.len() <= MAX_EVENTS,
        -POS_LIMIT <= old(player_pos).x <= POS_LIMIT,
        -POS_LIMIT <= old(player_pos).y <= POS_LIMIT,
        -2 * POS_LIMIT <= old(player).teleporter_side <= 2 * POS_LIMIT,
        forall|i: int|
            0 <= i < tps@.len() ==> -POS_LIMIT <= (#[trigger] tps@[i]).pos.x <= POS_LIMIT
                && -POS_LIMIT <= tps@[i].pos.y <= POS_LIMIT,
    ensures
        ({
            let st = tp_fold(
                tps@,
                player_entity as int,
                old(player).teleporter_side as int,
                old(player_pos).x as int,
                old(player_pos).y as int,
                events@,
                events@.len() as int,
            );
            &&& final(player).teleporter_side == st.0
            &&& final(player_pos).x == st.1
            &&& final(player_pos).y == st.2
            &&& final(player_pos).z == old(player_pos).z
            &&& final(epoch).min == old(epoch).min
            &&& final(epoch).max == old(epoch).max
            &&& final(epoch).cur == spec_step(*old(epoch), st.3)
        }),
{
    let ghost side0: int = player.teleporter_side as int;
    let ghost px0: int = player_pos.x as int;
    let ghost py0: int = player_pos.y as int;
    let mut dir: i64 = 0;
    let mut k: usize = 0;
    while k < events.len()
        invariant
            events@.len() <= MAX_EVENTS,
            0 <= k <= events@.len(),
            -2 * POS_LIMIT <= side0 <= 2 * POS_LIMIT,
            -POS_LIMIT <= px0 <= POS_LIMIT,
            -POS_LIMIT <= py0 <= POS_LIMIT,
            forall|i: int|
                0 <= i < tps@.len() ==> -POS_LIMIT <= (#[trigger] tps@[i]).pos.x <= POS_LIMIT
                    && -POS_LIMIT <= tps@[i].pos.y <= POS_LIMIT,
            (
                player.teleporter_side as int,
                player_pos.x as int,
                player_pos.y as int,
                dir as int,
            ) == tp_fold(tps@, player_entity as int, side0, px0, py0, events@, k as int),
            player_pos.z == old(player_pos).z,
            -0x100_0000_0000 * (2 * k + 2) <= player.teleporter_side <= 0x100_0000_0000 * (2
                * k + 2),
            -0x100_0000_0000 * (2 * k + 1) <= player_pos.x <= 0x100_0000_0000 * (2 * k + 1),
            -0x100_0000_0000 * (2 * k + 1) <= player_pos.y <= 0x100_0000_0000 * (2 * k + 1),
            -1 <= dir <= 1,
            *epoch == *old(epoch),
        decreases events@.len() - k,
    {
        let ev = events[k];
        if ev.sensor {
            let mut other: usize = 0;
            let mut have_other: bool = false;
            if ev.e1 == player_entity {
                other = ev.e2;
                have_other = true;
            } else if ev.e2 == player_entity {
                other = ev.e1;
                have_other = true;
            }
            if have_other {
                match find_tp_exec(tps, other) {
                    Some(ti) => {
                        let tp = tps[ti];
                        proof {
                            assert(-POS_LIMIT <= tps@[ti as int].pos.x <= POS_LIMIT && -POS_LIMIT
                                <= tps@[ti as int].pos.y <= POS_LIMIT);
                        }
                        if ev.started {
                            player.teleporter_side = player_pos.x - tp.pos.x;
                        } else {
                            let dx: i64 = player_pos.x - tp.pos.x;
                            let dy: i64 = player_pos.y - tp.pos.y;
                            let same_side: bool = (dx >= 0 && player.teleporter_side >= 0) || (dx
                                <= 0 && player.teleporter_side <= 0);
                            proof {
                                assert(same_side == ((dx as int) * (
                                player.teleporter_side as int) >= 0)) by (nonlinear_arith)
                                    requires
                                        same_side == ((dx >= 0 && player.teleporter_side >= 0) || (
                                        dx <= 0 && player.teleporter_side <= 0)),
                                ;
                            }
                            if same_side {
                                player.teleporter_side = 0;
                            } else {
                                match find_tp_exec(tps, tp.target) {
                                    Some(ti2) => {
                                        let tp2 = tps[ti2];
                                        proof {
                                            assert(-POS_LIMIT <= tps@[ti2 as int].pos.x
                                                <= POS_LIMIT && -POS_LIMIT <= tps@[
                                            ti2 as int].pos.y <= POS_LIMIT);
                                        }
                                        player_pos.x = tp2.pos.x + dx;
                                        player_pos.y = tp2.pos.y + dy;
                                        player.teleporter_side = 0;
                                        dir = if tp2.pos.x > tp.pos.x {
                                            1
                                        } else {
                                            -1
                                        };
                                    },
                                    None => {},
                                }
                            }
                        }
                    },
                    None => {},
                }
            }
        }
        k = k + 1;
    }
    epoch.step(dir as i32);
}

/// The one damage amount an overlap event delivers to the player, if the
/// event is a sensor-overlap start between the player and a hurting collider.
pub open spec fn event_damage(cols: Seq<Collider>, pe: int, ev: OverlapEvent) -> Seq<u32> {
    if ev.started && ev.sensor {
        let other: int = if ev.e1 == pe {
            ev.e2 as int
        } else if ev.e2 == pe {
            ev.e1 as int
        } else {
            -1
        };
        if 0 <= other < cols.len() {
            match cols[other].kind {
                ColliderKind::Damage(bits) => seq![bits],
                _ => Seq::empty(),
            }
        } else {
            Seq::empty()
        }
    } else {
        Seq::empty()
    }
}

/// The damage amounts the first `n` events of a tick deliver, in order.
pub open spec fn spec_damage_hits(
    cols: Seq<Collider>,
    pe: int,
    evs: Seq<OverlapEvent>,
    n: int,
) -> Seq<u32>
    decreases n,
{
    if n <= 0 {
        Seq::empty()
    } else {
        spec_damage_hits(cols, pe, evs, n - 1) + event_damage(cols, pe, evs[n - 1])
    }
}

/// Collects the damage amounts (raw bit patterns) that this tick's overlap
/// batch delivers to the player, in event order.
pub fn collect_damage_hits(
    events: &Vec<OverlapEvent>,
    player_entity: usize,
    colliders: &Vec<Collider>,
) -> (r: Vec<u32>)
    ensures
        r@ == spec_damage_hits(
            colliders@,
            player_entity as int,
            events@,
            events@.len() as int,
        ),
{
    let mut r: Vec<u32> = Vec::new();
    let mut k: usize = 0;
    while k < events.len()
        invariant
            0 <= k <= events@.len(),
            r@ == spec_damage_hits(colliders@, player_entity as int, events@, k as int),
        decreases events@.len() - k,
    {
        let ev = events[k];
        if ev.started && ev.sensor {
            let mut other: usize = 0;
            let mut have_other: bool = false;
            if ev.e1 == player_entity {
                other = ev.e2;
                have_other = true;
            } else if ev.e2 == player_entity {
                other = ev.e1;
                have_other = true;
            }
            if have_other && other < colliders.len() {
                match colliders[other].kind {
                    ColliderKind::Damage(bits) => {
                        r.push(bits);
                    },
                    _ => {},
                }
            }
        }
        proof {
            assert(r@ =~= spec_damage_hits(
                colliders@,
                player_entity as int,
                events@,
                k + 1,
            ));
        }
        k = k + 1;
    }
    r
}

/// Whether one overlap event is the player reaching the goal zone.
pub open spec fn goal_hit(cols: Seq<Collider>, pe: int, ev: OverlapEvent) -> bool {
    &&& ev.started
    &&& ev.sensor
    &&& {
        let other: int = if ev.e1 == pe {
            ev.e2 as int
        } else if ev.e2 == pe {
            ev.e1 as int
        } else {
            -1
        };
        0 <= other < cols.len() && cols[other].kind is LevelEnd
    }
}

/// Whether this tick's overlap batch carries the player reaching the goal
/// zone.
pub fn check_victory(
    events: &Vec<OverlapEvent>,
    player_entity: usize,
    colliders: &Vec<Collider>,
) -> (r: bool)
    ensures
        r == exists|i: int|
            0 <= i < events@.len() && goal_hit(colliders@, player_entity as int, #[trigger] events@[i]),
{
    let mut found: bool = false;
    let mut k: usize = 0;
    while k < events.len()
        invariant
            0 <= k <= events@.len(),
            found == exists|i: int|
                0 <= i < k && goal_hit(colliders@, player_entity as int, #[trigger] events@[i]),
        decreases events@.len() - k,
    {
        let ev = events[k];
        if ev.started && ev.sensor {
            let mut other: usize = 0;
            let mut have_other: bool = false;
            if ev.e1 == player_entity {
                other = ev.e2;
                have_other = true;
            } else if ev.e2 == player_entity {
                other = ev.e1;
                have_other = true;
            }
            if have_other && other < colliders.len() {
                match colliders[other].kind {
                    ColliderKind::LevelEnd => {
                        proof {
                            assert(goal_hit(colliders@, player_entity as int, events@[k as int]));
                        }
                        found = true;
                    },
                    _ => {},
                }
            }
        }
        k = k + 1;
    }
    found
}

/// The live teleporters of a built world: one entry per resolved link,
/// carrying its collider's position and its partner's entity.
pub open spec fn spec_linked_tps(
    t: Seq<TpEntry>,
    links: Seq<Option<Teleporter>>,
    cols: Seq<Collider>,
    n: int,
) -> Seq<TeleporterEnt>
    decreases n,
{
    if n <= 0 {
        Seq::empty()
    } else {
        spec_linked_tps(t, links, cols, n - 1) + match links[n - 1] {
            Option::Some(tp) => seq![
                TeleporterEnt {
                    entity: t[n - 1].collider,
                    pos: Pos3 {
                        x: cols[t[n - 1].collider as int].x,
                        y: cols[t[n - 1].collider as int].y,
                        z: cols[t[n - 1].collider as int].z,
                    },
                    target: tp.target,
                },
            ],
            Option::None => Seq::empty(),
        }
    }
}

/// Assembles the live teleporter list of a built world.
pub fn linked_teleporters(w: &World) -> (r: Vec<TeleporterEnt>)
    requires
        w.wf(),
    ensures
        r@ == spec_linked_tps(w.teleporters@, w.links@, w.colliders@, w.teleporters@.len() as int),
{
    let mut r: Vec<TeleporterEnt> = Vec::new();
    let mut k: usize = 0;
    while k < w.teleporters.len()
        invariant
            w.wf(),
            0 <= k <= w.teleporters@.len(),
            r@ == spec_linked_tps(w.teleporters@, w.links@, w.colliders@, k as int),
        decreases w.teleporters@.len() - k,
    {
        let entry = w.teleporters[k];
        match w.links[k] {
            Some(tp) => {
                let c = w.colliders[entry.collider];
                r.push(
                    TeleporterEnt {
                        entity: entry.collider,
                        pos: Pos3 { x: c.x, y: c.y, z: c.z },
                        target: tp.target,
                    },
                );
            },
            None => {},
        }
        proof {
            assert(r@ =~= spec_linked_tps(
                w.teleporters@,
                w.links@,
                w.colliders@,
                k + 1,
            ));
        }
        k = k + 1;
    }
    r
}

/// A change notification for a map document.
#[derive(Clone, Copy, PartialEq, Eq, Structural, Debug)]
pub enum MapEvent {
    Added(u64),
    Modified(u64),
    Removed(u64),
}

/// The sequence without every occurrence of `id`.
pub open spec fn remove_id(s: Seq<u64>, id: u64) -> Seq<u64>
    decreases s.len(),
{
    if s.len() == 0 {
        Seq::empty()
    } else {
        remove_id(s.drop_last(), id) + (if s.last() != id {
            seq![s.last()]
        } else {
            Seq::empty()
        })
    }
}

/// The documents to rebuild after the first `n` change notifications: an
/// addition or modification queues its document, a removal cancels whatever
/// was queued for that same document.
pub open spec fn spec_collect(evs: Seq<MapEvent>, n: int) -> Seq<u64>
    decreases n,
{
    if n <= 0 {
        Seq::empty()
    } else {
        let prev = spec_collect(evs, n - 1);
        match evs[n - 1] {
            MapEvent::Added(id) => prev.push(id),
            MapEvent::Modified(id) => prev.push(id),
            MapEvent::Removed(id) => remove_id(prev, id),
        }
    }
}

fn remove_id_exec(s: &Vec<u64>, id: u64) -> (r: Vec<u64>)
    ensures
        r@ == remove_id(s@, id),
{
    let mut r: Vec<u64> = Vec::new();
    let mut k: usize = 0;
    while k < s.len()
        invariant
            0 <= k <= s@.len(),
            r@ == remove_id(s@.take(k as int), id),
        decreases s@.len() - k,
    {
        if s[k] != id {
            r.push(s[k]);
        }
        proof {
            assert(s@.take(k + 1).drop_last() =~= s@.take(k as int));
            assert(s@.take(k + 1).last() == s@[k as int]);
            assert(r@ =~= remove_id(s@.take(k + 1), id));
        }
        k = k + 1;
    }
    proof {
        assert(s@.take(s@.len() as int) =~= s@);
    }
    r
}

/// Drains one batch of change notifications into the list of documents to
/// rebuild, in arrival order.
pub fn collect_changed_maps(events: &Vec<MapEvent>) -> (r: Vec<u64>)
    ensures
        r@ == spec_collect(events@, events@.len() as int),
{
    let mut changed: Vec<u64> = Vec::new();
    let mut k: usize = 0;
    while k < events.len()
        invariant
            0 <= k <= events@.len(),
            changed@ == spec_collect(events@, k as int),
        decreases events@.len() - k,
    {
        match events[k] {
            MapEvent::Added(id) => {
                changed.push(id);
            },
            MapEvent::Modified(id) => {
                changed.push(id);
            },
            MapEvent::Removed(id) => {
                changed = remove_id_exec(&changed, id);
            },
        }
        k = k + 1;
    }
    changed
}

/// Rebuilds the world for the given document when this tick's change
/// notifications name it: the previous world is discarded whole and a fresh
/// one returned, and the global epoch bound is widened by what the rebuild
/// discovered. Without a matching notification nothing changes.
pub fn process_loaded_maps(
    events: &Vec<MapEvent>,
    doc_id: u64,
    doc: &MapDocument,
    epoch: &mut Epoch,
) -> (r: Option<World>)
    requires
        doc.wf(),
    ensures
        r.is_some() <==> spec_collect(events@, events@.len() as int).contains(doc_id),
        r matches Some(w) ==> built_world(*doc, w) && built_bounds(
            *doc,
            old(epoch).min as int,
            old(epoch).max as int,
            *final(epoch),
        ) && final(epoch).cur == old(epoch).cur,
        r is None ==> *final(epoch) == *old(epoch),
{
    let changed = collect_changed_maps(events);
    let mut hit: bool = false;
    let mut k: usize = 0;
    while k < changed.len()
        invariant
            0 <= k <= changed@.len(),
            hit == exists|i: int| 0 <= i < k && changed@[i] == doc_id,
        decreases changed@.len() - k,
    {
        if changed[k] == doc_id {
            hit = true;
        }
        k = k + 1;
    }
    if hit {
        proof {
            assert(changed@.contains(doc_id));
        }
        Some(build_world(doc, epoch))
    } else {
        proof {
            assert(!changed@.contains(doc_id));
        }
        None
    }
}

} // verus!

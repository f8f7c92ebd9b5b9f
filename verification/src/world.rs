//! The world build: one walk over the map document that emits positioned
//! tile instances, their epoch descriptors and animation clocks, static and
//! sensor colliders, the spawn marker, and the teleporter pairing table with
//! its resolved links.

use vstd::prelude::*;
use crate::anim::Frame;
use crate::anim::TileAnimation;
use crate::document::CollisionObject;
use crate::document::Layer;
use crate::document::MapDocument;
use crate::document::MapObject;
use crate::document::Shape;
use crate::document::TileDef;
use crate::document::TileLayerData;
use crate::document::TileRef;
use crate::document::get_float_prop;
use crate::document::get_int_prop;
use crate::document::spec_find_tile;
use crate::epoch::Epoch;
use crate::epoch::EpochSprite;
use crate::epoch::max_i;
use crate::epoch::min_i;
use crate::epoch::resolvable;
use crate::epoch::resolve_epoch;
use crate::epoch::sprite_base;
use crate::epoch::sprite_delta;
use crate::epoch::sprite_hi;
use crate::epoch::sprite_lo;
use crate::props::spec_get_decimal;
use crate::props::spec_get_int;
use crate::props::spec_get_object;

verus! {

/// Relies on rand::random: draws a value from the thread-local generator;
/// nothing is promised about which value comes back.
pub assume_specification<T>[ rand::random::<T> ]() -> (r: T)
    where
        rand::distributions::Standard: rand::distributions::Distribution<T>,
;

/// A live, positioned tile of one layer. `x` and `y` count cells bottom-up in
/// engine order; the texture index and visibility are what a renderer reads.
#[derive(Clone, Copy, PartialEq, Debug)]
pub struct TileInstance {
    pub x: u32,
    pub y: u32,
    pub layer: u32,
    pub texture_index: u32,
    pub flip_h: bool,
    pub flip_v: bool,
    pub flip_d: bool,
    pub visible: bool,
    pub epoch_sprite: Option<EpochSprite>,
}

/// What a collider does when touched.
#[derive(Clone, Copy, PartialEq, Debug)]
pub enum ColliderKind {
    /// Static solid geometry.
    Solid,
    /// A sensor that hurts: carries the declared amount's raw bit pattern.
    Damage(u32),
    /// A climbable sensor zone.
    Ladder,
    /// The goal sensor zone.
    LevelEnd,
    /// A teleporter sensor zone.
    Teleport,
}

/// An axis-aligned collider: a center position, half extents, and a kind.
#[derive(Clone, Copy, PartialEq, Debug)]
pub struct Collider {
    pub x: i64,
    pub y: i64,
    pub z: i64,
    pub half_width: i64,
    pub half_height: i64,
    pub kind: ColliderKind,
}

/// The spawn marker emitted for a `player_start` object.
#[derive(Clone, Copy, PartialEq, Debug)]
pub struct PlayerStart {
    pub x: i64,
    pub y: i64,
    pub z: i64,
}

/// A resolved teleporter link: the collider index of the partner.
#[derive(Clone, Copy, PartialEq, Eq, Structural, Debug)]
pub struct Teleporter {
    pub target: usize,
}

impl Teleporter {
    pub fn new(target: usize) -> (r: Teleporter)
        ensures
            r.target == target,
    {
        Teleporter { target }
    }
}

/// One row of the teleporter pairing table: the object id, the collider it
/// spawned, and the object id it declares as destination.
#[derive(Clone, Copy, PartialEq, Eq, Structural, Debug)]
pub struct TpEntry {
    pub obj_id: u32,
    pub collider: usize,
    pub dst_id: u32,
}

/// Everything one build of a map document produces. `anims` runs parallel to
/// `tiles` (the animation clocks are seeded randomly and live beside the
/// deterministic tile data); `links` runs parallel to `teleporters`.
#[derive(Clone, PartialEq, Debug)]
pub struct World {
    pub tiles: Vec<TileInstance>,
    pub anims: Vec<Option<TileAnimation>>,
    pub colliders: Vec<Collider>,
    pub spawn: Option<PlayerStart>,
    pub teleporters: Vec<TpEntry>,
    pub links: Vec<Option<Teleporter>>,
}

/// The tile layer at index `l`, if `l` names one.
pub open spec fn layer_tl(doc: MapDocument, l: int) -> Option<TileLayerData> {
    if 0 <= l < doc.layers@.len() {
        match doc.layers@[l] {
            Layer::Tiles(tl) => Option::Some(tl),
            Layer::Objects(_) => Option::None,
        }
    } else {
        Option::None
    }
}

/// The tile definition that engine cell `(x, y)` of layer `l` resolves to
/// during the pass over tileset `ts`: the cell's reference must name `ts`,
/// and the tileset must know the referenced id.
pub open spec fn cell_def(doc: MapDocument, ts: int, l: int, x: int, y: int) -> Option<TileDef> {
    match layer_tl(doc, l) {
        Option::Some(tl) => match doc.cell(tl, x, y) {
            Option::Some(r) => if r.tileset == ts {
                match spec_find_tile(doc.tilesets@[ts].tiles@, r.id as int) {
                    Option::Some(i) => Option::Some(doc.tilesets@[ts].tiles@[i]),
                    Option::None => Option::None,
                }
            } else {
                Option::None
            },
            Option::None => Option::None,
        },
        Option::None => Option::None,
    }
}

/// The epoch descriptor a tile definition yields, with its two contributions
/// to the global epoch bound, or `None` when the tile declares no epoch or
/// declares one that is not representable.
pub open spec fn sprite_of_def(td: TileDef) -> Option<(EpochSprite, i32, i32)> {
    let emin = spec_get_int(td.props@, "epoch_min"@);
    let emax = spec_get_int(td.props@, "epoch_max"@);
    match spec_get_int(td.props@, "epoch"@) {
        Option::Some(e) => if resolvable(td.id as int, e as int, emin, emax) {
            Option::Some(
                (
                    EpochSprite {
                        base: sprite_base(td.id as int, e as int, emin, emax) as u32,
                        delta: sprite_delta(e as int, emin, emax) as i32,
                        first: sprite_lo(e as int, emin, emax) as i32,
                        last: sprite_hi(e as int, emin, emax) as i32,
                    },
                    (sprite_lo(e as int, emin, emax) - e) as i32,
                    (sprite_hi(e as int, emin, emax) - e) as i32,
                ),
            )
        } else {
            Option::None
        },
        Option::None => Option::None,
    }
}

/// Animation frame lists the build accepts: non-empty, indexable by `u32`,
/// every duration positive. Anything else is treated as absent.
pub open spec fn anim_frames_ok(fs: Seq<Frame>) -> bool {
    &&& 1 <= fs.len() <= u32::MAX
    &&& forall|i: int| 0 <= i < fs.len() ==> (#[trigger] fs[i]).duration >= 1
}

/// The frame list a tile definition attaches to its instances, if any.
pub open spec fn def_frames(td: TileDef) -> Option<Seq<Frame>> {
    match td.animation {
        Option::Some(fs) => if anim_frames_ok(fs@) {
            Option::Some(fs@)
        } else {
            Option::None
        },
        Option::None => Option::None,
    }
}

/// The deterministic tile instance engine cell `(x, y)` produces during the
/// pass over tileset `ts`, paired with the frame list of its animation clock.
pub open spec fn cell_out(doc: MapDocument, ts: int, l: int, x: int, y: int) -> Option<
    (TileInstance, Option<Seq<Frame>>),
> {
    match layer_tl(doc, l) {
        Option::Some(tl) => match doc.cell(tl, x, y) {
            Option::Some(r) => if r.tileset == ts {
                match spec_find_tile(doc.tilesets@[ts].tiles@, r.id as int) {
                    Option::Some(i) => {
                        let td = doc.tilesets@[ts].tiles@[i];
                        Option::Some(
                            (
                                TileInstance {
                                    x: x as u32,
                                    y: y as u32,
                                    layer: l as u32,
                                    texture_index: r.id,
                                    flip_h: r.flip_h,
                                    flip_v: r.flip_v,
                                    flip_d: r.flip_d,
                                    visible: true,
                                    epoch_sprite: match sprite_of_def(td) {
                                        Option::Some(t) => Option::Some(t.0),
                                        Option::None => Option::None,
                                    },
                                },
                                def_frames(td),
                            ),
                        )
                    },
                    Option::None => Option::None,
                }
            } else {
                Option::None
            },
            Option::None => Option::None,
        },
        Option::None => Option::None,
    }
}

/// The contribution engine cell `(x, y)` folds into the global epoch bound.
pub open spec fn cell_contrib(doc: MapDocument, ts: int, l: int, x: int, y: int) -> Option<
    (i32, i32),
> {
    match cell_def(doc, ts, l, x, y) {
        Option::Some(td) => match sprite_of_def(td) {
            Option::Some(t) => Option::Some((t.1, t.2)),
            Option::None => Option::None,
        },
        Option::None => Option::None,
    }
}

/// World x of the cell's origin: cell times cell width, plus the layer's
/// offset.
pub open spec fn cell_base_x(doc: MapDocument, tl: TileLayerData, x: int) -> int {
    x * doc.tile_width + tl.offset_x
}

/// World y of the cell's origin; the layer's document y offset points down.
pub open spec fn cell_base_y(doc: MapDocument, tl: TileLayerData, y: int) -> int {
    y * doc.tile_height - tl.offset_y
}

/// The sensor collider one collision entry of a hurting tile yields: only
/// rectangular entries of class `"collider"` count.
pub open spec fn entry_cols(
    doc: MapDocument,
    tl: TileLayerData,
    x: int,
    y: int,
    bits: u32,
    e: CollisionObject,
) -> Seq<Collider> {
    match e.shape {
        Shape::Rect { width, height } => if e.kind@ == "collider"@ {
            seq![
                Collider {
                    x: (cell_base_x(doc, tl, x) + e.x) as i64,
                    y: (cell_base_y(doc, tl, y) + doc.tile_height as int / 2 - e.y - height as int
                        / 2) as i64,
                    z: 0,
                    half_width: (width as int / 2) as i64,
                    half_height: (height as int / 2) as i64,
                    kind: ColliderKind::Damage(bits),
                },
            ]
        } else {
            Seq::empty()
        },
        Shape::Other => Seq::empty(),
    }
}

/// The sensor colliders of the first `n` collision entries, in order.
pub open spec fn dmg_cols(
    doc: MapDocument,
    tl: TileLayerData,
    x: int,
    y: int,
    bits: u32,
    entries: Seq<CollisionObject>,
    n: int,
) -> Seq<Collider>
    decreases n,
{
    if n <= 0 {
        Seq::empty()
    } else {
        dmg_cols(doc, tl, x, y, bits, entries, n - 1) + entry_cols(doc, tl, x, y, bits, entries[n - 1])
    }
}

/// The full-cell static collider of a solid-layer tile.
pub open spec fn wall_col(doc: MapDocument, tl: TileLayerData, x: int, y: int) -> Collider {
    Collider {
        x: cell_base_x(doc, tl, x) as i64,
        y: cell_base_y(doc, tl, y) as i64,
        z: 0,
        half_width: 8,
        half_height: 8,
        kind: ColliderKind::Solid,
    }
}

/// All colliders engine cell `(x, y)` yields: damage sensors for a hurting
/// tile, then the solid collider when the layer is the reserved `"Walls"`
/// layer.
pub open spec fn cell_cols(doc: MapDocument, ts: int, l: int, x: int, y: int) -> Seq<Collider> {
    match layer_tl(doc, l) {
        Option::Some(tl) => match cell_def(doc, ts, l, x, y) {
            Option::Some(td) => (match spec_get_decimal(td.props@, "damage"@) {
                Option::Some(bits) => dmg_cols(
                    doc,
                    tl,
                    x,
                    y,
                    bits,
                    td.collision@,
                    td.collision@.len() as int,
                ),
                Option::None => Seq::empty(),
            }) + (if tl.name@ == "Walls"@ {
                seq![wall_col(doc, tl, x, y)]
            } else {
                Seq::empty()
            }),
            Option::None => Seq::empty(),
        },
        Option::None => Seq::empty(),
    }
}

/// Whether a seeded animation clock is one the build may attach for the given
/// declared frame list: the declared frames exactly, any in-range seed.
pub open spec fn anim_matches(fr: Option<Seq<Frame>>, a: Option<TileAnimation>) -> bool {
    match fr {
        Option::Some(fs) => match a {
            Option::Some(an) => an.frames@ == fs && an.wf() && an.clock <= 999,
            Option::None => false,
        },
        Option::None => a is None,
    }
}

/// An exact copy of a frame list.
fn copy_frames(frames: &Vec<Frame>) -> (r: Vec<Frame>)
    ensures
        r@ == frames@,
{
    let mut r: Vec<Frame> = Vec::new();
    let mut i: usize = 0;
    while i < frames.len()
        invariant
            0 <= i <= frames@.len(),
            r@ == frames@.take(i as int),
        decreases frames@.len() - i,
    {
        r.push(frames[i]);
        i = i + 1;
    }
    proof {
        assert(r@ =~= frames@);
    }
    r
}

/// Whether a declared frame list is one the build accepts.
fn frames_ok(frames: &Vec<Frame>) -> (b: bool)
    ensures
        b == anim_frames_ok(frames@),
{
    if frames.len() == 0 {
        return false;
    }
    if frames.len() > u32::MAX as usize {
        return false;
    }
    let mut i: usize = 0;
    while i < frames.len()
        invariant
            0 <= i <= frames@.len(),
            forall|j: int| 0 <= j < i ==> (#[trigger] frames@[j]).duration >= 1,
        decreases frames@.len() - i,
    {
        if frames[i].duration < 1 {
            return false;
        }
        i = i + 1;
    }
    true
}

/// The zero-or-one tile instances a cell yields.
pub open spec fn opt_tile_seq(o: Option<(TileInstance, Option<Seq<Frame>>)>) -> Seq<TileInstance> {
    match o {
        Option::Some(p) => seq![p.0],
        Option::None => Seq::empty(),
    }
}

/// The zero-or-one declared frame lists a cell yields, parallel to
/// `opt_tile_seq`.
pub open spec fn opt_frames_seq(o: Option<(TileInstance, Option<Seq<Frame>>)>) -> Seq<
    Option<Seq<Frame>>,
> {
    match o {
        Option::Some(p) => seq![p.1],
        Option::None => Seq::empty(),
    }
}

/// The zero-or-one global-bound contributions a cell yields.
pub open spec fn opt_contrib_seq(o: Option<(i32, i32)>) -> Seq<(i32, i32)> {
    match o {
        Option::Some(c) => seq![c],
        Option::None => Seq::empty(),
    }
}

/// What one stretch of the tile pass emits: tile instances, their declared
/// frame lists, colliders, and global-bound contributions, all in emission
/// order.
pub type TilePassOut = (Seq<TileInstance>, Seq<Option<Seq<Frame>>>, Seq<Collider>, Seq<(i32, i32)>);

pub open spec fn empty4() -> TilePassOut {
    (Seq::empty(), Seq::empty(), Seq::empty(), Seq::empty())
}

pub open spec fn cat4(a: TilePassOut, b: TilePassOut) -> TilePassOut {
    (a.0 + b.0, a.1 + b.1, a.2 + b.2, a.3 + b.3)
}

/// Everything one engine cell emits.
pub open spec fn cell_quad(doc: MapDocument, ts: int, l: int, x: int, y: int) -> TilePassOut {
    (
        opt_tile_seq(cell_out(doc, ts, l, x, y)),
        opt_frames_seq(cell_out(doc, ts, l, x, y)),
        cell_cols(doc, ts, l, x, y),
        opt_contrib_seq(cell_contrib(doc, ts, l, x, y)),
    )
}

/// What cells `y < n` of column `x` emit, in order.
pub open spec fn pass_cells(doc: MapDocument, ts: int, l: int, x: int, n: int) -> TilePassOut
    decreases n,
{
    if n <= 0 {
        empty4()
    } else {
        cat4(pass_cells(doc, ts, l, x, n - 1), cell_quad(doc, ts, l, x, n - 1))
    }
}

/// What columns `x < n` of layer `l` emit, in order.
pub open spec fn pass_columns(doc: MapDocument, ts: int, l: int, n: int) -> TilePassOut
    decreases n,
{
    if n <= 0 {
        empty4()
    } else {
        cat4(
            pass_columns(doc, ts, l, n - 1),
            pass_cells(doc, ts, l, n - 1, doc.height as int),
        )
    }
}

/// What the tile layers among layers `l < n` emit during the pass over
/// tileset `ts`, in order.
pub open spec fn pass_layers(doc: MapDocument, ts: int, n: int) -> TilePassOut
    decreases n,
{
    if n <= 0 {
        empty4()
    } else {
        cat4(
            pass_layers(doc, ts, n - 1),
            match doc.layers@[n - 1] {
                Layer::Tiles(_) => pass_columns(doc, ts, n - 1, doc.width as int),
                Layer::Objects(_) => empty4(),
            },
        )
    }
}

/// What tileset passes `ts < n` emit, in order; a tileset without a loaded
/// texture is skipped whole.
pub open spec fn pass_tilesets(doc: MapDocument, n: int) -> TilePassOut
    decreases n,
{
    if n <= 0 {
        empty4()
    } else {
        cat4(
            pass_tilesets(doc, n - 1),
            if doc.tilesets@[n - 1].has_texture {
                pass_layers(doc, n - 1, doc.layers@.len() as int)
            } else {
                empty4()
            },
        )
    }
}

/// Everything the full tile pass over the document emits.
pub open spec fn spec_tile_pass(doc: MapDocument) -> TilePassOut {
    pass_tilesets(doc, doc.tilesets@.len() as int)
}

/// Folds a stretch of global-bound contributions into a running bound, and
/// notes whether anything was folded at all.
pub open spec fn fold_bounds(cs: Seq<(i32, i32)>, lo: int, hi: int, any: bool) -> (int, int, bool)
    decreases cs.len(),
{
    if cs.len() == 0 {
        (lo, hi, any)
    } else {
        let p = fold_bounds(cs.drop_last(), lo, hi, any);
        (min_i(p.0, cs.last().0 as int), max_i(p.1, cs.last().1 as int), true)
    }
}

proof fn lemma_fold_bounds_concat(c1: Seq<(i32, i32)>, c2: Seq<(i32, i32)>, lo: int, hi: int, any: bool)
    ensures
        fold_bounds(c1 + c2, lo, hi, any) == ({
            let p = fold_bounds(c1, lo, hi, any);
            fold_bounds(c2, p.0, p.1, p.2)
        }),
    decreases c2.len(),
{
    if c2.len() == 0 {
        assert(c1 + c2 =~= c1);
    } else {
        lemma_fold_bounds_concat(c1, c2.drop_last(), lo, hi, any);
        assert((c1 + c2).drop_last() =~= c1 + c2.drop_last());
        assert((c1 + c2).last() == c2.last());
    }
}

/// `an` extends `an0` with one seeded animation slot for each declared frame
/// list of `fr`, in order.
pub open spec fn anims_extend(
    an0: Seq<Option<TileAnimation>>,
    fr: Seq<Option<Seq<Frame>>>,
    an: Seq<Option<TileAnimation>>,
) -> bool {
    &&& an.len() == an0.len() + fr.len()
    &&& an.take(an0.len() as int) == an0
    &&& forall|i: int| 0 <= i < fr.len() ==> anim_matches(fr[i], an[an0.len() + i])
}

proof fn lemma_quad_lens(doc: MapDocument, ts: int, l: int, x: int, y: int)
    ensures
        cell_quad(doc, ts, l, x, y).0.len() == cell_quad(doc, ts, l, x, y).1.len(),
{
    match cell_out(doc, ts, l, x, y) {
        Option::Some(_) => {},
        Option::None => {},
    }
}

proof fn lemma_pass_cells_lens(doc: MapDocument, ts: int, l: int, x: int, n: int)
    ensures
        pass_cells(doc, ts, l, x, n).0.len() == pass_cells(doc, ts, l, x, n).1.len(),
    decreases n,
{
    if n > 0 {
        lemma_pass_cells_lens(doc, ts, l, x, n - 1);
        lemma_quad_lens(doc, ts, l, x, n - 1);
    }
}

proof fn lemma_pass_columns_lens(doc: MapDocument, ts: int, l: int, n: int)
    ensures
        pass_columns(doc, ts, l, n).0.len() == pass_columns(doc, ts, l, n).1.len(),
    decreases n,
{
    if n > 0 {
        lemma_pass_columns_lens(doc, ts, l, n - 1);
        lemma_pass_cells_lens(doc, ts, l, n - 1, doc.height as int);
    }
}

proof fn lemma_pass_layers_lens(doc: MapDocument, ts: int, n: int)
    ensures
        pass_layers(doc, ts, n).0.len() == pass_layers(doc, ts, n).1.len(),
    decreases n,
{
    if n > 0 {
        lemma_pass_layers_lens(doc, ts, n - 1);
        lemma_pass_columns_lens(doc, ts, n - 1, doc.width as int);
    }
}

proof fn lemma_pass_tilesets_lens(doc: MapDocument, n: int)
    ensures
        pass_tilesets(doc, n).0.len() == pass_tilesets(doc, n).1.len(),
    decreases n,
{
    if n > 0 {
        lemma_pass_tilesets_lens(doc, n - 1);
        lemma_pass_layers_lens(doc, n - 1, doc.layers@.len() as int);
    }
}

proof fn lemma_anims_extend_concat(
    a0: Seq<Option<TileAnimation>>,
    f1: Seq<Option<Seq<Frame>>>,
    a1: Seq<Option<TileAnimation>>,
    f2: Seq<Option<Seq<Frame>>>,
    a2: Seq<Option<TileAnimation>>,
)
    requires
        anims_extend(a0, f1, a1),
        anims_extend(a1, f2, a2),
    ensures
        anims_extend(a0, f1 + f2, a2),
{
    assert(a2.take(a0.len() as int) =~= a1.take(a0.len() as int));
    assert forall|i: int| 0 <= i < (f1 + f2).len() implies anim_matches(
        (f1 + f2)[i],
        a2[a0.len() + i],
    ) by {
        if i < f1.len() {
            assert((f1 + f2)[i] == f1[i]);
            assert(a1[a0.len() + i] == a2.take(a1.len() as int)[a0.len() + i]);
            assert(anim_matches(f1[i], a1[a0.len() + i]));
        } else {
            assert((f1 + f2)[i] == f2[i - f1.len()]);
            assert(anim_matches(f2[i - f1.len()], a2[a1.len() + (i - f1.len())]));
        }
    }
}

/// A randomly seeded animation clock for the given accepted frame list.
fn seed_anim(frames: &Vec<Frame>) -> (a: TileAnimation)
    requires
        anim_frames_ok(frames@),
    ensures
        a.frames@ == frames@,
        a.wf(),
        a.clock <= 999,
{
    let fs = copy_frames(frames);
    let len: u32 = fs.len() as u32;
    let seed_index: u32 = rand::random::<u32>() % len;
    let seed_clock: u32 = rand::random::<u32>() % 1000;
    TileAnimation { frames: fs, index: seed_index, clock: seed_clock }
}

/// Extends the output columns and the running epoch bound with what one
/// engine cell yields during the pass over tileset `ts`.
fn build_cell(
    doc: &MapDocument,
    ts: usize,
    l: usize,
    tl: &TileLayerData,
    is_wall: bool,
    x: u32,
    y: u32,
    tiles: &mut Vec<TileInstance>,
    anims: &mut Vec<Option<TileAnimation>>,
    colliders: &mut Vec<Collider>,
    lo: &mut i32,
    hi: &mut i32,
    any: &mut bool,
)
    requires
        doc.wf(),
        ts < doc.tilesets@.len(),
        l < doc.layers@.len(),
        doc.layers@[l as int] == Layer::Tiles(*tl),
        is_wall == (tl.name@ == "Walls"@),
        x < doc.width,
        y < doc.height,
        old(tiles)@.len() == old(anims)@.len(),
    ensures
        final(tiles)@ == old(tiles)@ + cell_quad(*doc, ts as int, l as int, x as int, y as int).0,
        anims_extend(
            old(anims)@,
            cell_quad(*doc, ts as int, l as int, x as int, y as int).1,
            final(anims)@,
        ),
        final(colliders)@ == old(colliders)@ + cell_quad(
            *doc,
            ts as int,
            l as int,
            x as int,
            y as int,
        ).2,
        (*final(lo) as int, *final(hi) as int, *final(any)) == fold_bounds(
            cell_quad(*doc, ts as int, l as int, x as int, y as int).3,
            *old(lo) as int,
            *old(hi) as int,
            *old(any),
        ),
{
    let w: usize = doc.width as usize;
    let row: usize = (doc.height - 1 - y) as usize;
    proof {
        assert(row * w + (x as int) < (doc.height as int) * (doc.width as int))
            by (nonlinear_arith)
            requires
                row == doc.height - 1 - y,
                w == doc.width,
                0 <= x < doc.width,
                0 <= y < doc.height,
        ;
        assert((doc.height as int) * (doc.width as int) <= 32768 * 32768) by (nonlinear_arith)
            requires
                0 <= doc.height <= 32768,
                0 <= doc.width <= 32768,
        ;
        assert(tl.grid@.len() == doc.width * doc.height);
        assert((doc.width as int) * (doc.height as int) == (doc.height as int) * (
        doc.width as int)) by (nonlinear_arith);
    }
    let idx: usize = row * w + x as usize;
    let ghost spec_cell: Option<TileRef> = doc.cell(*tl, x as int, y as int);
    proof {
        assert(spec_cell == tl.grid@[idx as int]);
    }
    let mut found: Option<(TileRef, usize)> = None;
    match tl.grid[idx] {
        Some(r) => {
            if r.tileset == ts {
                match doc.tilesets[ts].find_tile(r.id) {
                    Some(ti) => {
                        found = Some((r, ti));
                    },
                    None => {},
                }
            }
        },
        None => {},
    }
    let ghost gco = cell_out(*doc, ts as int, l as int, x as int, y as int);
    let ghost gcols = cell_cols(*doc, ts as int, l as int, x as int, y as int);
    let ghost gcontrib = cell_contrib(*doc, ts as int, l as int, x as int, y as int);
    match found {
        None => {
            proof {
                assert(gco is None);
                assert(gcols =~= Seq::<Collider>::empty());
                assert(gcontrib is None);
                assert(opt_contrib_seq(gcontrib) =~= Seq::<(i32, i32)>::empty());
                assert(cell_quad(*doc, ts as int, l as int, x as int, y as int).3
                    == opt_contrib_seq(gcontrib));
                assert(fold_bounds(
                    cell_quad(*doc, ts as int, l as int, x as int, y as int).3,
                    *old(lo) as int,
                    *old(hi) as int,
                    *old(any),
                ) == (*old(lo) as int, *old(hi) as int, *old(any)));
                assert(final(tiles)@ =~= old(tiles)@ + opt_tile_seq(gco));
                assert(final(anims)@.take(old(anims)@.len() as int) =~= old(anims)@);
                assert(final(colliders)@ =~= old(colliders)@ + gcols);
            }
        },
        Some((r, ti)) => {
            let td: &TileDef = &doc.tilesets[ts].tiles[ti];
            proof {
                assert(cell_def(*doc, ts as int, l as int, x as int, y as int) == Option::Some(
                    *td,
                ));
            }
            // Epoch descriptor and global-bound contribution.
            let e_opt = get_int_prop(td, "epoch");
            let emin = get_int_prop(td, "epoch_min");
            let emax = get_int_prop(td, "epoch_max");
            let mut sprite: Option<EpochSprite> = None;
            match e_opt {
                Some(e) => {
                    match resolve_epoch(td.id, e, emin, emax) {
                        Some((s, glo, ghi)) => {
                            proof {
                                assert((sprite_lo(e as int, emin, emax) - e) as i32 == glo);
                                assert((sprite_hi(e as int, emin, emax) - e) as i32 == ghi);
                                assert(gcontrib == Option::Some((glo, ghi)));
                            }
                            sprite = Some(s);
                            if glo < *lo {
                                *lo = glo;
                            }
                            if ghi > *hi {
                                *hi = ghi;
                            }
                            *any = true;
                            proof {
                                let cs: Seq<(i32, i32)> = opt_contrib_seq(gcontrib);
                                assert(cs =~= seq![(glo, ghi)]);
                                assert(cs.drop_last() =~= Seq::<(i32, i32)>::empty());
                                assert(fold_bounds(
                                    cs.drop_last(),
                                    *old(lo) as int,
                                    *old(hi) as int,
                                    *old(any),
                                ) == (*old(lo) as int, *old(hi) as int, *old(any)));
                                assert(cs.last() == (glo, ghi));
                                assert(fold_bounds(
                                    cs,
                                    *old(lo) as int,
                                    *old(hi) as int,
                                    *old(any),
                                ) == (
                                    min_i(*old(lo) as int, glo as int),
                                    max_i(*old(hi) as int, ghi as int),
                                    true,
                                ));
                                assert(*lo as int == min_i(*old(lo) as int, glo as int));
                                assert(*hi as int == max_i(*old(hi) as int, ghi as int));
                            }
                        },
                        None => {},
                    }
                },
                None => {},
            }
            proof {
                match sprite_of_def(*td) {
                    Option::Some(t) => {
                        assert(sprite == Option::Some(t.0));
                        assert(gcontrib == Option::Some((t.1, t.2)));
                    },
                    Option::None => {
                        assert(sprite is None);
                        assert(gcontrib is None);
                    },
                }
            }
            // Animation clock, seeded randomly so identical tiles do not
            // pulse in lockstep.
            let mut anim: Option<TileAnimation> = None;
            match &td.animation {
                Some(frames) => {
                    if frames_ok(frames) {
                        anim = Some(seed_anim(frames));
                    }
                },
                None => {},
            }
            proof {
                assert(anim_matches(def_frames(*td), anim));
            }
            // The tile instance itself.
            let inst = TileInstance {
                x,
                y,
                layer: l as u32,
                texture_index: r.id,
                flip_h: r.flip_h,
                flip_v: r.flip_v,
                flip_d: r.flip_d,
                visible: true,
                epoch_sprite: sprite,
            };
            tiles.push(inst);
            anims.push(anim);
            proof {
                assert(gco == Option::Some((inst, def_frames(*td))));
                assert(final(tiles)@ =~= old(tiles)@ + opt_tile_seq(gco));
                assert(final(anims)@.take(old(anims)@.len() as int) =~= old(anims)@);
                assert(opt_frames_seq(gco)[0] == def_frames(*td));
                assert(final(anims)@[old(anims)@.len() as int] == anim);
                match gcontrib {
                    Option::Some(c) => {
                        assert(opt_contrib_seq(gcontrib) =~= seq![c]);
                        assert(seq![c].drop_last() =~= Seq::<(i32, i32)>::empty());
                        assert(seq![c].last() == c);
                    },
                    Option::None => {
                        assert(opt_contrib_seq(gcontrib) =~= Seq::<(i32, i32)>::empty());
                        assert(fold_bounds(
                            opt_contrib_seq(gcontrib),
                            *old(lo) as int,
                            *old(hi) as int,
                            *old(any),
                        ) == (*old(lo) as int, *old(hi) as int, *old(any)));
                    },
                }
            }
            // Damage sensors for a hurting tile.
            let ghost cols0: Seq<Collider> = colliders@;
            proof {
                assert((x as int) * (doc.tile_width as int) <= 32768 * 65536 && (x as int) * (
                doc.tile_width as int) >= 0) by (nonlinear_arith)
                    requires
                        0 <= x <= 32768,
                        0 <= doc.tile_width <= 65536,
                ;
                assert((y as int) * (doc.tile_height as int) <= 32768 * 65536 && (y as int) * (
                doc.tile_height as int) >= 0) by (nonlinear_arith)
                    requires
                        0 <= y <= 32768,
                        0 <= doc.tile_height <= 65536,
                ;
            }
            proof {
                assert(-0x4000_0000 <= tl.offset_x <= 0x4000_0000 && -0x4000_0000 <= tl.offset_y
                    <= 0x4000_0000);
            }
            let base_x: i64 = (x as i64) * (doc.tile_width as i64) + tl.offset_x;
            let base_y: i64 = (y as i64) * (doc.tile_height as i64) - tl.offset_y;
            proof {
                assert(base_x == cell_base_x(*doc, *tl, x as int));
                assert(base_y == cell_base_y(*doc, *tl, y as int));
            }
            match get_float_prop(td, "damage") {
                Some(bits) => {
                    let tag: String = "collider".to_owned();
                    let mut k: usize = 0;
                    while k < td.collision.len()
                        invariant
                            0 <= k <= td.collision@.len(),
                            doc.wf(),
                            td.wf(),
                            tag@ == "collider"@,
                            base_x == cell_base_x(*doc, *tl, x as int),
                            base_y == cell_base_y(*doc, *tl, y as int),
                            -0x8000_0000_0000 <= base_x <= 0x8000_0000_0000,
                            -0x8000_0000_0000 <= base_y <= 0x8000_0000_0000,
                            1 <= doc.tile_height <= 65536,
                            (*lo as int, *hi as int, *any) == fold_bounds(
                                cell_quad(*doc, ts as int, l as int, x as int, y as int).3,
                                *old(lo) as int,
                                *old(hi) as int,
                                *old(any),
                            ),
                            colliders@ == cols0 + dmg_cols(
                                *doc,
                                *tl,
                                x as int,
                                y as int,
                                bits,
                                td.collision@,
                                k as int,
                            ),
                        decreases td.collision@.len() - k,
                    {
                        let e: &CollisionObject = &td.collision[k];
                        proof {
                            assert(td.collision@[k as int].wf());
                        }
                        match e.shape {
                            Shape::Rect { width, height } => {
                                if e.kind == tag {
                                    let cx: i64 = base_x + e.x;
                                    let cy: i64 = base_y + (doc.tile_height as i64) / 2 - e.y
                                        - height / 2;
                                    colliders.push(
                                        Collider {
                                            x: cx,
                                            y: cy,
                                            z: 0,
                                            half_width: width / 2,
                                            half_height: height / 2,
                                            kind: ColliderKind::Damage(bits),
                                        },
                                    );
                                }
                            },
                            Shape::Other => {},
                        }
                        proof {
                            assert(colliders@ =~= cols0 + dmg_cols(
                                *doc,
                                *tl,
                                x as int,
                                y as int,
                                bits,
                                td.collision@,
                                k + 1,
                            ));
                        }
                        k = k + 1;
                    }
                },
                None => {
                    proof {
                        assert(colliders@ =~= cols0 + Seq::<Collider>::empty());
                    }
                },
            }
            // Full-cell solid collider on the reserved solid-geometry layer.
            if is_wall {
                colliders.push(
                    Collider {
                        x: base_x,
                        y: base_y,
                        z: 0,
                        half_width: 8,
                        half_height: 8,
                        kind: ColliderKind::Solid,
                    },
                );
            }
            proof {
                assert(final(colliders)@ =~= old(colliders)@ + gcols);
                assert((*lo as int, *hi as int, *any) == fold_bounds(
                    cell_quad(*doc, ts as int, l as int, x as int, y as int).3,
                    *old(lo) as int,
                    *old(hi) as int,
                    *old(any),
                ));
            }
        },
    }
}

/// Runs `build_cell` over every cell of one column of a tile layer.
fn build_column(
    doc: &MapDocument,
    ts: usize,
    l: usize,
    tl: &TileLayerData,
    is_wall: bool,
    xx: u32,
    tiles: &mut Vec<TileInstance>,
    anims: &mut Vec<Option<TileAnimation>>,
    colliders: &mut Vec<Collider>,
    lo: &mut i32,
    hi: &mut i32,
    any: &mut bool,
)
    requires
        doc.wf(),
        ts < doc.tilesets@.len(),
        l < doc.layers@.len(),
        doc.layers@[l as int] == Layer::Tiles(*tl),
        is_wall == (tl.name@ == "Walls"@),
        xx < doc.width,
        old(tiles)@.len() == old(anims)@.len(),
    ensures
        final(tiles)@ == old(tiles)@ + pass_cells(
            *doc,
            ts as int,
            l as int,
            xx as int,
            doc.height as int,
        ).0,
        anims_extend(
            old(anims)@,
            pass_cells(*doc, ts as int, l as int, xx as int, doc.height as int).1,
            final(anims)@,
        ),
        final(colliders)@ == old(colliders)@ + pass_cells(
            *doc,
            ts as int,
            l as int,
            xx as int,
            doc.height as int,
        ).2,
        (*final(lo) as int, *final(hi) as int, *final(any)) == fold_bounds(
            pass_cells(*doc, ts as int, l as int, xx as int, doc.height as int).3,
            *old(lo) as int,
            *old(hi) as int,
            *old(any),
        ),
{
    let ghost t0: Seq<TileInstance> = tiles@;
    let ghost a0: Seq<Option<TileAnimation>> = anims@;
    let ghost c0: Seq<Collider> = colliders@;
    let ghost lo0: i32 = *lo;
    let ghost hi0: i32 = *hi;
    let ghost any0: bool = *any;
    let mut yy: u32 = 0;
    proof {
        assert(pass_cells(*doc, ts as int, l as int, xx as int, 0) == empty4());
        assert(t0 + empty4().0 =~= t0);
        assert(c0 + empty4().2 =~= c0);
        assert(a0.take(a0.len() as int) =~= a0);
    }
    while yy < doc.height
        invariant
            doc.wf(),
            ts < doc.tilesets@.len(),
            l < doc.layers@.len(),
            doc.layers@[l as int] == Layer::Tiles(*tl),
            is_wall == (tl.name@ == "Walls"@),
            xx < doc.width,
            0 <= yy <= doc.height,
            t0.len() == a0.len(),
            tiles@.len() == anims@.len(),
            tiles@ == t0 + pass_cells(*doc, ts as int, l as int, xx as int, yy as int).0,
            anims_extend(
                a0,
                pass_cells(*doc, ts as int, l as int, xx as int, yy as int).1,
                anims@,
            ),
            colliders@ == c0 + pass_cells(*doc, ts as int, l as int, xx as int, yy as int).2,
            (*lo as int, *hi as int, *any) == fold_bounds(
                pass_cells(*doc, ts as int, l as int, xx as int, yy as int).3,
                lo0 as int,
                hi0 as int,
                any0,
            ),
        decreases doc.height - yy,
    {
        let ghost t_mid: Seq<TileInstance> = tiles@;
        let ghost a_mid: Seq<Option<TileAnimation>> = anims@;
        let ghost c_mid: Seq<Collider> = colliders@;
        let ghost lo_mid: i32 = *lo;
        let ghost hi_mid: i32 = *hi;
        let ghost any_mid: bool = *any;
        build_cell(doc, ts, l, tl, is_wall, xx, yy, tiles, anims, colliders, lo, hi, any);
        proof {
            let gp = pass_cells(*doc, ts as int, l as int, xx as int, yy as int);
            let gq = cell_quad(*doc, ts as int, l as int, xx as int, yy as int);
            let gn = pass_cells(*doc, ts as int, l as int, xx as int, yy + 1);
            assert(gn == cat4(gp, gq));
            lemma_pass_cells_lens(*doc, ts as int, l as int, xx as int, yy + 1);
            assert(tiles@ =~= t0 + gn.0);
            lemma_anims_extend_concat(a0, gp.1, a_mid, gq.1, anims@);
            assert(gn.1 == gp.1 + gq.1);
            assert(colliders@ =~= c0 + gn.2);
            lemma_fold_bounds_concat(gp.3, gq.3, lo0 as int, hi0 as int, any0);
            assert(gn.3 == gp.3 + gq.3);
            assert((*lo as int, *hi as int, *any) == fold_bounds(
                gn.3,
                lo0 as int,
                hi0 as int,
                any0,
            ));
        }
        yy = yy + 1;
    }
}

/// Runs `build_column` over every column of a tile layer.
#[verifier::rlimit(60)]
fn build_layer(
    doc: &MapDocument,
    ts: usize,
    l: usize,
    tl: &TileLayerData,
    tiles: &mut Vec<TileInstance>,
    anims: &mut Vec<Option<TileAnimation>>,
    colliders: &mut Vec<Collider>,
    lo: &mut i32,
    hi: &mut i32,
    any: &mut bool,
)
    requires
        doc.wf(),
        ts < doc.tilesets@.len(),
        l < doc.layers@.len(),
        doc.layers@[l as int] == Layer::Tiles(*tl),
        old(tiles)@.len() == old(anims)@.len(),
    ensures
        final(tiles)@ == old(tiles)@ + pass_columns(
            *doc,
            ts as int,
            l as int,
            doc.width as int,
        ).0,
        anims_extend(
            old(anims)@,
            pass_columns(*doc, ts as int, l as int, doc.width as int).1,
            final(anims)@,
        ),
        final(colliders)@ == old(colliders)@ + pass_columns(
            *doc,
            ts as int,
            l as int,
            doc.width as int,
        ).2,
        (*final(lo) as int, *final(hi) as int, *final(any)) == fold_bounds(
            pass_columns(*doc, ts as int, l as int, doc.width as int).3,
            *old(lo) as int,
            *old(hi) as int,
            *old(any),
        ),
{
    let walls: String = "Walls".to_owned();
    let is_wall: bool = tl.name == walls;
    let ghost t0: Seq<TileInstance> = tiles@;
    let ghost a0: Seq<Option<TileAnimation>> = anims@;
    let ghost c0: Seq<Collider> = colliders@;
    let ghost lo0: i32 = *lo;
    let ghost hi0: i32 = *hi;
    let ghost any0: bool = *any;
    let mut xx: u32 = 0;
    proof {
        assert(pass_columns(*doc, ts as int, l as int, 0) == empty4());
        assert(t0 + empty4().0 =~= t0);
        assert(c0 + empty4().2 =~= c0);
        assert(a0.take(a0.len() as int) =~= a0);
    }
    while xx < doc.width
        invariant
            doc.wf(),
            ts < doc.tilesets@.len(),
            l < doc.layers@.len(),
            doc.layers@[l as int] == Layer::Tiles(*tl),
            is_wall == (tl.name@ == "Walls"@),
            0 <= xx <= doc.width,
            t0.len() == a0.len(),
            tiles@.len() == anims@.len(),
            tiles@ == t0 + pass_columns(*doc, ts as int, l as int, xx as int).0,
            anims_extend(a0, pass_columns(*doc, ts as int, l as int, xx as int).1, anims@),
            colliders@ == c0 + pass_columns(*doc, ts as int, l as int, xx as int).2,
            (*lo as int, *hi as int, *any) == fold_bounds(
                pass_columns(*doc, ts as int, l as int, xx as int).3,
                lo0 as int,
                hi0 as int,
                any0,
            ),
        decreases doc.width - xx,
    {
        let ghost t_mid: Seq<TileInstance> = tiles@;
        let ghost a_mid: Seq<Option<TileAnimation>> = anims@;
        let ghost c_mid: Seq<Collider> = colliders@;
        build_column(doc, ts, l, tl, is_wall, xx, tiles, anims, colliders, lo, hi, any);
        proof {
            let gp = pass_columns(*doc, ts as int, l as int, xx as int);
            let gq = pass_cells(*doc, ts as int, l as int, xx as int, doc.height as int);
            let gn = pass_columns(*doc, ts as int, l as int, xx + 1);
            assert(gn == cat4(gp, gq));
            lemma_pass_columns_lens(*doc, ts as int, l as int, xx + 1);
            assert(tiles@ =~= t0 + gn.0);
            lemma_anims_extend_concat(a0, gp.1, a_mid, gq.1, anims@);
            assert(gn.1 == gp.1 + gq.1);
            assert(colliders@ =~= c0 + gn.2);
            lemma_fold_bounds_concat(gp.3, gq.3, lo0 as int, hi0 as int, any0);
            assert(gn.3 == gp.3 + gq.3);
            assert((*lo as int, *hi as int, *any) == fold_bounds(
                gn.3,
                lo0 as int,
                hi0 as int,
                any0,
            ));
        }
        xx = xx + 1;
    }
}

/// The full tile pass: every tileset against every tile layer, in document
/// order, skipping tilesets whose texture is missing.
#[verifier::rlimit(60)]
fn build_tile_pass(
    doc: &MapDocument,
    tiles: &mut Vec<TileInstance>,
    anims: &mut Vec<Option<TileAnimation>>,
    colliders: &mut Vec<Collider>,
    lo: &mut i32,
    hi: &mut i32,
    any: &mut bool,
)
    requires
        doc.wf(),
        old(tiles)@.len() == old(anims)@.len(),
    ensures
        final(tiles)@ == old(tiles)@ + spec_tile_pass(*doc).0,
        anims_extend(old(anims)@, spec_tile_pass(*doc).1, final(anims)@),
        final(colliders)@ == old(colliders)@ + spec_tile_pass(*doc).2,
        (*final(lo) as int, *final(hi) as int, *final(any)) == fold_bounds(
            spec_tile_pass(*doc).3,
            *old(lo) as int,
            *old(hi) as int,
            *old(any),
        ),
{
    let ghost t0: Seq<TileInstance> = tiles@;
    let ghost a0: Seq<Option<TileAnimation>> = anims@;
    let ghost c0: Seq<Collider> = colliders@;
    let ghost lo0: i32 = *lo;
    let ghost hi0: i32 = *hi;
    let ghost any0: bool = *any;
    let mut ts: usize = 0;
    proof {
        assert(pass_tilesets(*doc, 0) == empty4());
        assert(t0 + empty4().0 =~= t0);
        assert(c0 + empty4().2 =~= c0);
        assert(a0.take(a0.len() as int) =~= a0);
    }
    while ts < doc.tilesets.len()
        invariant
            doc.wf(),
            0 <= ts <= doc.tilesets@.len(),
            t0.len() == a0.len(),
            tiles@.len() == anims@.len(),
            tiles@ == t0 + pass_tilesets(*doc, ts as int).0,
            anims_extend(a0, pass_tilesets(*doc, ts as int).1, anims@),
            colliders@ == c0 + pass_tilesets(*doc, ts as int).2,
            (*lo as int, *hi as int, *any) == fold_bounds(
                pass_tilesets(*doc, ts as int).3,
                lo0 as int,
                hi0 as int,
                any0,
            ),
        decreases doc.tilesets@.len() - ts,
    {
        let ghost ts_t: Seq<TileInstance> = tiles@;
        let ghost ts_a: Seq<Option<TileAnimation>> = anims@;
        let ghost ts_c: Seq<Collider> = colliders@;
        let ghost ts_lo: i32 = *lo;
        let ghost ts_hi: i32 = *hi;
        let ghost ts_any: bool = *any;
        if doc.tilesets[ts].has_texture {
            let mut l: usize = 0;
            proof {
                assert(pass_layers(*doc, ts as int, 0) == empty4());
                assert(ts_t + empty4().0 =~= ts_t);
                assert(ts_c + empty4().2 =~= ts_c);
                assert(ts_a.take(ts_a.len() as int) =~= ts_a);
            }
            while l < doc.layers.len()
                invariant
                    doc.wf(),
                    ts < doc.tilesets@.len(),
                    doc.tilesets@[ts as int].has_texture,
                    0 <= l <= doc.layers@.len(),
                    ts_t.len() == ts_a.len(),
                    tiles@.len() == anims@.len(),
                    tiles@ == ts_t + pass_layers(*doc, ts as int, l as int).0,
                    anims_extend(ts_a, pass_layers(*doc, ts as int, l as int).1, anims@),
                    colliders@ == ts_c + pass_layers(*doc, ts as int, l as int).2,
                    (*lo as int, *hi as int, *any) == fold_bounds(
                        pass_layers(*doc, ts as int, l as int).3,
                        ts_lo as int,
                        ts_hi as int,
                        ts_any,
                    ),
                decreases doc.layers@.len() - l,
            {
                let ghost l_t: Seq<TileInstance> = tiles@;
                let ghost l_a: Seq<Option<TileAnimation>> = anims@;
                let ghost l_c: Seq<Collider> = colliders@;
                let ghost gq: TilePassOut = (match doc.layers@[l as int] {
                    Layer::Tiles(_) => pass_columns(*doc, ts as int, l as int, doc.width as int),
                    Layer::Objects(_) => empty4(),
                });
                match &doc.layers[l] {
                    Layer::Tiles(tl) => {
                        build_layer(doc, ts, l, tl, tiles, anims, colliders, lo, hi, any);
                    },
                    Layer::Objects(_) => {
                        proof {
                            assert(gq == empty4());
                            assert(anims_extend(anims@, gq.1, anims@)) by {
                                assert(anims@.take(anims@.len() as int) =~= anims@);
                            }
                        }
                    },
                }
                proof {
                    let gp = pass_layers(*doc, ts as int, l as int);
                    let gn = pass_layers(*doc, ts as int, l + 1);
                    assert(gn == cat4(gp, gq));
                    lemma_pass_layers_lens(*doc, ts as int, l + 1);
                    assert(tiles@ =~= ts_t + gn.0);
                    lemma_anims_extend_concat(ts_a, gp.1, l_a, gq.1, anims@);
                    assert(gn.1 == gp.1 + gq.1);
                    assert(colliders@ =~= ts_c + gn.2);
                    lemma_fold_bounds_concat(gp.3, gq.3, ts_lo as int, ts_hi as int, ts_any);
                    assert(gn.3 == gp.3 + gq.3);
                    assert((*lo as int, *hi as int, *any) == fold_bounds(
                        gn.3,
                        ts_lo as int,
                        ts_hi as int,
                        ts_any,
                    ));
                }
                l = l + 1;
            }
        }
        proof {
            let gp = pass_tilesets(*doc, ts as int);
            let gq = (if doc.tilesets@[ts as int].has_texture {
                pass_layers(*doc, ts as int, doc.layers@.len() as int)
            } else {
                empty4()
            });
            let gn = pass_tilesets(*doc, ts + 1);
            assert(gn == cat4(gp, gq));
            lemma_pass_tilesets_lens(*doc, ts + 1);
            if !doc.tilesets@[ts as int].has_texture {
                assert(gq == empty4());
                assert(anims_extend(anims@, gq.1, anims@)) by {
                    assert(anims@.take(anims@.len() as int) =~= anims@);
                }
            }
            assert(tiles@ =~= t0 + gn.0);
            lemma_anims_extend_concat(a0, gp.1, ts_a, gq.1, anims@);
            assert(gn.1 == gp.1 + gq.1);
            assert(colliders@ =~= c0 + gn.2);
            lemma_fold_bounds_concat(gp.3, gq.3, lo0 as int, hi0 as int, any0);
            assert(gn.3 == gp.3 + gq.3);
            assert((*lo as int, *hi as int, *any) == fold_bounds(
                gn.3,
                lo0 as int,
                hi0 as int,
                any0,
            ));
        }
        ts = ts + 1;
    }
}

/// World x of an object's anchor, shifted half a cell left as the engine
/// centers objects on cells.
pub open spec fn obj_pos_x(doc: MapDocument, o: MapObject) -> int {
    o.x - doc.tile_width as int / 2
}

/// World y of an object's anchor: the document's top-down y flipped against
/// the map's full height, shifted half a cell down.
pub open spec fn obj_pos_y(doc: MapDocument, o: MapObject) -> int {
    doc.height as int * doc.tile_height as int - o.y - doc.tile_height as int / 2
}

/// The sensor collider a rectangular object spawns: centered on its
/// rectangle, at the depth of its layer.
pub open spec fn obj_col(
    doc: MapDocument,
    l: int,
    o: MapObject,
    width: i64,
    height: i64,
    k: ColliderKind,
) -> Collider {
    Collider {
        x: (obj_pos_x(doc, o) + width as int / 2) as i64,
        y: (obj_pos_y(doc, o) - height as int / 2) as i64,
        z: l as i64,
        half_width: (width as int / 2) as i64,
        half_height: (height as int / 2) as i64,
        kind: k,
    }
}

/// What the object pass has accumulated: its colliders, the teleporter
/// pairing table, and the spawn marker (the last `player_start` wins).
pub type ObjPassOut = (Seq<Collider>, Seq<TpEntry>, Option<PlayerStart>);

/// Dispatches one object on its type tag. `base` is the number of colliders
/// the tile pass emitted, so a pairing-table row records the index its
/// collider will occupy.
pub open spec fn obj_step(
    doc: MapDocument,
    l: int,
    base: int,
    st: ObjPassOut,
    o: MapObject,
) -> ObjPassOut {
    if o.kind@ == "player_start"@ {
        (
            st.0,
            st.1,
            Option::Some(
                PlayerStart {
                    x: obj_pos_x(doc, o) as i64,
                    y: obj_pos_y(doc, o) as i64,
                    z: l as i64,
                },
            ),
        )
    } else if o.kind@ == "teleport"@ {
        match o.shape {
            Shape::Rect { width, height } => match spec_get_object(o.props@, "dst"@) {
                Option::Some(d) => (
                    st.0.push(obj_col(doc, l, o, width, height, ColliderKind::Teleport)),
                    st.1.push(
                        TpEntry {
                            obj_id: o.id,
                            collider: (base + st.0.len()) as usize,
                            dst_id: d,
                        },
                    ),
                    st.2,
                ),
                Option::None => st,
            },
            Shape::Other => st,
        }
    } else if o.kind@ == "ladder"@ {
        match o.shape {
            Shape::Rect { width, height } => (
                st.0.push(obj_col(doc, l, o, width, height, ColliderKind::Ladder)),
                st.1,
                st.2,
            ),
            Shape::Other => st,
        }
    } else if o.kind@ == "level_end"@ {
        match o.shape {
            Shape::Rect { width, height } => (
                st.0.push(obj_col(doc, l, o, width, height, ColliderKind::LevelEnd)),
                st.1,
                st.2,
            ),
            Shape::Other => st,
        }
    } else {
        st
    }
}

/// The object pass over the first `n` objects of one object layer.
pub open spec fn objs_upto(
    doc: MapDocument,
    l: int,
    base: int,
    st0: ObjPassOut,
    objs: Seq<MapObject>,
    n: int,
) -> ObjPassOut
    decreases n,
{
    if n <= 0 {
        st0
    } else {
        obj_step(doc, l, base, objs_upto(doc, l, base, st0, objs, n - 1), objs[n - 1])
    }
}

/// The object pass over the object layers among the first `n` layers.
pub open spec fn objpass_layers(doc: MapDocument, base: int, n: int) -> ObjPassOut
    decreases n,
{
    if n <= 0 {
        (Seq::empty(), Seq::empty(), Option::None)
    } else {
        let st = objpass_layers(doc, base, n - 1);
        match doc.layers@[n - 1] {
            Layer::Objects(ol) => objs_upto(doc, n - 1, base, st, ol.objects@, ol.objects@.len() as int),
            Layer::Tiles(_) => st,
        }
    }
}

/// The full object pass of a build whose tile pass emitted `base` colliders.
pub open spec fn spec_obj_pass(doc: MapDocument, base: int) -> ObjPassOut {
    objpass_layers(doc, base, doc.layers@.len() as int)
}

/// Walks the object layers once, after all tile layers: spawn markers,
/// teleporter sensors and their pairing-table rows, ladders and goal zones.
fn build_objects(
    doc: &MapDocument,
    colliders: &mut Vec<Collider>,
    tps: &mut Vec<TpEntry>,
    spawn: &mut Option<PlayerStart>,
)
    requires
        doc.wf(),
        old(tps)@.len() == 0,
        old(spawn)@ is None,
    ensures
        ({
            let st = spec_obj_pass(*doc, old(colliders)@.len() as int);
            &&& final(colliders)@ == old(colliders)@ + st.0
            &&& final(tps)@ == st.1
            &&& *final(spawn) == st.2
        }),
{
    let t_ps: String = "player_start".to_owned();
    let t_tp: String = "teleport".to_owned();
    let t_ld: String = "ladder".to_owned();
    let t_le: String = "level_end".to_owned();
    let ghost base: int = colliders@.len() as int;
    let ghost c0: Seq<Collider> = colliders@;
    let mut l: usize = 0;
    proof {
        assert(objpass_layers(*doc, base, 0) == (
            Seq::<Collider>::empty(),
            Seq::<TpEntry>::empty(),
            Option::<PlayerStart>::None,
        ));
        assert(c0 + Seq::<Collider>::empty() =~= c0);
        assert(tps@ =~= Seq::<TpEntry>::empty());
    }
    while l < doc.layers.len()
        invariant
            doc.wf(),
            0 <= l <= doc.layers@.len(),
            base == c0.len(),
            t_ps@ == "player_start"@,
            t_tp@ == "teleport"@,
            t_ld@ == "ladder"@,
            t_le@ == "level_end"@,
            colliders@ == c0 + objpass_layers(*doc, base, l as int).0,
            tps@ == objpass_layers(*doc, base, l as int).1,
            *spawn == objpass_layers(*doc, base, l as int).2,
        decreases doc.layers@.len() - l,
    {
        let ghost st_l: ObjPassOut = objpass_layers(*doc, base, l as int);
        match &doc.layers[l] {
            Layer::Tiles(_) => {
                proof {
                    assert(objpass_layers(*doc, base, l + 1) == st_l);
                }
            },
            Layer::Objects(ol) => {
                let mut k: usize = 0;
                proof {
                    assert(objs_upto(*doc, l as int, base, st_l, ol.objects@, 0) == st_l);
                }
                while k < ol.objects.len()
                    invariant
                        doc.wf(),
                        l < doc.layers@.len(),
                        doc.layers@[l as int] == Layer::Objects(*ol),
                        0 <= k <= ol.objects@.len(),
                        base == c0.len(),
                        t_ps@ == "player_start"@,
                        t_tp@ == "teleport"@,
                        t_ld@ == "ladder"@,
                        t_le@ == "level_end"@,
                        colliders@ == c0 + objs_upto(
                            *doc,
                            l as int,
                            base,
                            st_l,
                            ol.objects@,
                            k as int,
                        ).0,
                        tps@ == objs_upto(*doc, l as int, base, st_l, ol.objects@, k as int).1,
                        *spawn == objs_upto(*doc, l as int, base, st_l, ol.objects@, k as int).2,
                    decreases ol.objects@.len() - k,
                {
                    let ghost st_k: ObjPassOut = objs_upto(
                        *doc,
                        l as int,
                        base,
                        st_l,
                        ol.objects@,
                        k as int,
                    );
                    let o: &MapObject = &ol.objects[k];
                    proof {
                        assert(doc.layers@[l as int] == Layer::Objects(*ol));
                        let gol = doc.layers@[l as int]->Objects_0;
                        assert(gol == *ol);
                        assert(gol.objects@[k as int].wf());
                        assert(ol.objects@[k as int].wf());
                        assert((doc.height as int) * (doc.tile_height as int) <= 32768 * 65536
                            && (doc.height as int) * (doc.tile_height as int) >= 0)
                            by (nonlinear_arith)
                            requires
                                0 <= doc.height <= 32768,
                                0 <= doc.tile_height <= 65536,
                        ;
                    }
                    let ox: i64 = o.x - (doc.tile_width as i64) / 2;
                    let oy: i64 = (doc.height as i64) * (doc.tile_height as i64) - o.y - (
                    doc.tile_height as i64) / 2;
                    proof {
                        assert(ox == obj_pos_x(*doc, *o));
                        assert(oy == obj_pos_y(*doc, *o));
                    }
                    if o.kind == t_ps {
                        *spawn = Some(PlayerStart { x: ox, y: oy, z: l as i64 });
                    } else if o.kind == t_tp {
                        match o.shape {
                            Shape::Rect { width, height } => {
                                match crate::document::get_teleporter_dst(o) {
                                    Some(d) => {
                                        let entry = TpEntry {
                                            obj_id: o.id,
                                            collider: colliders.len(),
                                            dst_id: d,
                                        };
                                        colliders.push(
                                            Collider {
                                                x: ox + width / 2,
                                                y: oy - height / 2,
                                                z: l as i64,
                                                half_width: width / 2,
                                                half_height: height / 2,
                                                kind: ColliderKind::Teleport,
                                            },
                                        );
                                        tps.push(entry);
                                    },
                                    None => {},
                                }
                            },
                            Shape::Other => {},
                        }
                    } else if o.kind == t_ld {
                        match o.shape {
                            Shape::Rect { width, height } => {
                                colliders.push(
                                    Collider {
                                        x: ox + width / 2,
                                        y: oy - height / 2,
                                        z: l as i64,
                                        half_width: width / 2,
                                        half_height: height / 2,
                                        kind: ColliderKind::Ladder,
                                    },
                                );
                            },
                            Shape::Other => {},
                        }
                    } else if o.kind == t_le {
                        match o.shape {
                            Shape::Rect { width, height } => {
                                colliders.push(
                                    Collider {
                                        x: ox + width / 2,
                                        y: oy - height / 2,
                                        z: l as i64,
                                        half_width: width / 2,
                                        half_height: height / 2,
                                        kind: ColliderKind::LevelEnd,
                                    },
                                );
                            },
                            Shape::Other => {},
                        }
                    }
                    proof {
                        let st_n = objs_upto(*doc, l as int, base, st_l, ol.objects@, k + 1);
                        assert(st_n == obj_step(*doc, l as int, base, st_k, ol.objects@[k as int]));
                        assert(colliders@ =~= c0 + st_n.0);
                        assert(tps@ =~= st_n.1);
                    }
                    k = k + 1;
                }
                proof {
                    assert(objpass_layers(*doc, base, l + 1) == objs_upto(
                        *doc,
                        l as int,
                        base,
                        st_l,
                        ol.objects@,
                        ol.objects@.len() as int,
                    ));
                }
            },
        }
        l = l + 1;
    }
}

/// First pairing-table row carrying the given object id, if any.
pub open spec fn find_entry(t: Seq<TpEntry>, id: int) -> Option<int>
    decreases t.len(),
{
    if t.len() == 0 {
        Option::None
    } else if t[0].obj_id == id {
        Option::Some(0)
    } else {
        match find_entry(t.skip(1), id) {
            Option::Some(j) => Option::Some(j + 1),
            Option::None => Option::None,
        }
    }
}

proof fn lemma_find_entry_hit(t: Seq<TpEntry>, id: int, i: int)
    requires
        0 <= i < t.len(),
        t[i].obj_id == id,
        forall|j: int| 0 <= j < i ==> (#[trigger] t[j]).obj_id != id,
    ensures
        find_entry(t, id) == Option::Some(i),
    decreases i,
{
    if i == 0 {
    } else {
        assert(t.skip(1)[i - 1] == t[i]);
        assert(forall|j: int| 0 <= j < i - 1 ==> (#[trigger] t.skip(1)[j]) == t[j + 1]);
        lemma_find_entry_hit(t.skip(1), id, i - 1);
    }
}

proof fn lemma_find_entry_miss(t: Seq<TpEntry>, id: int)
    requires
        forall|j: int| 0 <= j < t.len() ==> (#[trigger] t[j]).obj_id != id,
    ensures
        find_entry(t, id) is None,
    decreases t.len(),
{
    if t.len() == 0 {
    } else {
        assert(forall|j: int| 0 <= j < t.len() - 1 ==> (#[trigger] t.skip(1)[j]) == t[j + 1]);
        lemma_find_entry_miss(t.skip(1), id);
    }
}

/// What `find_entry` finds is the first match.
pub proof fn lemma_find_entry_props(t: Seq<TpEntry>, id: int)
    ensures
        match find_entry(t, id) {
            Option::Some(j) => 0 <= j < t.len() && t[j].obj_id == id && forall|k: int|
                0 <= k < j ==> (#[trigger] t[k]).obj_id != id,
            Option::None => forall|k: int| 0 <= k < t.len() ==> (#[trigger] t[k]).obj_id != id,
        },
    decreases t.len(),
{
    if t.len() == 0 {
    } else if t[0].obj_id == id {
    } else {
        lemma_find_entry_props(t.skip(1), id);
        assert(forall|k: int| 0 <= k < t.len() - 1 ==> (#[trigger] t.skip(1)[k]) == t[k + 1]);
        assert(forall|k: int| 1 <= k < t.len() ==> (#[trigger] t[k]) == t.skip(1)[k - 1]);
    }
}

/// The link row `i` of the pairing table resolves to: its declared
/// destination must exist, be a different object, and declare row `i`'s
/// object back; anything else stays unlinked.
pub open spec fn link_of(t: Seq<TpEntry>, i: int) -> Option<Teleporter> {
    match find_entry(t, t[i].dst_id as int) {
        Option::Some(j) => if j != i && t[j].dst_id == t[i].obj_id {
            Option::Some(Teleporter { target: t[j].collider })
        } else {
            Option::None
        },
        Option::None => Option::None,
    }
}

fn find_entry_exec(tps: &Vec<TpEntry>, id: u32) -> (r: Option<usize>)
    ensures
        match r {
            Some(j) => find_entry(tps@, id as int) == Option::Some(j as int) && j < tps@.len()
                && tps@[j as int].obj_id == id,
            None => find_entry(tps@, id as int) is None,
        },
{
    let mut i: usize = 0;
    while i < tps.len()
        invariant
            0 <= i <= tps@.len(),
            forall|j: int| 0 <= j < i ==> (#[trigger] tps@[j]).obj_id != id,
        decreases tps@.len() - i,
    {
        if tps[i].obj_id == id {
            proof {
                lemma_find_entry_hit(tps@, id as int, i as int);
            }
            return Some(i);
        }
        i = i + 1;
    }
    proof {
        lemma_find_entry_miss(tps@, id as int);
    }
    None
}

/// Pairs the teleporter table: row `i` gets a link exactly when its declared
/// destination exists and reciprocally declares row `i`'s object. Dangling,
/// non-reciprocal and self-referencing declarations stay unlinked.
pub fn resolve_teleporters(tps: &Vec<TpEntry>) -> (links: Vec<Option<Teleporter>>)
    ensures
        links@.len() == tps@.len(),
        forall|i: int| 0 <= i < tps@.len() ==> links@[i] == link_of(tps@, i),
{
    let mut links: Vec<Option<Teleporter>> = Vec::new();
    let mut i: usize = 0;
    while i < tps.len()
        invariant
            0 <= i <= tps@.len(),
            links@.len() == i,
            forall|k: int| 0 <= k < i ==> links@[k] == link_of(tps@, k),
        decreases tps@.len() - i,
    {
        let entry = tps[i];
        match find_entry_exec(tps, entry.dst_id) {
            Some(j) => {
                if j != i && tps[j].dst_id == entry.obj_id {
                    links.push(Some(Teleporter::new(tps[j].collider)));
                } else {
                    links.push(None);
                }
            },
            None => {
                links.push(None);
            },
        }
        i = i + 1;
    }
    links
}

/// Everything `build_world` promises of the world it returns, stated over the
/// document alone; the animation seeds are the one part left open, random by
/// design.
pub open spec fn built_world(doc: MapDocument, w: World) -> bool {
    let p = spec_tile_pass(doc);
    let st = spec_obj_pass(doc, p.2.len() as int);
    &&& w.tiles@ == p.0
    &&& anims_extend(Seq::empty(), p.1, w.anims@)
    &&& w.colliders@ == p.2 + st.0
    &&& w.teleporters@ == st.1
    &&& w.spawn == st.2
    &&& w.links@.len() == st.1.len()
    &&& forall|i: int| 0 <= i < st.1.len() ==> w.links@[i] == link_of(st.1, i)
}

/// The epoch bound a build leaves behind: the fold of every epoch-bearing
/// tile's contribution over the bound the build started from.
pub open spec fn built_bounds(doc: MapDocument, min0: int, max0: int, e: Epoch) -> bool {
    let f = fold_bounds(spec_tile_pass(doc).3, min0, max0, false);
    &&& e.min as int == f.0
    &&& e.max as int == f.1
}

/// Walks the map document once and builds the live world, widening the
/// global epoch bound by every epoch-bearing tile discovered; the current
/// epoch value itself is left alone.
pub fn build_world(doc: &MapDocument, epoch: &mut Epoch) -> (w: World)
    requires
        doc.wf(),
    ensures
        built_world(*doc, w),
        final(epoch).cur == old(epoch).cur,
        built_bounds(*doc, old(epoch).min as int, old(epoch).max as int, *final(epoch)),
        final(epoch).min <= old(epoch).min,
        final(epoch).max >= old(epoch).max,
        old(epoch).wf() ==> final(epoch).wf(),
{
    proof {
        lemma_fold_bounds_start(
            spec_tile_pass(*doc).3,
            old(epoch).min as int,
            old(epoch).max as int,
            false,
        );
    }
    let mut tiles: Vec<TileInstance> = Vec::new();
    let mut anims: Vec<Option<TileAnimation>> = Vec::new();
    let mut colliders: Vec<Collider> = Vec::new();
    let mut lo: i32 = epoch.min;
    let mut hi: i32 = epoch.max;
    let mut any: bool = false;
    build_tile_pass(doc, &mut tiles, &mut anims, &mut colliders, &mut lo, &mut hi, &mut any);
    let mut tps: Vec<TpEntry> = Vec::new();
    let mut spawn: Option<PlayerStart> = None;
    build_objects(doc, &mut colliders, &mut tps, &mut spawn);
    let links = resolve_teleporters(&tps);
    if any {
        epoch.min = lo;
        epoch.max = hi;
    }
    World { tiles, anims, colliders, spawn, teleporters: tps, links }
}

/// The tile after one projection pass under global epoch `cur`: visibility
/// follows the descriptor's bound, and the texture index advances linearly
/// while visible.
pub open spec fn spec_applied(t: TileInstance, cur: int) -> TileInstance {
    match t.epoch_sprite {
        Option::Some(s) => (TileInstance {
            visible: s.spec_visible(cur),
            texture_index: if s.spec_visible(cur) {
                s.spec_texture(cur) as u32
            } else {
                t.texture_index
            },
            ..t
        }),
        Option::None => t,
    }
}

/// Projects every epoch-bearing tile under the current epoch, skipping
/// writes whose value would not change; plain tiles are untouched.
pub fn apply_epoch(epoch: &Epoch, tiles: &mut Vec<TileInstance>)
    requires
        forall|i: int|
            0 <= i < old(tiles)@.len() ==> match (#[trigger] old(tiles)@[i]).epoch_sprite {
                Option::Some(s) => s.wf(),
                Option::None => true,
            },
    ensures
        final(tiles)@.len() == old(tiles)@.len(),
        forall|i: int|
            0 <= i < old(tiles)@.len() ==> final(tiles)@[i] == spec_applied(
                old(tiles)@[i],
                epoch.cur as int,
            ),
{
    let mut i: usize = 0;
    while i < tiles.len()
        invariant
            0 <= i <= tiles@.len(),
            tiles@.len() == old(tiles)@.len(),
            forall|k: int|
                0 <= k < old(tiles)@.len() ==> match (#[trigger] old(tiles)@[k]).epoch_sprite {
                    Option::Some(s) => s.wf(),
                    Option::None => true,
                },
            forall|k: int|
                0 <= k < i ==> tiles@[k] == spec_applied(old(tiles)@[k], epoch.cur as int),
            forall|k: int| i <= k < tiles@.len() ==> tiles@[k] == old(tiles)@[k],
        decreases tiles@.len() - i,
    {
        let t = tiles[i];
        match t.epoch_sprite {
            Some(s) => {
                match s.project(epoch.cur) {
                    Some(tex) => {
                        let mut nt = t;
                        if !nt.visible {
                            nt.visible = true;
                        }
                        if nt.texture_index != tex {
                            nt.texture_index = tex;
                        }
                        proof {
                            assert(nt == spec_applied(old(tiles)@[i as int], epoch.cur as int));
                        }
                        tiles.set(i, nt);
                    },
                    None => {
                        if t.visible {
                            let mut nt = t;
                            nt.visible = false;
                            tiles.set(i, nt);
                        }
                        proof {
                            assert(tiles@[i as int] == spec_applied(
                                old(tiles)@[i as int],
                                epoch.cur as int,
                            ));
                        }
                    },
                }
            },
            None => {},
        }
        i = i + 1;
    }
}

/// First tile instance at the given layer and engine cell, if any.
pub open spec fn spec_tile_at(ts: Seq<TileInstance>, layer: int, x: int, y: int) -> Option<int>
    decreases ts.len(),
{
    if ts.len() == 0 {
        Option::None
    } else if ts[0].layer == layer && ts[0].x == x && ts[0].y == y {
        Option::Some(0)
    } else {
        match spec_tile_at(ts.skip(1), layer, x, y) {
            Option::Some(j) => Option::Some(j + 1),
            Option::None => Option::None,
        }
    }
}

proof fn lemma_tile_at_hit(ts: Seq<TileInstance>, layer: int, x: int, y: int, i: int)
    requires
        0 <= i < ts.len(),
        ts[i].layer == layer && ts[i].x == x && ts[i].y == y,
        forall|j: int|
            0 <= j < i ==> !((#[trigger] ts[j]).layer == layer && ts[j].x == x && ts[j].y == y),
    ensures
        spec_tile_at(ts, layer, x, y) == Option::Some(i),
    decreases i,
{
    if i == 0 {
    } else {
        assert(ts.skip(1)[i - 1] == ts[i]);
        assert(forall|j: int| 0 <= j < i - 1 ==> (#[trigger] ts.skip(1)[j]) == ts[j + 1]);
        lemma_tile_at_hit(ts.skip(1), layer, x, y, i - 1);
    }
}

proof fn lemma_tile_at_miss(ts: Seq<TileInstance>, layer: int, x: int, y: int)
    requires
        forall|j: int|
            0 <= j < ts.len() ==> !((#[trigger] ts[j]).layer == layer && ts[j].x == x && ts[j].y
                == y),
    ensures
        spec_tile_at(ts, layer, x, y) is None,
    decreases ts.len(),
{
    if ts.len() == 0 {
    } else {
        assert(forall|j: int| 0 <= j < ts.len() - 1 ==> (#[trigger] ts.skip(1)[j]) == ts[j + 1]);
        lemma_tile_at_miss(ts.skip(1), layer, x, y);
    }
}

impl World {
    /// The parallel columns line up, and every index stored in the pairing
    /// table or a resolved link names a real collider; every attached epoch
    /// descriptor is well-formed, and every attached animation clock usable.
    pub open spec fn wf(&self) -> bool {
        &&& self.tiles@.len() == self.anims@.len()
        &&& self.links@.len() == self.teleporters@.len()
        &&& forall|i: int|
            0 <= i < self.tiles@.len() ==> match (#[trigger] self.tiles@[i]).epoch_sprite {
                Option::Some(s) => s.wf(),
                Option::None => true,
            }
        &&& forall|i: int|
            0 <= i < self.anims@.len() ==> match (#[trigger] self.anims@[i]) {
                Option::Some(a) => a.wf(),
                Option::None => true,
            }
        &&& forall|i: int|
            0 <= i < self.teleporters@.len() ==> (#[trigger] self.teleporters@[i]).collider
                < self.colliders@.len()
    }

    /// Position-addressable lookup: the index of the tile instance at the
    /// given layer and engine cell, if one was built.
    pub fn tile_at(&self, layer: u32, x: u32, y: u32) -> (r: Option<usize>)
        ensures
            match r {
                Some(i) => spec_tile_at(self.tiles@, layer as int, x as int, y as int)
                    == Option::Some(i as int) && i < self.tiles@.len(),
                None => spec_tile_at(self.tiles@, layer as int, x as int, y as int) is None,
            },
    {
        let mut i: usize = 0;
        while i < self.tiles.len()
            invariant
                0 <= i <= self.tiles@.len(),
                forall|j: int|
                    0 <= j < i ==> !((#[trigger] self.tiles@[j]).layer == layer && self.tiles@[j].x
                        == x && self.tiles@[j].y == y),
            decreases self.tiles@.len() - i,
        {
            let t = &self.tiles[i];
            if t.layer == layer && t.x == x && t.y == y {
                proof {
                    lemma_tile_at_hit(self.tiles@, layer as int, x as int, y as int, i as int);
                }
                return Some(i);
            }
            i = i + 1;
        }
        proof {
            lemma_tile_at_miss(self.tiles@, layer as int, x as int, y as int);
        }
        None
    }
}

/// A descriptor is covered by the contribution its cell folded into the
/// global bound, as long as the bound also covers zero.
pub open spec fn covers(s: EpochSprite, c: (i32, i32)) -> bool {
    &&& min_i(c.0 as int, 0) <= s.first - s.delta
    &&& max_i(c.1 as int, 0) >= s.last - s.delta
}

/// Every epoch descriptor of the stretch is well-formed and covered by one of
/// the stretch's contributions.
pub open spec fn sprites_covered(p: TilePassOut) -> bool {
    forall|i: int|
        0 <= i < p.0.len() ==> match (#[trigger] p.0[i]).epoch_sprite {
            Option::Some(s) => s.wf() && exists|k: int|
                0 <= k < p.3.len() && covers(s, #[trigger] p.3[k]),
            Option::None => true,
        }
}

proof fn lemma_cell_covered(doc: MapDocument, ts: int, l: int, x: int, y: int)
    ensures
        sprites_covered(cell_quad(doc, ts, l, x, y)),
{
    let q = cell_quad(doc, ts, l, x, y);
    match cell_out(doc, ts, l, x, y) {
        Option::Some(p) => {
            match p.0.epoch_sprite {
                Option::Some(s) => {
                    let td = doc.tilesets@[ts].tiles@[spec_find_tile(
                        doc.tilesets@[ts].tiles@,
                        doc.cell(layer_tl(doc, l).unwrap(), x, y).unwrap().id as int,
                    ).unwrap()];
                    let e = spec_get_int(td.props@, "epoch"@).unwrap() as int;
                    let emin = spec_get_int(td.props@, "epoch_min"@);
                    let emax = spec_get_int(td.props@, "epoch_max"@);
                    let lo = sprite_lo(e, emin, emax);
                    let hi = sprite_hi(e, emin, emax);
                    let d = sprite_delta(e, emin, emax);
                    assert(lo <= d <= hi);
                    assert(i32::MIN <= lo <= i32::MAX && i32::MIN <= hi <= i32::MAX && i32::MIN
                        <= d <= i32::MAX);
                    let c = q.3[0];
                    assert(c.0 as int == lo - e && c.1 as int == hi - e);
                    assert(s.first == lo && s.last == hi && s.delta == d);
                    if e < lo {
                        assert(d == lo);
                        assert(min_i(c.0 as int, 0) <= 0 == s.first - s.delta);
                    } else {
                        assert(d <= e);
                        assert(lo - e <= lo - d);
                        assert(min_i(c.0 as int, 0) <= s.first - s.delta);
                    }
                    if e > hi {
                        assert(d == hi);
                        assert(max_i(c.1 as int, 0) >= 0 == s.last - s.delta);
                    } else {
                        assert(d >= e);
                        assert(hi - e >= hi - d);
                        assert(max_i(c.1 as int, 0) >= s.last - s.delta);
                    }
                    assert(covers(s, q.3[0]));
                    assert(q.0.len() == 1 && q.3.len() == 1);
                },
                Option::None => {
                    assert(q.0.len() == 1);
                },
            }
        },
        Option::None => {
            assert(q.0.len() == 0);
        },
    }
}

proof fn lemma_cat4_covered(a: TilePassOut, b: TilePassOut)
    requires
        sprites_covered(a),
        sprites_covered(b),
    ensures
        sprites_covered(cat4(a, b)),
{
    let n = cat4(a, b);
    assert forall|i: int| 0 <= i < n.0.len() implies match (#[trigger] n.0[i]).epoch_sprite {
        Option::Some(s) => s.wf() && exists|k: int|
            0 <= k < n.3.len() && covers(s, #[trigger] n.3[k]),
        Option::None => true,
    } by {
        if i < a.0.len() {
            assert(n.0[i] == a.0[i]);
            match a.0[i].epoch_sprite {
                Option::Some(s) => {
                    let k = choose|k: int| 0 <= k < a.3.len() && covers(s, #[trigger] a.3[k]);
                    assert(n.3[k] == a.3[k]);
                    assert(covers(s, n.3[k]));
                },
                Option::None => {},
            }
        } else {
            assert(n.0[i] == b.0[i - a.0.len()]);
            match b.0[i - a.0.len()].epoch_sprite {
                Option::Some(s) => {
                    let k = choose|k: int| 0 <= k < b.3.len() && covers(s, #[trigger] b.3[k]);
                    assert(n.3[a.3.len() + k] == b.3[k]);
                    assert(covers(s, n.3[a.3.len() + k]));
                },
                Option::None => {},
            }
        }
    }
}

proof fn lemma_pass_cells_covered(doc: MapDocument, ts: int, l: int, x: int, n: int)
    ensures
        sprites_covered(pass_cells(doc, ts, l, x, n)),
    decreases n,
{
    if n <= 0 {
    } else {
        lemma_pass_cells_covered(doc, ts, l, x, n - 1);
        lemma_cell_covered(doc, ts, l, x, n - 1);
        lemma_cat4_covered(pass_cells(doc, ts, l, x, n - 1), cell_quad(doc, ts, l, x, n - 1));
    }
}

proof fn lemma_pass_columns_covered(doc: MapDocument, ts: int, l: int, n: int)
    ensures
        sprites_covered(pass_columns(doc, ts, l, n)),
    decreases n,
{
    if n <= 0 {
    } else {
        lemma_pass_columns_covered(doc, ts, l, n - 1);
        lemma_pass_cells_covered(doc, ts, l, n - 1, doc.height as int);
        lemma_cat4_covered(
            pass_columns(doc, ts, l, n - 1),
            pass_cells(doc, ts, l, n - 1, doc.height as int),
        );
    }
}

proof fn lemma_pass_layers_covered(doc: MapDocument, ts: int, n: int)
    ensures
        sprites_covered(pass_layers(doc, ts, n)),
    decreases n,
{
    if n <= 0 {
    } else {
        lemma_pass_layers_covered(doc, ts, n - 1);
        match doc.layers@[n - 1] {
            Layer::Tiles(_) => {
                lemma_pass_columns_covered(doc, ts, n - 1, doc.width as int);
                lemma_cat4_covered(
                    pass_layers(doc, ts, n - 1),
                    pass_columns(doc, ts, n - 1, doc.width as int),
                );
            },
            Layer::Objects(_) => {
                lemma_cat4_covered(pass_layers(doc, ts, n - 1), empty4());
            },
        }
    }
}

proof fn lemma_pass_tilesets_covered(doc: MapDocument, n: int)
    ensures
        sprites_covered(pass_tilesets(doc, n)),
    decreases n,
{
    if n <= 0 {
    } else {
        lemma_pass_tilesets_covered(doc, n - 1);
        if doc.tilesets@[n - 1].has_texture {
            lemma_pass_layers_covered(doc, n - 1, doc.layers@.len() as int);
            lemma_cat4_covered(
                pass_tilesets(doc, n - 1),
                pass_layers(doc, n - 1, doc.layers@.len() as int),
            );
        } else {
            lemma_cat4_covered(pass_tilesets(doc, n - 1), empty4());
        }
    }
}

proof fn lemma_fold_bounds_start(cs: Seq<(i32, i32)>, lo: int, hi: int, any: bool)
    ensures
        fold_bounds(cs, lo, hi, any).0 <= lo,
        fold_bounds(cs, lo, hi, any).1 >= hi,
    decreases cs.len(),
{
    if cs.len() > 0 {
        lemma_fold_bounds_start(cs.drop_last(), lo, hi, any);
    }
}

proof fn lemma_fold_bounds_le(cs: Seq<(i32, i32)>, lo: int, hi: int, any: bool, k: int)
    requires
        0 <= k < cs.len(),
    ensures
        fold_bounds(cs, lo, hi, any).0 <= cs[k].0,
        fold_bounds(cs, lo, hi, any).1 >= cs[k].1,
    decreases cs.len(),
{
    if k == cs.len() - 1 {
        assert(cs.last() == cs[k]);
    } else {
        lemma_fold_bounds_le(cs.drop_last(), lo, hi, any, k);
        assert(cs.drop_last()[k] == cs[k]);
    }
}

/// After a world build, every epoch-bearing tile satisfies its own local
/// bound, and the resulting global bound covers it: `first <= delta <= last`,
/// `min <= first - delta` and `max >= last - delta`, for any starting bound
/// that contains zero.
pub proof fn lemma_bound_covers_every_tile(doc: MapDocument, min0: int, max0: int, i: int)
    requires
        min0 <= 0 <= max0,
        0 <= i < spec_tile_pass(doc).0.len(),
        spec_tile_pass(doc).0[i].epoch_sprite is Some,
    ensures
        ({
            let s = spec_tile_pass(doc).0[i].epoch_sprite.unwrap();
            let f = fold_bounds(spec_tile_pass(doc).3, min0, max0, false);
            &&& s.first <= s.delta <= s.last
            &&& f.0 <= s.first - s.delta
            &&& f.1 >= s.last - s.delta
        }),
{
    lemma_pass_tilesets_covered(doc, doc.tilesets@.len() as int);
    let p = spec_tile_pass(doc);
    let s = p.0[i].epoch_sprite.unwrap();
    let k = choose|k: int| 0 <= k < p.3.len() && covers(s, #[trigger] p.3[k]);
    lemma_fold_bounds_le(p.3, min0, max0, false, k);
    lemma_fold_bounds_start(p.3, min0, max0, false);
}

/// Every world that satisfies the build contract is well-formed: descriptors
/// and animation clocks usable, pairing-table indices valid.
pub proof fn lemma_built_world_wf(doc: MapDocument, w: World)
    requires
        built_world(doc, w),
    ensures
        w.wf(),
{
    let p = spec_tile_pass(doc);
    let st = spec_obj_pass(doc, p.2.len() as int);
    lemma_pass_tilesets_lens(doc, doc.tilesets@.len() as int);
    lemma_pass_tilesets_covered(doc, doc.tilesets@.len() as int);
    assert forall|i: int| 0 <= i < w.anims@.len() implies match (#[trigger] w.anims@[i]) {
        Option::Some(a) => a.wf(),
        Option::None => true,
    } by {
        assert(anim_matches(p.1[i], w.anims@[i]));
    }
    lemma_objpass_layers_colliders(doc, p.2.len() as int, doc.layers@.len() as int);
    assert forall|i: int|
        0 <= i < w.teleporters@.len() implies (#[trigger] w.teleporters@[i]).collider
        < w.colliders@.len() by {
        assert(st.1[i].collider < p.2.len() + st.0.len());
    }
}

proof fn lemma_objs_upto_colliders(
    doc: MapDocument,
    l: int,
    base: int,
    st0: ObjPassOut,
    objs: Seq<MapObject>,
    n: int,
)
    requires
        forall|i: int|
            0 <= i < st0.1.len() ==> (#[trigger] st0.1[i]).collider < base + st0.0.len(),
        base >= 0,
    ensures
        ({
            let st = objs_upto(doc, l, base, st0, objs, n);
            &&& st.0.len() >= st0.0.len()
            &&& forall|i: int|
                0 <= i < st.1.len() ==> (#[trigger] st.1[i]).collider < base + st.0.len()
        }),
    decreases n,
{
    if n <= 0 {
    } else {
        lemma_objs_upto_colliders(doc, l, base, st0, objs, n - 1);
    }
}

proof fn lemma_objpass_layers_colliders(doc: MapDocument, base: int, n: int)
    requires
        base >= 0,
    ensures
        ({
            let st = objpass_layers(doc, base, n);
            forall|i: int|
                0 <= i < st.1.len() ==> (#[trigger] st.1[i]).collider < base + st.0.len()
        }),
    decreases n,
{
    if n <= 0 {
    } else {
        lemma_objpass_layers_colliders(doc, base, n - 1);
        match doc.layers@[n - 1] {
            Layer::Objects(ol) => {
                lemma_objs_upto_colliders(
                    doc,
                    n - 1,
                    base,
                    objpass_layers(doc, base, n - 1),
                    ol.objects@,
                    ol.objects@.len() as int,
                );
            },
            Layer::Tiles(_) => {},
        }
    }
}

/// All object ids of a pairing table are distinct, as a map editor assigns
/// them.
pub open spec fn ids_distinct(t: Seq<TpEntry>) -> bool {
    forall|i: int, j: int|
        0 <= i < j < t.len() ==> (#[trigger] t[i]).obj_id != (#[trigger] t[j]).obj_id
}

/// Rows `i` and `j` declare each other as destination.
pub open spec fn mutually_declared(t: Seq<TpEntry>, i: int, j: int) -> bool {
    &&& 0 <= i < t.len()
    &&& 0 <= j < t.len()
    &&& i != j
    &&& t[i].dst_id == t[j].obj_id
    &&& t[j].dst_id == t[i].obj_id
}

/// Teleporter pairing is symmetric: when two distinct rows declare each other,
/// each one's resolved link targets the other's collider.
pub proof fn lemma_pairing_symmetric(t: Seq<TpEntry>, i: int, j: int)
    requires
        ids_distinct(t),
        mutually_declared(t, i, j),
    ensures
        link_of(t, i) == Option::Some(Teleporter { target: t[j].collider }),
        link_of(t, j) == Option::Some(Teleporter { target: t[i].collider }),
{
    assert forall|k: int| 0 <= k < j implies (#[trigger] t[k]).obj_id != t[j].obj_id by {}
    lemma_find_entry_hit(t, t[j].obj_id as int, j);
    assert forall|k: int| 0 <= k < i implies (#[trigger] t[k]).obj_id != t[i].obj_id by {}
    lemma_find_entry_hit(t, t[i].obj_id as int, i);
}

/// A row whose declared partner does not reciprocate (or names itself, or
/// nothing) has no link after resolution.
pub proof fn lemma_unreciprocated_unlinked(t: Seq<TpEntry>, i: int)
    requires
        0 <= i < t.len(),
        forall|j: int| !mutually_declared(t, i, j),
    ensures
        link_of(t, i) is None,
{
    lemma_find_entry_props(t, t[i].dst_id as int);
    match find_entry(t, t[i].dst_id as int) {
        Option::Some(j) => {
            assert(!mutually_declared(t, i, j));
        },
        Option::None => {},
    }
}

/// After a world build from a starting bound that contains zero, every
/// epoch-bearing tile of the world satisfies `first <= delta <= last`, and
/// the resulting global bound covers its local bound:
/// `min <= first - delta` and `max >= last - delta`.
pub proof fn lemma_world_bound_covers(doc: MapDocument, w: World, e0: Epoch, e: Epoch, i: int)
    requires
        built_world(doc, w),
        built_bounds(doc, e0.min as int, e0.max as int, e),
        e0.min <= 0 <= e0.max,
        0 <= i < w.tiles@.len(),
        w.tiles@[i].epoch_sprite is Some,
    ensures
        ({
            let s = w.tiles@[i].epoch_sprite.unwrap();
            &&& s.first <= s.delta <= s.last
            &&& e.min <= s.first - s.delta
            &&& e.max >= s.last - s.delta
        }),
{
    lemma_bound_covers_every_tile(doc, e0.min as int, e0.max as int, i);
}

/// Rebuilding the same document from the same starting bound yields the same
/// tile instances, colliders, spawn marker, pairing table, links and epoch
/// bounds both times; only the random animation seeds may differ.
pub proof fn lemma_build_deterministic(
    doc: MapDocument,
    min0: int,
    max0: int,
    w1: World,
    w2: World,
    e1: Epoch,
    e2: Epoch,
)
    requires
        built_world(doc, w1),
        built_world(doc, w2),
        built_bounds(doc, min0, max0, e1),
        built_bounds(doc, min0, max0, e2),
    ensures
        w1.tiles@ == w2.tiles@,
        w1.colliders@ == w2.colliders@,
        w1.spawn == w2.spawn,
        w1.teleporters@ == w2.teleporters@,
        w1.links@ == w2.links@,
        e1.min == e2.min,
        e1.max == e2.max,
{
    let st = spec_obj_pass(doc, spec_tile_pass(doc).2.len() as int);
    assert forall|i: int| 0 <= i < w1.links@.len() implies w1.links@[i] == w2.links@[i] by {
        assert(w1.links@[i] == link_of(st.1, i));
        assert(w2.links@[i] == link_of(st.1, i));
    }
    assert(w1.links@ =~= w2.links@);
}

} // verus!

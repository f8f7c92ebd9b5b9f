//! The global epoch state machine, the per-tile epoch descriptor, and the
//! arithmetic that derives a descriptor from a tile's declared properties.

use vstd::prelude::*;

verus! {

/// The process-wide epoch state: the inclusive `[min, max]` bound derived at
/// world build, and the current value, moved only by teleporter crossings.
#[derive(Clone, Copy, PartialEq, Eq, Debug)]
pub struct Epoch {
    pub min: i32,
    pub max: i32,
    pub cur: i32,
}

/// What one crossing does to the current epoch: a leftward crossing
/// (`dir < 0`) moves it up, a rightward crossing (`dir > 0`) moves it down,
/// and both stop at the bounds.
pub open spec fn spec_step(e: Epoch, dir: int) -> int {
    if dir < 0 && e.cur < e.max {
        e.cur + 1
    } else if dir > 0 && e.cur > e.min {
        e.cur - 1
    } else {
        e.cur as int
    }
}

impl Epoch {
    /// The bound holds the current value.
    pub open spec fn wf(&self) -> bool {
        self.min <= self.cur <= self.max
    }

    /// The epoch at rest: bounds `[0, 0]`, current value `0`.
    pub fn at_origin() -> (r: Epoch)
        ensures
            r == (Epoch { min: 0, max: 0, cur: 0 }),
    {
        Epoch { min: 0, max: 0, cur: 0 }
    }

    /// Applies one crossing of direction `dir` to the current value; the
    /// bounds never change.
    pub fn step(&mut self, dir: i32)
        ensures
            final(self).min == old(self).min,
            final(self).max == old(self).max,
            final(self).cur == spec_step(*old(self), dir as int),
            old(self).wf() ==> final(self).wf(),
    {
        if dir < 0 && self.cur < self.max {
            self.cur = self.cur + 1;
        } else if dir > 0 && self.cur > self.min {
            self.cur = self.cur - 1;
        }
    }
}

/// Crossing direction is idempotent at the bounds: at the top a leftward
/// crossing leaves the current epoch unchanged, and at the bottom a rightward
/// crossing does the same.
pub proof fn lemma_step_clamped_at_bounds(e: Epoch, dir: int)
    ensures
        e.cur == e.max && dir < 0 ==> spec_step(e, dir) == e.max,
        e.cur == e.min && dir > 0 ==> spec_step(e, dir) == e.min,
{
}

/// Per-tile epoch descriptor: the tile is visible exactly when the apparent
/// local epoch `cur + delta` lies in `[first, last]`, and its texture index
/// then advances linearly from `base`.
#[derive(Clone, Copy, PartialEq, Eq, Debug)]
pub struct EpochSprite {
    /// Texture index shown when the apparent local epoch equals `first`.
    pub base: u32,
    /// This tile's own declared epoch value.
    pub delta: i32,
    /// First apparent local epoch the tile exists at.
    pub first: i32,
    /// Last apparent local epoch the tile exists at.
    pub last: i32,
}

impl EpochSprite {
    /// The local bound holds the tile's own value, and the highest texture
    /// index the projection can produce fits a `u32`.
    pub open spec fn wf(&self) -> bool {
        &&& self.first <= self.delta <= self.last
        &&& self.base + (self.last - self.first) <= u32::MAX
    }

    /// The tile's apparent local epoch under global epoch `cur`.
    pub open spec fn tile_epoch(&self, cur: int) -> int {
        cur + self.delta
    }

    /// Whether the tile exists under global epoch `cur`.
    pub open spec fn spec_visible(&self, cur: int) -> bool {
        self.first <= self.tile_epoch(cur) <= self.last
    }

    /// The texture index the tile shows when visible under `cur`.
    pub open spec fn spec_texture(&self, cur: int) -> int {
        self.base + (self.tile_epoch(cur) - self.first)
    }

    /// Projects the descriptor under global epoch `cur`: the texture index to
    /// show, or `None` when the tile does not exist at that epoch.
    pub fn project(&self, cur: i32) -> (r: Option<u32>)
        requires
            self.wf(),
        ensures
            r.is_some() <==> self.spec_visible(cur as int),
            r matches Some(t) ==> t == self.spec_texture(cur as int),
    {
        let te: i64 = cur as i64 + self.delta as i64;
        if self.first as i64 <= te && te <= self.last as i64 {
            Some(self.base + ((te - self.first as i64) as u32))
        } else {
            None
        }
    }
}

/// Visibility of a reference tile with `base` 10, `delta` 0 and local bound
/// `[-1, 1]`, under every epoch: it is visible exactly on `{-1, 0, 1}`, and at
/// epoch 1 its texture index is 12.
pub proof fn lemma_projector_reference_tile(cur: int)
    ensures
        ({
            let s = EpochSprite { base: 10, delta: 0, first: -1i32, last: 1 };
            &&& s.spec_visible(cur) <==> -1 <= cur <= 1
            &&& s.spec_texture(1) == 12
        }),
{
}

/// The declared value when present, else the default.
pub open spec fn opt_or(v: Option<i32>, d: int) -> int {
    match v {
        Option::Some(x) => x as int,
        Option::None => d,
    }
}

pub open spec fn min_i(a: int, b: int) -> int {
    if a <= b {
        a
    } else {
        b
    }
}

pub open spec fn max_i(a: int, b: int) -> int {
    if a >= b {
        a
    } else {
        b
    }
}

pub open spec fn clamp_i(v: int, lo: int, hi: int) -> int {
    if v < lo {
        lo
    } else if v > hi {
        hi
    } else {
        v
    }
}

/// Lower end of a tile's declared local bound: the smaller of `epoch_min` and
/// `epoch_max`, each defaulting to the tile's own `epoch` value.
pub open spec fn sprite_lo(e: int, emin: Option<i32>, emax: Option<i32>) -> int {
    min_i(opt_or(emin, e), opt_or(emax, e))
}

/// Upper end of a tile's declared local bound.
pub open spec fn sprite_hi(e: int, emin: Option<i32>, emax: Option<i32>) -> int {
    max_i(opt_or(emin, e), opt_or(emax, e))
}

/// The tile's own value clamped into its local bound.
pub open spec fn sprite_delta(e: int, emin: Option<i32>, emax: Option<i32>) -> int {
    clamp_i(e, sprite_lo(e, emin, emax), sprite_hi(e, emin, emax))
}

/// Texture index at the lower end of the local bound.
pub open spec fn sprite_base(tile_id: int, e: int, emin: Option<i32>, emax: Option<i32>) -> int {
    tile_id - (sprite_delta(e, emin, emax) - sprite_lo(e, emin, emax))
}

/// A declared epoch range yields a descriptor only when the derived numbers
/// are representable: the base texture index is not negative, the highest
/// projected texture index fits a `u32`, and both global-bound contributions
/// fit an `i32`. Anything else is treated as a malformed declaration and the
/// tile stays a plain, always-visible tile.
pub open spec fn resolvable(tile_id: int, e: int, emin: Option<i32>, emax: Option<i32>) -> bool {
    let lo = sprite_lo(e, emin, emax);
    let hi = sprite_hi(e, emin, emax);
    let base = sprite_base(tile_id, e, emin, emax);
    &&& base >= 0
    &&& base + (hi - lo) <= u32::MAX
    &&& i32::MIN <= lo - e <= i32::MAX
    &&& i32::MIN <= hi - e <= i32::MAX
}

/// Derives a tile's epoch descriptor from its `epoch` value `e` and optional
/// `epoch_min` / `epoch_max` declarations, together with the two contributions
/// `(lo - e, hi - e)` that the tile folds into the global epoch bound.
pub fn resolve_epoch(tile_id: u32, e: i32, emin: Option<i32>, emax: Option<i32>) -> (r: Option<
    (EpochSprite, i32, i32),
>)
    ensures
        r.is_some() <==> resolvable(tile_id as int, e as int, emin, emax),
        r matches Some((s, glo, ghi)) ==> {
            &&& s.base == sprite_base(tile_id as int, e as int, emin, emax)
            &&& s.delta == sprite_delta(e as int, emin, emax)
            &&& s.first == sprite_lo(e as int, emin, emax)
            &&& s.last == sprite_hi(e as int, emin, emax)
            &&& glo == sprite_lo(e as int, emin, emax) - e
            &&& ghi == sprite_hi(e as int, emin, emax) - e
            &&& s.wf()
        },
{
    let e64: i64 = e as i64;
    let a: i64 = match emin {
        Option::Some(x) => x as i64,
        Option::None => e64,
    };
    let b: i64 = match emax {
        Option::Some(x) => x as i64,
        Option::None => e64,
    };
    let lo: i64 = if a <= b {
        a
    } else {
        b
    };
    let hi: i64 = if a >= b {
        a
    } else {
        b
    };
    let c: i64 = if e64 < lo {
        lo
    } else if e64 > hi {
        hi
    } else {
        e64
    };
    let base: i64 = tile_id as i64 - (c - lo);
    let glo: i64 = lo - e64;
    let ghi: i64 = hi - e64;
    if base >= 0 && base + (hi - lo) <= u32::MAX as i64 && i32::MIN as i64 <= glo && glo
        <= i32::MAX as i64 && i32::MIN as i64 <= ghi && ghi <= i32::MAX as i64 {
        Some(
            (
                EpochSprite {
                    base: base as u32,
                    delta: c as i32,
                    first: lo as i32,
                    last: hi as i32,
                },
                glo as i32,
                ghi as i32,
            ),
        )
    } else {
        None
    }
}

} // verus!

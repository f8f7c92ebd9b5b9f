use wheel_of_time::epoch::Epoch;
use wheel_of_time::epoch::EpochSprite;
use wheel_of_time::epoch::resolve_epoch;

#[test]
fn step_moves_and_clamps() {
    let mut e = Epoch { min: -1, max: 1, cur: 0 };
    e.step(-1);
    assert_eq!(e.cur, 1);
    // Leftward crossing at the top bound is a no-op.
    e.step(-1);
    assert_eq!(e.cur, 1);
    e.step(1);
    assert_eq!(e.cur, 0);
    e.step(1);
    assert_eq!(e.cur, -1);
    // Rightward crossing at the bottom bound is a no-op.
    e.step(1);
    assert_eq!(e.cur, -1);
    // A direction of zero never moves.
    e.step(0);
    assert_eq!(e.cur, -1);
}

#[test]
fn step_keeps_bounds() {
    let mut e = Epoch { min: -3, max: 5, cur: 2 };
    e.step(-1);
    assert_eq!(e.min, -3);
    assert_eq!(e.max, 5);
}

#[test]
fn projector_reference_tile_visibility() {
    // base 10, own value 0, local bound [-1, 1]: visible exactly on
    // {-1, 0, 1}.
    let s = EpochSprite { base: 10, delta: 0, first: -1, last: 1 };
    assert_eq!(s.project(-2), None);
    assert_eq!(s.project(-1), Some(10));
    assert_eq!(s.project(0), Some(11));
    assert_eq!(s.project(1), Some(12));
    assert_eq!(s.project(2), None);
}

#[test]
fn projector_uses_delta() {
    let s = EpochSprite { base: 20, delta: 2, first: 1, last: 3 };
    // Apparent local value is cur + 2.
    assert_eq!(s.project(-1), Some(20));
    assert_eq!(s.project(0), Some(21));
    assert_eq!(s.project(1), Some(22));
    assert_eq!(s.project(2), None);
}

#[test]
fn resolve_epoch_with_explicit_bounds() {
    // Tile 10 declares epoch 0 over [-1, 1]: base drops by the offset from
    // the lower end, and the global contributions are the bound itself.
    let r = resolve_epoch(10, 0, Some(-1), Some(1));
    let (s, glo, ghi) = r.expect("resolvable");
    assert_eq!(s, EpochSprite { base: 9, delta: 0, first: -1, last: 1 });
    assert_eq!(glo, -1);
    assert_eq!(ghi, 1);
}

#[test]
fn resolve_epoch_defaults_missing_bounds_to_epoch() {
    let r = resolve_epoch(5, 2, None, None);
    let (s, glo, ghi) = r.expect("resolvable");
    assert_eq!(s, EpochSprite { base: 5, delta: 2, first: 2, last: 2 });
    assert_eq!(glo, 0);
    assert_eq!(ghi, 0);
}

#[test]
fn resolve_epoch_orders_swapped_bounds() {
    let r = resolve_epoch(8, 1, Some(2), Some(0));
    let (s, _, _) = r.expect("resolvable");
    assert_eq!(s.first, 0);
    assert_eq!(s.last, 2);
    assert_eq!(s.delta, 1);
    assert_eq!(s.base, 7);
}

#[test]
fn resolve_epoch_clamps_own_value() {
    // epoch 9 clamped into [0, 2].
    let r = resolve_epoch(8, 9, Some(0), Some(2));
    let (s, glo, ghi) = r.expect("resolvable");
    assert_eq!(s.delta, 2);
    assert_eq!(s.first, 0);
    assert_eq!(s.last, 2);
    assert_eq!(s.base, 6);
    // Contributions use the raw declared value.
    assert_eq!(glo, -9);
    assert_eq!(ghi, -7);
}

#[test]
fn resolve_epoch_rejects_base_underflow() {
    // Tile 0 over [-2, 2] with epoch 0 would need a base of -2.
    assert!(resolve_epoch(0, 0, Some(-2), Some(2)).is_none());
}

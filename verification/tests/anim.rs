use wheel_of_time::anim::Frame;
use wheel_of_time::anim::TileAnimation;

#[test]
fn uniform_builds_consecutive_frames() {
    let a = TileAnimation::uniform(4, 3, 100);
    assert_eq!(a.frames.len(), 3);
    assert_eq!(a.frames[0], Frame { tile_id: 4, duration: 100 });
    assert_eq!(a.frames[1], Frame { tile_id: 5, duration: 100 });
    assert_eq!(a.frames[2], Frame { tile_id: 6, duration: 100 });
    assert_eq!(a.index, 0);
    assert_eq!(a.clock, 0);
}

#[test]
fn tick_consumes_whole_frames() {
    // Frames (5, 100 ms) and (6, 50 ms); 120 ms consumes the first frame,
    // leaving 20 ms inside the second.
    let mut a = TileAnimation {
        frames: vec![Frame { tile_id: 5, duration: 100 }, Frame { tile_id: 6, duration: 50 }],
        index: 0,
        clock: 0,
    };
    let id = a.tick(120);
    assert_eq!(id, 6);
    assert_eq!(a.index, 1);
    assert_eq!(a.clock, 20);
}

#[test]
fn tick_within_frame_keeps_index() {
    let mut a = TileAnimation {
        frames: vec![Frame { tile_id: 5, duration: 100 }, Frame { tile_id: 6, duration: 50 }],
        index: 0,
        clock: 0,
    };
    let id = a.tick(100);
    // The clock may reach the duration exactly without advancing.
    assert_eq!(id, 5);
    assert_eq!(a.index, 0);
    assert_eq!(a.clock, 100);
}

#[test]
fn tick_wraps_around_the_cycle() {
    let mut a = TileAnimation {
        frames: vec![Frame { tile_id: 1, duration: 10 }, Frame { tile_id: 2, duration: 10 }],
        index: 0,
        clock: 0,
    };
    // 45 ms crosses both frames twice and lands 5 ms into the first frame.
    let id = a.tick(45);
    assert_eq!(id, 1);
    assert_eq!(a.index, 0);
    assert_eq!(a.clock, 5);
}

#[test]
fn tick_many_short_frames_in_one_step() {
    let mut a = TileAnimation {
        frames: vec![
            Frame { tile_id: 7, duration: 1 },
            Frame { tile_id: 8, duration: 1 },
            Frame { tile_id: 9, duration: 1 },
        ],
        index: 0,
        clock: 0,
    };
    let id = a.tick(4);
    assert_eq!(id, 7);
    assert_eq!(a.index, 0);
    assert_eq!(a.clock, 1);
    let id2 = a.tick(1);
    assert_eq!(id2, 8);
    assert_eq!(a.index, 1);
}

//! The tile animation clock: cycles a non-empty list of variable-duration
//! frames by elapsed time.

use vstd::prelude::*;

verus! {

/// One step of a tile animation: which tile to show and for how long, in
/// milliseconds.
#[derive(Clone, Copy, PartialEq, Eq, Debug)]
pub struct Frame {
    pub tile_id: u32,
    pub duration: u32,
}

/// Advances a cyclic frame sequence by elapsed time: while the clock exceeds
/// the active frame's duration, that duration is consumed and the frame
/// pointer moves on, wrapping around at the end of the list.
pub open spec fn advance(frames: Seq<Frame>, index: int, clock: int) -> (int, int)
    decreases clock,
{
    if clock < 0 || !(0 <= index < frames.len()) || frames[index].duration <= 0 || clock
        <= frames[index].duration {
        (index, clock)
    } else {
        advance(frames, (index + 1) % (frames.len() as int), clock - frames[index].duration)
    }
}

/// Per-entity animation state: a non-empty frame list, the current frame
/// pointer, and the elapsed time within the current frame.
#[derive(Clone, PartialEq, Eq, Debug)]
pub struct TileAnimation {
    pub frames: Vec<Frame>,
    pub index: u32,
    pub clock: u32,
}

impl TileAnimation {
    /// A usable animation: at least one frame, every duration positive, the
    /// frame pointer in range, and a frame count that a `u32` can index.
    pub open spec fn wf(&self) -> bool {
        &&& 1 <= self.frames@.len() <= u32::MAX
        &&& (self.index as int) < self.frames@.len()
        &&& forall|i: int|
            0 <= i < self.frames@.len() ==> (#[trigger] self.frames@[i]).duration >= 1
    }

    /// `count` consecutive tiles, each shown for the same `duration`.
    pub fn uniform(start: u32, count: u32, duration: u32) -> (r: TileAnimation)
        requires
            1 <= count,
            1 <= duration,
            start + count <= u32::MAX,
        ensures
            r.wf(),
            r.frames@.len() == count as int,
            forall|i: int|
                0 <= i < count as int ==> r.frames@[i] == (Frame {
                    tile_id: (start + i) as u32,
                    duration,
                }),
            r.index == 0,
            r.clock == 0,
    {
        let mut frames: Vec<Frame> = Vec::new();
        let mut idx: u32 = start;
        while idx < start + count
            invariant
                start <= idx <= start + count,
                start + count <= u32::MAX,
                frames@.len() == idx - start,
                forall|i: int|
                    0 <= i < frames@.len() ==> frames@[i] == (Frame {
                        tile_id: (start + i) as u32,
                        duration,
                    }),
            decreases start + count - idx,
        {
            frames.push(Frame { tile_id: idx, duration });
            idx = idx + 1;
        }
        TileAnimation { frames, index: 0, clock: 0 }
    }

    /// Adds `dt` to the clock, consumes whole frames while the clock exceeds
    /// the active frame's duration, and returns the tile id of the frame that
    /// ends up active.
    pub fn tick(&mut self, dt: u32) -> (r: u32)
        requires
            old(self).wf(),
            old(self).clock + dt <= u32::MAX,
        ensures
            final(self).wf(),
            final(self).frames@ == old(self).frames@,
            (final(self).index as int, final(self).clock as int) == advance(
                old(self).frames@,
                old(self).index as int,
                old(self).clock + dt,
            ),
            final(self).clock <= final(self).frames@[final(self).index as int].duration,
            r == final(self).frames@[final(self).index as int].tile_id,
    {
        self.clock = self.clock + dt;
        let mut dur = self.frames[self.index as usize].duration;
        while self.clock > dur
            invariant
                self.wf(),
                self.frames@ == old(self).frames@,
                dur == self.frames@[self.index as int].duration,
                advance(old(self).frames@, old(self).index as int, old(self).clock + dt)
                    == advance(self.frames@, self.index as int, self.clock as int),
            decreases self.clock,
        {
            self.clock = self.clock - dur;
            let len = self.frames.len() as u32;
            self.index = (self.index + 1) % len;
            dur = self.frames[self.index as usize].duration;
        }
        self.frames[self.index as usize].tile_id
    }
}

} // verus!

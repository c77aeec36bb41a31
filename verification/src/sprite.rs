//! Sprite sheet animation: which frame of a strip shows at a given time.

use vstd::prelude::*;

verus! {

/// How a strip of frames repeats.
#[derive(Clone, Copy, Debug, PartialEq, Eq, Structural)]
pub enum Cycle {
    /// Forth and back: the end frames show once per round.
    PingPong,
    /// First to last, then over.
    Loop,
}

/// A strip of frames on a sprite sheet, from `idx_beg` to `idx_end`, each
/// shown for `frame_len`.
#[derive(Clone, Copy, Debug, PartialEq, Eq, Structural)]
pub struct TextureAnimate {
    pub frame_len: u64,
    pub cycle: Cycle,
    pub idx_beg: usize,
    pub idx_end: usize,
}

impl TextureAnimate {
    /// Frames in the strip.
    pub open spec fn len(self) -> int {
        self.idx_end + 1 - self.idx_beg
    }

    /// Frames last some time, the strip is not empty, and a strip that goes
    /// forth and back has two frames at least.
    pub open spec fn wf(self) -> bool {
        &&& 0 < self.frame_len
        &&& self.idx_beg <= self.idx_end
        &&& self.cycle == Cycle::PingPong ==> self.idx_beg < self.idx_end
    }

    /// The frame that shows once `elapsed` has passed.
    pub open spec fn frame_at(self, elapsed: u64) -> int {
        let n = elapsed as int / self.frame_len as int;
        match self.cycle {
            Cycle::PingPong => {
                let k = n % (self.len() * 2 - 2);
                if k < self.len() {
                    self.idx_beg + k
                } else {
                    self.idx_beg + (self.len() - (k - self.len()) - 2)
                }
            },
            Cycle::Loop => self.idx_beg + n % self.len(),
        }
    }
}

/// The frame that shows is one of the strip.
pub proof fn lemma_frame_in_strip(anim: TextureAnimate, elapsed: u64)
    requires
        anim.wf(),
    ensures
        anim.idx_beg <= anim.frame_at(elapsed) <= anim.idx_end,
{
}

/// A looping strip shows the same frame one round later; so does a strip
/// that goes forth and back, whose round is two frames short of twice its
/// length.
pub proof fn lemma_frame_repeats(anim: TextureAnimate, elapsed: u64, later: u64)
    requires
        anim.wf(),
        later as int / anim.frame_len as int == elapsed as int / anim.frame_len as int + (
        match anim.cycle {
            Cycle::PingPong => anim.len() * 2 - 2,
            Cycle::Loop => anim.len(),
        }),
    ensures
        anim.frame_at(later) == anim.frame_at(elapsed),
{
    let n = elapsed as int / anim.frame_len as int;
    let round = match anim.cycle {
        Cycle::PingPong => anim.len() * 2 - 2,
        Cycle::Loop => anim.len(),
    };
    vstd::arithmetic::div_mod::lemma_mod_add_multiples_vanish(n, round);
}

/// The frame of the strip to show once `elapsed` has passed.
pub fn animate_texture(anim: &TextureAnimate, elapsed: u64) -> (index: usize)
    requires
        anim.wf(),
    ensures
        index == anim.frame_at(elapsed),
{
    let beg: u128 = anim.idx_beg as u128;
    let len: u128 = (anim.idx_end - anim.idx_beg) as u128 + 1;
    let n: u128 = (elapsed / anim.frame_len) as u128;
    match anim.cycle {
        Cycle::PingPong => {
            let round: u128 = len * 2 - 2;
            let k: u128 = n % round;
            if k < len {
                (beg + k) as usize
            } else {
                (beg + (len - (k - len) - 2)) as usize
            }
        },
        Cycle::Loop => {
            let k: u128 = n % len;
            (beg + k) as usize
        },
    }
}

/// The first and last frame of a strip that is stepped frame by frame.
#[derive(Clone, Copy, Debug, PartialEq, Eq, Structural)]
pub struct AnimationIndices {
    pub first: usize,
    pub last: usize,
}

/// Which way a strip that goes forth and back is running.
#[derive(Clone, Copy, Debug, PartialEq, Eq, Structural)]
pub enum PingPongState {
    Forward,
    Backward,
}

/// How a stepped strip repeats.
#[derive(Clone, Copy, Debug, PartialEq, Eq, Structural)]
pub enum SpriteAnimationType {
    /// Play to the end, start over.
    Linear,
    /// Play to the end, go backwards, repeat.
    PingPong(PingPongState),
}

impl SpriteAnimationType {
    /// A strip that goes forth and back, starting forwards.
    pub fn new_ping_pong() -> (t: SpriteAnimationType)
        ensures
            t == SpriteAnimationType::PingPong(PingPongState::Forward),
    {
        SpriteAnimationType::PingPong(PingPongState::Forward)
    }
}

/// The frame after `index` and the way the strip then runs.
///
/// A linear strip starts over after its last frame. A strip that goes forth
/// and back turns round at either end, one frame inwards.
pub open spec fn stepped_frame(indices: AnimationIndices, kind: SpriteAnimationType, index: usize)
    -> (SpriteAnimationType, int) {
    match kind {
        SpriteAnimationType::Linear => (
            kind,
            if index == indices.last {
                indices.first as int
            } else {
                index + 1
            },
        ),
        SpriteAnimationType::PingPong(PingPongState::Forward) => if index == indices.last {
            (SpriteAnimationType::PingPong(PingPongState::Backward), index - 1)
        } else {
            (kind, index + 1)
        },
        SpriteAnimationType::PingPong(PingPongState::Backward) => if index == indices.first {
            (SpriteAnimationType::PingPong(PingPongState::Forward), index + 1)
        } else {
            (kind, index - 1)
        },
    }
}

/// Stepping a frame of the strip gives a frame of the strip, where a strip
/// that goes forth and back has two frames at least.
pub proof fn lemma_stepped_in_strip(
    indices: AnimationIndices,
    kind: SpriteAnimationType,
    index: usize,
)
    requires
        indices.first <= index <= indices.last,
        !(kind is Linear) ==> indices.first < indices.last,
    ensures
        indices.first <= stepped_frame(indices, kind, index).1 <= indices.last,
{
}

/// Whether the next frame can be counted: no frame lies before frame zero
/// or behind the largest index.
pub open spec fn can_step(indices: AnimationIndices, kind: SpriteAnimationType, index: usize)
    -> bool {
    0 <= stepped_frame(indices, kind, index).1 <= usize::MAX
}

/// Steps a strip to its next frame: returns the frame and updates the way
/// the strip runs.
pub fn sprite_animation(
    indices: &AnimationIndices,
    anim_type: &mut SpriteAnimationType,
    index: usize,
) -> (next: usize)
    requires
        can_step(*indices, *old(anim_type), index),
    ensures
        (*final(anim_type), next as int) == stepped_frame(*indices, *old(anim_type), index),
{
    match *anim_type {
        SpriteAnimationType::Linear => {
            if index == indices.last {
                indices.first
            } else {
                index + 1
            }
        },
        SpriteAnimationType::PingPong(PingPongState::Forward) => {
            if index == indices.last {
                *anim_type = SpriteAnimationType::PingPong(PingPongState::Backward);
                index - 1
            } else {
                index + 1
            }
        },
        SpriteAnimationType::PingPong(PingPongState::Backward) => {
            if index == indices.first {
                *anim_type = SpriteAnimationType::PingPong(PingPongState::Forward);
                index + 1
            } else {
                index - 1
            }
        },
    }
}

} // verus!

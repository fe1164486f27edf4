//! When the screen is drawn, and how long to wait for what comes next.

use vstd::prelude::*;

use crate::time::{Duration, Instant};

verus! {

/// How often what moves by itself is drawn.
pub const ANIMATION_NANOS: u128 = 100_000_000;

/// The longest wait for a key or a click.
pub const POLL_NANOS: u128 = 50_000_000;

#[derive(Clone, Copy, Debug, PartialEq, Eq, Structural)]
pub struct FrameClock {
    /// Whether the screen has to be drawn.
    pub dirty: bool,
    pub next_animation: Instant,
}

pub open spec fn animation_after(now: Instant) -> Instant {
    Instant {
        nanos: if now@ + ANIMATION_NANOS <= u128::MAX {
            (now@ + ANIMATION_NANOS) as u128
        } else {
            u128::MAX
        },
    }
}

impl FrameClock {
    pub fn new(now: Instant) -> (r: FrameClock)
        ensures
            r == (FrameClock { dirty: true, next_animation: animation_after(now) }),
    {
        FrameClock { dirty: true, next_animation: now.after(Duration { nanos: ANIMATION_NANOS }) }
    }

    /// Notes whether something has changed.
    pub fn mark(&mut self, changed: bool)
        ensures
            *final(self) == (FrameClock { dirty: old(self).dirty || changed, ..*old(self) }),
    {
        if changed {
            self.dirty = true;
        }
    }

    /// Whether the animation goes one step on.
    pub fn animate(&mut self, animated: bool, now: Instant) -> (r: bool)
        ensures
            r == (animated && now@ >= old(self).next_animation@),
            *final(self) == if r {
                FrameClock { dirty: true, next_animation: animation_after(now) }
            } else {
                *old(self)
            },
    {
        if animated && now.nanos >= self.next_animation.nanos {
            self.dirty = true;
            self.next_animation = now.after(Duration { nanos: ANIMATION_NANOS });
            true
        } else {
            false
        }
    }

    /// Notes that the screen was drawn.
    pub fn drawn(&mut self, animated: bool, now: Instant)
        ensures
            *final(self) == (FrameClock {
                dirty: false,
                next_animation: if animated && old(self).next_animation@ <= now@ {
                    animation_after(now)
                } else {
                    old(self).next_animation
                },
            }),
    {
        self.dirty = false;
        if animated && self.next_animation.nanos <= now.nanos {
            self.next_animation = now.after(Duration { nanos: ANIMATION_NANOS });
        }
    }

    /// How long to wait for a key or a click.
    pub fn timeout(&self, animated: bool, now: Instant) -> (r: Duration)
        ensures
            r@ == if !animated || self.next_animation@ >= now@ + POLL_NANOS {
                POLL_NANOS as nat
            } else if self.next_animation@ >= now@ {
                (self.next_animation@ - now@) as nat
            } else {
                0
            },
    {
        if !animated {
            return Duration { nanos: POLL_NANOS };
        }
        let left: Duration = self.next_animation.saturating_duration_since(now);
        if left.nanos < POLL_NANOS {
            left
        } else {
            Duration { nanos: POLL_NANOS }
        }
    }
}

// Laws of the frames.

/// The screen is drawn anew when something changed; while something moves it
/// goes on ten times a second; and keys are waited for a twentieth of a second
/// at most, and no longer than until the next step.
pub proof fn lemma_frames(clock: FrameClock, animated: bool, now: Instant, r: Duration)
    requires
        call_ensures(FrameClock::timeout, (&clock, animated, now), r),
    ensures
        r@ <= 50_000_000,
        !animated ==> r@ == 50_000_000,
        animated && clock.next_animation@ <= now@ ==> r@ == 0,
        animated && now@ <= clock.next_animation@ <= now@ + 50_000_000 ==> now@ + r@ == clock.next_animation@,
        now@ + 100_000_000 <= u128::MAX ==> animation_after(now)@ == now@ + 100_000_000,
{
}

} // verus!

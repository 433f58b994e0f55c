//! A decorative blinking marker: a fixed position and two colors that
//! alternate with a fixed period.

use crate::fixed::Vec2Fx;
use vstd::prelude::*;

verus! {

/// Default blink half-period: half a second in fixed point.
pub const SPRITE_PERIOD: i64 = 32768;

/// A two-color blinking marker at a fixed position.
pub struct Sprite {
    pub pos: Vec2Fx,
    pub color_a: u32,
    pub color_b: u32,
    /// Phase clock, wrapped into `[0, 2 * period)`.
    pub t: i64,
    pub period: i64,
}

impl Sprite {
    pub fn new(x: i64, y: i64) -> (s: Sprite)
        ensures
            s.pos == (Vec2Fx { x, y }),
            s.color_a == 0xffaa00ff,
            s.color_b == 0xffff00ff,
            s.t == 0,
            s.period == SPRITE_PERIOD,
    {
        Sprite {
            pos: Vec2Fx { x, y },
            color_a: 0xffaa00ff,
            color_b: 0xffff00ff,
            t: 0,
            period: SPRITE_PERIOD,
        }
    }

    /// Advances the phase clock by a frame delta, wrapping at a full
    /// blink cycle.
    pub fn update(&mut self, dt: i64)
        requires
            0 <= dt <= 0x10000000,
            0 <= old(self).t,
            1 <= old(self).period <= 0x10000000,
        ensures
            final(self).t == (old(self).t + dt) % (2 * old(self).period),
            final(self).pos == old(self).pos,
            final(self).color_a == old(self).color_a,
            final(self).color_b == old(self).color_b,
            final(self).period == old(self).period,
    {
        let cycle: u64 = 2 * (self.period as u64);
        let t2: u64 = ((self.t as u64) + (dt as u64)) % cycle;
        self.t = t2 as i64;
    }

    /// The color for the current phase: the first color during the
    /// first half of the cycle, the second during the rest.
    pub fn color(&self) -> (c: u32)
        ensures
            c == if self.t < self.period {
                self.color_a
            } else {
                self.color_b
            },
    {
        if self.t < self.period {
            self.color_a
        } else {
            self.color_b
        }
    }
}

} // verus!

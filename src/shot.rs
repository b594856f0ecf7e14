use vstd::prelude::*;

use crate::frame::{in_bounds, paint, Drawable, Frame};
use crate::timer::Timer;

verus! {

/// Time a shot takes to climb one row, in microseconds.
pub const SHOT_STEP_MICROS: u64 = 50_000;

/// How long an explosion stays on screen, in microseconds.
pub const EXPLOSION_MICROS: u64 = 250_000;

/// Glyph of a shot in flight.
pub const SHOT_GLYPH: char = '|';

/// Glyph of an exploding shot.
pub const EXPLOSION_GLYPH: char = '*';

/// A shot fired by the player: it climbs towards row 0 until it hits
/// something, then explodes for a while. `timer` paces the climb; `age` is
/// how long the explosion has been shown.
#[derive(Clone, Copy)]
pub struct Shot {
    pub x: usize,
    pub y: usize,
    pub exploding: bool,
    pub timer: Timer,
    pub age: u64,
}

impl Shot {
    pub open spec fn wf(&self) -> bool {
        &&& self.timer.wf()
        &&& in_bounds(self.x as int, self.y as int)
    }

    /// Whether the shot is finished: it reached row 0 without hitting
    /// anything, or its explosion has been shown for longer than
    /// `EXPLOSION_MICROS`.
    pub open spec fn is_dead(&self) -> bool {
        (self.exploding && self.age > EXPLOSION_MICROS) || (!self.exploding && self.y == 0)
    }

    pub open spec fn glyph(&self) -> char {
        if self.exploding {
            EXPLOSION_GLYPH
        } else {
            SHOT_GLYPH
        }
    }

    /// The shot after `delta` microseconds have passed.
    ///
    /// A shot in flight climbs one row each time its step timer runs out; an
    /// exploding shot only grows older, up to the largest `u64`.
    pub open spec fn advanced(self, delta: u64) -> Shot {
        if self.exploding {
            let age = if self.age + delta <= u64::MAX { (self.age + delta) as u64 } else { u64::MAX };
            Shot { age, ..self }
        } else {
            self.climbed(delta)
        }
    }

    /// A shot in flight after `delta` microseconds.
    pub open spec fn climbed(self, delta: u64) -> Shot {
        let left: u64 = if self.timer.time_left >= delta {
            (self.timer.time_left - delta) as u64
        } else {
            0
        };
        if left == 0 {
            Shot {
                y: if self.y > 0 { (self.y - 1) as usize } else { 0 },
                timer: Timer { duration: self.timer.duration, time_left: self.timer.duration },
                ..self
            }
        } else {
            Shot { timer: Timer { duration: self.timer.duration, time_left: left }, ..self }
        }
    }

    /// The shot once it has started to explode.
    pub open spec fn exploded(self) -> Shot {
        Shot {
            exploding: true,
            age: 0,
            ..self
        }
    }

    /// A shot in flight at column `x`, row `y`, at the start of its step.
    pub open spec fn fresh(x: usize, y: usize) -> Shot {
        Shot {
            x,
            y,
            exploding: false,
            timer: Timer { duration: SHOT_STEP_MICROS, time_left: SHOT_STEP_MICROS },
            age: 0,
        }
    }

    /// A shot in flight at column `x`, row `y`.
    pub fn new(x: usize, y: usize) -> (s: Shot)
        requires
            in_bounds(x as int, y as int),
        ensures
            s.wf(),
            s == Shot::fresh(x, y),
    {
        Shot { x, y, exploding: false, timer: Timer::from_micros(SHOT_STEP_MICROS), age: 0 }
    }

    /// Lets `delta` microseconds pass.
    pub fn update(&mut self, delta: u64)
        requires
            old(self).wf(),
        ensures
            final(self).wf(),
            *final(self) == old(self).advanced(delta),
    {
        if self.exploding {
            self.age = self.age.saturating_add(delta);
        } else {
            self.timer.update(delta);
            if self.timer.ready() {
                if self.y > 0 {
                    self.y -= 1;
                }
                self.timer.reset();
            }
        }
    }

    /// Starts the explosion, at age zero.
    pub fn explode(&mut self)
        requires
            old(self).wf(),
        ensures
            final(self).wf(),
            *final(self) == old(self).exploded(),
    {
        self.exploding = true;
        self.age = 0;
    }

    pub fn dead(&self) -> (r: bool)
        ensures
            r == self.is_dead(),
    {
        (self.exploding && self.age > EXPLOSION_MICROS) || (!self.exploding && self.y == 0)
    }
}

/// A shot that starts to explode, wherever it stands, is not dead yet, and
/// stays alive, so that it is drawn, until its explosion has lasted
/// `EXPLOSION_MICROS`; once more time than that has passed it is dead.
pub proof fn lemma_explosion_lasts(s: Shot, delta: u64)
    ensures
        !s.exploded().is_dead(),
        s.exploded().advanced(delta).is_dead() == (delta > EXPLOSION_MICROS),
{
}

/// Exploding a shot that already explodes changes nothing more.
pub proof fn lemma_explode_idempotent(s: Shot)
    ensures
        s.exploded().exploded() == s.exploded(),
{
}

/// A shot in flight whose step ends on row 1 reaches row 0, and is dead.
pub proof fn lemma_shot_at_top_is_dead(s: Shot, delta: u64)
    requires
        !s.exploding,
        s.y == 1,
        s.timer.time_left <= delta,
    ensures
        s.advanced(delta).y == 0,
        s.advanced(delta).is_dead(),
{
}

impl Drawable for Shot {
    open spec fn draw_ready(&self) -> bool {
        self.wf()
    }

    open spec fn drawn(&self, before: Seq<Seq<char>>) -> Seq<Seq<char>> {
        paint(before, self.x as int, self.y as int, self.glyph())
    }

    fn draw(&self, frame: &mut Frame) {
        let glyph = if self.exploding {
            EXPLOSION_GLYPH
        } else {
            SHOT_GLYPH
        };
        frame.set(self.x, self.y, glyph);
    }
}

} // verus!

use vstd::prelude::*;

use crate::color::{brightness, dimmed, wheel_color, Rainbow, RGB8};
use crate::matrix::NUM_LEDS;

verus! {

/// Number of steps in one turn of the line.
pub const STEPS_PER_TURN: u32 = 60;

/// Degrees that the line turns by from one tick to the next.
pub const DEGREES_PER_STEP: u32 = 6;

/// Level that every tick fades the frame to.
pub const FADE_LEVEL: u8 = 210;

/// Level at which the line is drawn.
pub const LINE_LEVEL: u8 = 32;

/// The line to draw in one tick, from the centre of the board outwards.
#[derive(Clone, Copy, Debug, PartialEq, Eq, Structural)]
pub struct Stroke {
    /// Direction of the line in degrees; at zero it runs along the rows'
    /// numbering, and it comes round at 360.
    pub degrees: u32,
    /// Colour of the line.
    pub color: RGB8,
}

/// A line that turns round the centre of the board through the colours of
/// the wheel, over a frame that fades.
pub struct Drawing {
    i: u32,
    rainbow: Rainbow,
}

/// Fades every LED of `canvas` to `level`.
fn fade(canvas: &mut [RGB8; NUM_LEDS], level: u8)
    ensures
        forall|k: int|
            0 <= k < NUM_LEDS ==> #[trigger] final(canvas)@[k] == dimmed(old(canvas)@[k], level),
{
    let ghost before = canvas@;
    let mut k: usize = 0;
    while k < NUM_LEDS
        invariant
            k <= NUM_LEDS,
            forall|j: int| 0 <= j < k ==> #[trigger] canvas@[j] == dimmed(before[j], level),
            forall|j: int| k <= j < NUM_LEDS ==> canvas@[j] == before[j],
        decreases NUM_LEDS - k,
    {
        canvas[k] = brightness(canvas[k], level);
        k = k + 1;
    }
}

impl Drawing {
    /// The step of the turn that the next tick draws; at `STEPS_PER_TURN`
    /// the turn starts again.
    pub closed spec fn step(&self) -> u32 {
        self.i
    }

    /// The wheel position of the next line's colour.
    pub closed spec fn hue(&self) -> u8 {
        self.rainbow.pos()
    }

    /// The distance on the wheel from one line's colour to the next.
    pub closed spec fn hue_step(&self) -> u8 {
        self.rainbow.stride()
    }

    /// The step that a tick draws when it finds the pattern at `step`: a
    /// finished turn starts again.
    pub open spec fn drawn_step(step: u32) -> u32 {
        if step >= STEPS_PER_TURN {
            0
        } else {
            step
        }
    }

    /// One tick: fades the frame, and says which line to draw over it.
    pub fn tick(&mut self, canvas: &mut [RGB8; NUM_LEDS]) -> (stroke: Stroke)
        ensures
            final(self).step() == Self::drawn_step(old(self).step()) + 1,
            final(self).hue() as int == (old(self).hue() + old(self).hue_step()) % 256,
            final(self).hue_step() == old(self).hue_step(),
            stroke.degrees == Self::drawn_step(old(self).step()) * DEGREES_PER_STEP,
            stroke.color == dimmed(wheel_color(old(self).hue()), LINE_LEVEL),
            forall|k: int|
                0 <= k < NUM_LEDS ==> #[trigger] final(canvas)@[k] == dimmed(
                    old(canvas)@[k],
                    FADE_LEVEL,
                ),
    {
        if self.i >= STEPS_PER_TURN {
            self.i = 0;
        }
        let i = self.i;
        fade(canvas, FADE_LEVEL);
        let color = match self.rainbow.next() {
            Some(c) => brightness(c, LINE_LEVEL),
            None => RGB8 { r: 0, g: 0, b: 0 },
        };
        self.i += 1;
        Stroke { degrees: i * DEGREES_PER_STEP, color }
    }
}

/// The line before its first tick: straight down, in the wheel's first
/// colour.
pub fn new() -> (d: Drawing)
    ensures
        d.step() == 0,
        d.hue() == 0,
        d.hue_step() == 3,
{
    Drawing { i: 0, rainbow: Rainbow::step(3) }
}

} // verus!

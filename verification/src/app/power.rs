use vstd::prelude::*;

use crate::color::RGB8;
use crate::matrix::NUM_LEDS;

verus! {

/// A test pattern for the supply: tick by tick, one LED after the other
/// goes to full white, and on the next round off again.
pub struct Power {
    i: usize,
    on: [bool; NUM_LEDS],
}

impl Power {
    /// The number of ticks so far; it wraps round where the machine's word
    /// ends.
    pub closed spec fn ticks(&self) -> usize {
        self.i
    }

    /// Which LEDs the pattern has switched on.
    pub closed spec fn lit(&self) -> Seq<bool> {
        self.on@
    }

    /// One tick: toggles the LED whose turn it is, on the frame and in the
    /// pattern's own record, and leaves every other LED alone.
    pub fn tick(&mut self, canvas: &mut [RGB8; NUM_LEDS])
        ensures
            final(self).ticks() == if old(self).ticks() == usize::MAX {
                0
            } else {
                old(self).ticks() + 1
            },
            ({
                let k = old(self).ticks() % NUM_LEDS;
                &&& final(self).lit() == old(self).lit().update(k as int, !old(self).lit()[k as int])
                &&& final(canvas)@ == old(canvas)@.update(
                    k as int,
                    if old(self).lit()[k as int] {
                        RGB8 { r: 0, g: 0, b: 0 }
                    } else {
                        RGB8 { r: 255, g: 255, b: 255 }
                    },
                )
            }),
    {
        let i = self.i % NUM_LEDS;
        if !self.on[i] {
            canvas[i] = RGB8 { r: 255, g: 255, b: 255 };
        } else {
            canvas[i] = RGB8 { r: 0, g: 0, b: 0 };
        }
        self.on[i] = !self.on[i];
        self.i = self.i.wrapping_add(1);
    }
}

/// The pattern before its first tick: every LED off.
pub fn new() -> (p: Power)
    ensures
        p.ticks() == 0,
        p.lit() == Seq::new(NUM_LEDS as nat, |i: int| false),
{
    let p = Power { i: 0, on: [false;NUM_LEDS] };
    assert(p.lit() =~= Seq::new(NUM_LEDS as nat, |i: int| false));
    p
}

} // verus!

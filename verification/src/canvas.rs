use vstd::prelude::*;

use crate::color::RGB8;
use crate::matrix::NUM_LEDS;

verus! {

/// Paints every LED of `frame` in `color`.
pub fn fill(frame: &mut [RGB8; NUM_LEDS], color: RGB8)
    ensures
        forall|i: int| 0 <= i < NUM_LEDS ==> #[trigger] final(frame)@[i] == color,
{
    let mut i: usize = 0;
    while i < NUM_LEDS
        invariant
            i <= NUM_LEDS,
            forall|k: int| 0 <= k < i ==> #[trigger] frame@[k] == color,
        decreases NUM_LEDS - i,
    {
        frame[i] = color;
        i = i + 1;
    }
}

/// Turns every LED of `frame` off.
pub fn clear(frame: &mut [RGB8; NUM_LEDS])
    ensures
        forall|i: int|
            0 <= i < NUM_LEDS ==> #[trigger] final(frame)@[i] == (RGB8 { r: 0, g: 0, b: 0 }),
{
    fill(frame, RGB8 { r: 0, g: 0, b: 0 });
}

} // verus!

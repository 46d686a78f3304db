use vstd::prelude::*;

use crate::color::RGB8;
use crate::mailbox::Mailbox;
use crate::matrix::NUM_LEDS;
use crate::power_zones::{
    estimate_current_all, limit_current, limited_frame, no_brighter, zone_current, DynamicLimit,
    LimitState, CURRENT_MAX, CURRENT_RATED, NUM_ZONES,
};

verus! {

/// Number of ticks from one commit of the limiters to the next.
pub const COMMIT_PERIOD: u32 = 32;

/// What tick number `tick` makes of a zone's limiter when the zone draws
/// `current`: the measurement is taken in, and on every `COMMIT_PERIOD`th
/// tick the window is committed.
pub open spec fn stepped(s: LimitState, current: nat, tick: u32) -> LimitState {
    if tick % COMMIT_PERIOD == 0 {
        s.measured(current as u32).committed()
    } else {
        s.measured(current as u32)
    }
}

/// The ceilings of `limiters`, zone by zone.
pub open spec fn ceilings(limiters: Seq<LimitState>) -> Seq<u32> {
    Seq::new(limiters.len(), |z: int| limiters[z].ceiling)
}

/// The frame on its way to the strip, with the limiter of every zone.
pub struct LedStrip {
    pub data: [RGB8; NUM_LEDS],
    dynamic_limit: [DynamicLimit; NUM_ZONES],
    count: u32,
}

impl LedStrip {
    /// The frame as the effect left it, or as the last `signal` sent it.
    pub closed spec fn frame(&self) -> Seq<RGB8> {
        self.data@
    }

    /// The limiters' states, zone by zone.
    pub closed spec fn limiters(&self) -> Seq<LimitState> {
        Seq::new(NUM_ZONES as nat, |z: int| self.dynamic_limit@[z]@)
    }

    /// The number of frames sent so far; it wraps round.
    pub closed spec fn ticks(&self) -> u32 {
        self.count
    }

    /// Whether the strip is in a state that its own methods lead to: every
    /// limiter is well formed and holds no more measurements than ticks
    /// have passed since the last commit.
    pub closed spec fn wf(&self) -> bool {
        forall|z: int|
            0 <= z < NUM_ZONES ==> (#[trigger] self.dynamic_limit@[z])@.wf()
                && self.dynamic_limit@[z]@.count <= (self.count + COMMIT_PERIOD - 1)
                % (COMMIT_PERIOD as int)
    }

    /// A dark frame, and limiters that have seen nothing.
    pub fn new() -> (s: LedStrip)
        ensures
            s.wf(),
            s.ticks() == 0,
            s.frame() == Seq::new(NUM_LEDS as nat, |i: int| RGB8 { r: 0, g: 0, b: 0 }),
            s.limiters() == Seq::new(NUM_ZONES as nat, |z: int| LimitState::initial()),
    {
        let s = LedStrip {
            data: [RGB8 { r: 0, g: 0, b: 0 };NUM_LEDS],
            dynamic_limit: [DynamicLimit::default();NUM_ZONES],
            count: 0,
        };
        assert(s.frame() =~= Seq::new(NUM_LEDS as nat, |i: int| RGB8 { r: 0, g: 0, b: 0 }));
        assert(s.limiters() =~= Seq::new(NUM_ZONES as nat, |z: int| LimitState::initial()));
        s
    }

    /// One tick of the output stage. Every zone's estimated current goes
    /// into its limiter, which commits on every `COMMIT_PERIOD`th tick; the
    /// frame is then brought down to the ceilings and posted to `leds`.
    pub fn signal(&mut self, leds: &mut Mailbox<[RGB8; NUM_LEDS]>)
        requires
            old(self).wf(),
        ensures
            final(self).wf(),
            final(self).ticks() as int == (old(self).ticks() + 1) % 0x1_0000_0000,
            final(self).limiters().len() == NUM_ZONES,
            forall|z: int|
                0 <= z < NUM_ZONES ==> #[trigger] final(self).limiters()[z] == stepped(
                    old(self).limiters()[z],
                    zone_current(old(self).frame(), z),
                    old(self).ticks(),
                ),
            final(self).frame() == limited_frame(
                old(self).frame(),
                ceilings(final(self).limiters()),
            ),
            final(leds)@ matches Some(sent) && sent@ == final(self).frame(),
            forall|i: int|
                0 <= i < NUM_LEDS ==> no_brighter(
                    #[trigger] final(self).frame()[i],
                    old(self).frame()[i],
                ),
            forall|z: int|
                0 <= z < NUM_ZONES ==> CURRENT_RATED <= (#[trigger] final(self).limiters()[z]).ceiling
                    <= CURRENT_MAX,
    {
        let ghost before = self.limiters();
        let led_strip_power = estimate_current_all(&self.data);
        let mut limit: [u32; NUM_ZONES] = [0;NUM_ZONES];
        let mut i: usize = 0;
        while i < NUM_ZONES
            invariant
                i <= NUM_ZONES,
                self.data == old(self).data,
                self.count == old(self).count,
                before == old(self).limiters(),
                old(self).wf(),
                forall|z: int|
                    0 <= z < NUM_ZONES ==> #[trigger] led_strip_power@[z] == zone_current(
                        old(self).frame(),
                        z,
                    ),
                forall|z: int|
                    0 <= z < i ==> (#[trigger] self.dynamic_limit@[z])@ == stepped(
                        before[z],
                        zone_current(old(self).frame(), z),
                        self.count,
                    ) && self.dynamic_limit@[z]@.wf() && limit@[z] == self.dynamic_limit@[z]@.ceiling
                        && self.dynamic_limit@[z]@.count <= self.count % COMMIT_PERIOD,
                forall|z: int|
                    i <= z < NUM_ZONES ==> #[trigger] self.dynamic_limit@[z] == old(
                        self,
                    ).dynamic_limit@[z],
            decreases NUM_ZONES - i,
        {
            let mut zone = self.dynamic_limit[i];
            assert(zone@ == before[i as int]);
            zone.add_measurement(led_strip_power[i]);
            if self.count % COMMIT_PERIOD == 0 {
                zone.commit();
            }
            limit[i] = zone.get_limit();
            self.dynamic_limit[i] = zone;
            i = i + 1;
        }
        limit_current(&mut self.data, &limit);
        self.count = self.count.wrapping_add(1);
        leds.signal(self.data);
        proof {
            assert(limit@ =~= ceilings(self.limiters()));
        }
    }
}

} // verus!

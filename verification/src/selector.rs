use vstd::prelude::*;

use crate::switch::{DebouncedSwitch, SwitchState};

verus! {

/// Number of ticks, from power-up, for which the splash is shown.
pub const SPLASH_TICKS: usize = 120;

/// The effects that the pipeline can run.
#[derive(Clone, Copy, Debug, PartialEq, Eq, Structural)]
pub enum Effect {
    /// The rotating line shown after power-up.
    Splash,
    /// The fire that follows the ambient loudness.
    Fire,
    /// The cellular automaton on the hexagonal grid.
    Hexlife,
}

/// What decides which effect runs.
pub struct SelectorState {
    /// The mode switch.
    pub switch: SwitchState,
    /// Whether the fire, rather than the automaton, follows the splash.
    pub show_fire: bool,
    /// The number of ticks so far.
    pub ticks: nat,
}

impl SelectorState {
    /// The state at power-up.
    pub open spec fn initial() -> SelectorState {
        SelectorState { switch: SwitchState::initial(), show_fire: false, ticks: 0 }
    }

    /// Whether the fire is shown once the sample `down` is taken in: every
    /// press of the switch changes it.
    pub open spec fn fire_after(self, down: bool) -> bool {
        if self.switch.updated(down).just_pressed {
            !self.show_fire
        } else {
            self.show_fire
        }
    }

    /// The effect of the tick that takes in the sample `down`.
    pub open spec fn effect(self, down: bool) -> Effect {
        if self.ticks < SPLASH_TICKS {
            Effect::Splash
        } else if self.fire_after(down) {
            Effect::Fire
        } else {
            Effect::Hexlife
        }
    }

    /// The state after the tick that takes in the sample `down`. The tick
    /// count wraps round where the machine's word ends.
    pub open spec fn after(self, down: bool) -> SelectorState {
        SelectorState {
            switch: self.switch.updated(down),
            show_fire: self.fire_after(down),
            ticks: if self.ticks == usize::MAX {
                0
            } else {
                self.ticks + 1
            },
        }
    }
}

/// A sample that completes no press leaves the choice between fire and
/// automaton as it is; one that does, changes it.
pub proof fn lemma_choice_changes_on_press_only(s: SelectorState, down: bool)
    ensures
        s.after(down).show_fire != s.show_fire <==> s.switch.updated(down).just_pressed,
        s.switch.updated(down).just_pressed ==> s.switch.armed && down && s.switch.countdown == 0,
{
}

/// Picks, tick by tick, the effect to run: the splash for the first
/// `SPLASH_TICKS` ticks, then the automaton or the fire, whichever the mode
/// switch has last chosen.
pub struct EffectSelector {
    debounce: DebouncedSwitch,
    show_fire: bool,
    ct: usize,
}

impl View for EffectSelector {
    type V = SelectorState;

    closed spec fn view(&self) -> SelectorState {
        SelectorState { switch: self.debounce@, show_fire: self.show_fire, ticks: self.ct as nat }
    }
}

impl EffectSelector {
    pub fn new() -> (s: EffectSelector)
        ensures
            s@ == SelectorState::initial(),
    {
        EffectSelector { debounce: DebouncedSwitch::default(), show_fire: false, ct: 0 }
    }

    /// One tick: takes in the switch's level and names the effect to run.
    pub fn select(&mut self, down: bool) -> (effect: Effect)
        ensures
            effect == old(self)@.effect(down),
            final(self)@ == old(self)@.after(down),
    {
        self.debounce.update(down);
        if self.debounce.just_pressed {
            self.show_fire = !self.show_fire;
        }
        let effect = if self.ct < SPLASH_TICKS {
            Effect::Splash
        } else if self.show_fire {
            Effect::Fire
        } else {
            Effect::Hexlife
        };
        self.ct = self.ct.wrapping_add(1);
        effect
    }
}

} // verus!

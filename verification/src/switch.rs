use vstd::prelude::*;

verus! {

/// Number of further samples that a level must hold, after the first, before
/// the switch takes notice.
pub const DEBOUNCE_COUNT: usize = 10;

/// The state of a debounced switch.
pub struct SwitchState {
    /// Whether the switch waits for a press (`true`) or for a release.
    pub armed: bool,
    /// Samples at the awaited level still to come before it counts.
    pub countdown: nat,
    /// Whether the last sample completed a press.
    pub just_pressed: bool,
}

impl SwitchState {
    /// A released switch that waits for a press.
    pub open spec fn initial() -> SwitchState {
        SwitchState { armed: true, countdown: DEBOUNCE_COUNT as nat, just_pressed: false }
    }

    /// The state after one more sample of the input level. While armed, each
    /// active sample counts down, and the one that finds the count at zero is
    /// the press: the switch reports it once and then waits for a release,
    /// which inactive samples count down in the same way. A sample at the
    /// other level changes nothing.
    pub open spec fn updated(self, down: bool) -> SwitchState {
        if self.armed == down {
            if self.countdown == 0 {
                SwitchState {
                    armed: !self.armed,
                    countdown: DEBOUNCE_COUNT as nat,
                    just_pressed: self.armed,
                }
            } else {
                SwitchState {
                    armed: self.armed,
                    countdown: (self.countdown - 1) as nat,
                    just_pressed: false,
                }
            }
        } else {
            SwitchState { just_pressed: false, ..self }
        }
    }
}

/// The state that the samples `samples`, in their order, make of `s`.
pub open spec fn run(s: SwitchState, samples: Seq<bool>) -> SwitchState
    decreases samples.len(),
{
    if samples.len() == 0 {
        s
    } else {
        run(s, samples.drop_last()).updated(samples.last())
    }
}

/// How many presses the switch reports while it takes in `samples` from
/// state `s`.
pub open spec fn presses(s: SwitchState, samples: Seq<bool>) -> nat
    decreases samples.len(),
{
    if samples.len() == 0 {
        0
    } else {
        presses(s, samples.drop_last()) + if run(s, samples).just_pressed {
            1nat
        } else {
            0nat
        }
    }
}

/// How many of `samples` are active.
pub open spec fn count_active(samples: Seq<bool>) -> nat
    decreases samples.len(),
{
    if samples.len() == 0 {
        0
    } else {
        count_active(samples.drop_last()) + if samples.last() {
            1nat
        } else {
            0nat
        }
    }
}

/// `n` samples of the level `down`.
pub open spec fn held(down: bool, n: nat) -> Seq<bool> {
    Seq::new(n, |i: int| down)
}

/// Glitches do not add up to a press: as long as an armed switch has seen no
/// more active samples than its countdown, in whatever order and with
/// whatever pauses, it reports nothing and stays armed.
pub proof fn lemma_glitches_never_fire(s: SwitchState, samples: Seq<bool>)
    requires
        s.armed,
        count_active(samples) <= s.countdown,
    ensures
        presses(s, samples) == 0,
        run(s, samples).armed,
        run(s, samples).countdown == s.countdown - count_active(samples),
    decreases samples.len(),
{
    if samples.len() > 0 {
        lemma_glitches_never_fire(s, samples.drop_last());
    }
}

/// Once a press is reported, holding the level reports no more.
pub proof fn lemma_held_after_press_is_silent(s: SwitchState, n: nat)
    requires
        !s.armed,
    ensures
        presses(s, held(true, n)) == 0,
        run(s, held(true, n)) == if n == 0 {
            s
        } else {
            SwitchState { just_pressed: false, ..s }
        },
    decreases n,
{
    if n > 0 {
        assert(held(true, n).drop_last() =~= held(true, (n - 1) as nat));
        lemma_held_after_press_is_silent(s, (n - 1) as nat);
    }
}

/// An active level held for more samples than the countdown is one press,
/// however long it is held: the sample that finds the count at zero reports
/// it, and none after that.
pub proof fn lemma_sustained_press_fires_once(s: SwitchState, n: nat)
    requires
        s.armed,
        n > s.countdown,
    ensures
        presses(s, held(true, n)) == 1,
        !run(s, held(true, n)).armed,
        run(s, held(true, n)).countdown == DEBOUNCE_COUNT,
        run(s, held(true, n)).just_pressed <==> n == s.countdown + 1,
    decreases n,
{
    let before = held(true, (n - 1) as nat);
    assert(held(true, n).drop_last() =~= before);
    if n == s.countdown + 1 {
        lemma_count_active_held(s.countdown);
        lemma_glitches_never_fire(s, before);
    } else {
        lemma_sustained_press_fires_once(s, (n - 1) as nat);
    }
}

/// Every one of `n` held samples is active.
pub proof fn lemma_count_active_held(n: nat)
    ensures
        count_active(held(true, n)) == n,
        count_active(held(false, n)) == 0,
    decreases n,
{
    if n > 0 {
        assert(held(true, n).drop_last() =~= held(true, (n - 1) as nat));
        assert(held(false, n).drop_last() =~= held(false, (n - 1) as nat));
        lemma_count_active_held((n - 1) as nat);
    }
}

/// Turns a bouncing input level into one event per press.
pub struct DebouncedSwitch {
    pub armed: bool,
    pub just_pressed: bool,
    pub count: usize,
}

impl View for DebouncedSwitch {
    type V = SwitchState;

    open spec fn view(&self) -> SwitchState {
        SwitchState {
            armed: self.armed,
            countdown: self.count as nat,
            just_pressed: self.just_pressed,
        }
    }
}

impl Default for DebouncedSwitch {
    fn default() -> (s: DebouncedSwitch)
        ensures
            s@ == SwitchState::initial(),
    {
        DebouncedSwitch { armed: true, just_pressed: false, count: DEBOUNCE_COUNT }
    }
}

impl DebouncedSwitch {
    /// Takes in one sample of the input level; `just_pressed` then tells
    /// whether this sample completed a press.
    pub fn update(&mut self, down: bool)
        ensures
            final(self)@ == old(self)@.updated(down),
    {
        self.just_pressed = false;
        if self.armed && down {
            if self.count == 0 {
                self.just_pressed = true;
                self.armed = false;
                self.count = DEBOUNCE_COUNT;
            } else {
                self.count -= 1;
            }
        } else if !self.armed && !down {
            if self.count == 0 {
                self.armed = true;
                self.count = DEBOUNCE_COUNT;
            } else {
                self.count -= 1;
            }
        }
    }
}

} // verus!

use vstd::prelude::*;

use crate::i2s::NUM_SAMPLES;

verus! {

/// Number of blocks that one loudness estimate is taken over.
pub const WINDOW_SIZE: usize = 128;

/// The largest sum of squares that one block can have.
pub const MAX_BLOCK_ENERGY: u64 = 0x8_0000_0000;

/// The sum of the squares of `samples`.
pub open spec fn sum_squares(samples: Seq<i16>) -> nat
    decreases samples.len(),
{
    if samples.len() == 0 {
        0
    } else {
        sum_squares(samples.drop_last()) + (samples.last() * samples.last()) as nat
    }
}

/// Whether `r` is the square root of `v`, rounded down.
pub open spec fn is_sqrt(v: nat, r: nat) -> bool {
    r * r <= v < (r + 1) * (r + 1)
}

/// The loudness over one window.
#[derive(Clone, Copy, Debug, PartialEq, Eq, Structural)]
pub enum Loudness {
    /// Every sample of the window was zero. There is no level to take a
    /// logarithm of: the level is the floor.
    Silence,
    /// The root mean square of the window's samples, in 256ths of a sample
    /// unit, rounded down. It is never zero.
    Rms(u32),
}

/// Whether `level` is the loudness of a window of `WINDOW_SIZE` blocks whose
/// squares add up to `energy`.
pub open spec fn is_level(energy: nat, level: Loudness) -> bool {
    match level {
        Loudness::Silence => energy == 0,
        Loudness::Rms(q) => energy > 0 && q > 0 && is_sqrt(16 * energy, q as nat),
    }
}

/// A number has one rounded-down square root.
pub proof fn lemma_sqrt_unique(v: nat, a: nat, b: nat)
    by (nonlinear_arith)
    requires
        is_sqrt(v, a),
        is_sqrt(v, b),
    ensures
        a == b,
{
    if a < b {
        assert((a + 1) * (a + 1) <= b * b);
    }
    if b < a {
        assert((b + 1) * (b + 1) <= a * a);
    }
}

/// A window has one loudness.
pub proof fn lemma_level_unique(energy: nat, a: Loudness, b: Loudness)
    requires
        is_level(energy, a),
        is_level(energy, b),
    ensures
        a == b,
{
    if let Loudness::Rms(p) = a {
        if let Loudness::Rms(q) = b {
            lemma_sqrt_unique(16 * energy, p as nat, q as nat);
        }
    }
}

/// Samples that are all zero have no energy, and only they.
pub proof fn lemma_sum_squares_zero(samples: Seq<i16>)
    ensures
        sum_squares(samples) == 0 <==> forall|i: int| 0 <= i < samples.len() ==> samples[i] == 0,
    decreases samples.len(),
{
    if samples.len() > 0 {
        let front = samples.drop_last();
        lemma_sum_squares_zero(front);
        let s = samples.last();
        assert(s * s == 0 <==> s == 0) by (nonlinear_arith);
        assert(s * s >= 0) by (nonlinear_arith);
        if sum_squares(samples) == 0 {
            assert forall|i: int| 0 <= i < samples.len() implies samples[i] == 0 by {
                if i < front.len() {
                    assert(front[i] == samples[i]);
                }
            }
        } else if forall|i: int| 0 <= i < samples.len() ==> samples[i] == 0 {
            assert forall|i: int| 0 <= i < front.len() implies front[i] == 0 by {
                assert(front[i] == samples[i]);
            }
        }
    }
}

/// A block's energy has a bound.
pub proof fn lemma_sum_squares_bound(samples: Seq<i16>)
    ensures
        sum_squares(samples) <= samples.len() * 0x4000_0000,
    decreases samples.len(),
{
    if samples.len() > 0 {
        lemma_sum_squares_bound(samples.drop_last());
        let s = samples.last();
        assert(0 <= s * s <= 0x4000_0000) by (nonlinear_arith)
            requires
                -0x8000 <= s <= 0x7fff,
        ;
    }
}

/// The sum of the squares of one block.
pub fn block_energy(samples: &[i16; NUM_SAMPLES]) -> (energy: u64)
    ensures
        energy == sum_squares(samples@),
        energy <= MAX_BLOCK_ENERGY,
{
    let mut energy: u64 = 0;
    let mut i: usize = 0;
    while i < NUM_SAMPLES
        invariant
            i <= NUM_SAMPLES,
            energy == sum_squares(samples@.take(i as int)),
            energy <= i * 0x4000_0000,
        decreases NUM_SAMPLES - i,
    {
        let s: i64 = samples[i] as i64;
        proof {
            assert(samples@.take(i + 1).drop_last() =~= samples@.take(i as int));
            assert(0 <= s * s <= 0x4000_0000) by (nonlinear_arith)
                requires
                    -0x8000 <= s <= 0x7fff,
            ;
        }
        energy = energy + (s * s) as u64;
        i = i + 1;
    }
    assert(samples@.take(NUM_SAMPLES as int) =~= samples@);
    energy
}

/// The square root of `v`, rounded down.
fn isqrt(v: u64) -> (r: u32)
    requires
        v < 0x4000_0000_0000_0000,
    ensures
        is_sqrt(v as nat, r as nat),
{
    let mut lo: u64 = 0;
    let mut hi: u64 = 0x8000_0000;
    assert(0x8000_0000u64 * 0x8000_0000u64 == 0x4000_0000_0000_0000u64) by (nonlinear_arith);
    while hi - lo > 1
        invariant
            lo < hi <= 0x8000_0000,
            lo * lo <= v < hi * hi,
        decreases hi - lo,
    {
        let mid: u64 = lo + (hi - lo) / 2;
        assert(mid * mid < 0x4000_0000_0000_0000) by (nonlinear_arith)
            requires
                mid < 0x8000_0000,
        ;
        if mid * mid <= v {
            lo = mid;
        } else {
            hi = mid;
        }
    }
    lo as u32
}

/// The loudness of a window whose squares add up to `energy`.
fn level(energy: u64) -> (l: Loudness)
    requires
        energy <= WINDOW_SIZE * MAX_BLOCK_ENERGY,
    ensures
        is_level(energy as nat, l),
{
    if energy == 0 {
        Loudness::Silence
    } else {
        let q = isqrt(16 * energy);
        assert(q > 0) by (nonlinear_arith)
            requires
                16 * energy < (q + 1) * (q + 1),
                energy > 0,
        ;
        Loudness::Rms(q)
    }
}

/// What a loudness window has taken in so far.
pub struct WindowState {
    /// The squares of the samples so far, added up.
    pub energy: nat,
    /// The number of blocks so far.
    pub blocks: nat,
}

impl WindowState {
    pub open spec fn wf(self) -> bool {
        self.blocks < WINDOW_SIZE && self.energy <= self.blocks * MAX_BLOCK_ENERGY
    }

    /// The energy of the window that `block` completes, if it completes one.
    pub open spec fn completed(self, block: Seq<i16>) -> Option<nat> {
        if self.blocks + 1 == WINDOW_SIZE {
            Some(self.energy + sum_squares(block))
        } else {
            None
        }
    }

    /// The state after `block`: a block that completes a window starts the
    /// next one from nothing.
    pub open spec fn after(self, block: Seq<i16>) -> WindowState {
        if self.blocks + 1 == WINDOW_SIZE {
            WindowState { energy: 0, blocks: 0 }
        } else {
            WindowState { energy: self.energy + sum_squares(block), blocks: self.blocks + 1 }
        }
    }
}

/// The state that the blocks `blocks`, in their order, make of `s`.
pub open spec fn fed(s: WindowState, blocks: Seq<Seq<i16>>) -> WindowState
    decreases blocks.len(),
{
    if blocks.len() == 0 {
        s
    } else {
        fed(s, blocks.drop_last()).after(blocks.last())
    }
}

/// Whether every sample of every block is zero.
pub open spec fn all_silent(blocks: Seq<Seq<i16>>) -> bool {
    forall|b: int, i: int|
        0 <= b < blocks.len() && 0 <= i < blocks[b].len() ==> (#[trigger] blocks[b][i]) == 0
}

/// Silence gives the floor and nothing else does: a window is silent
/// exactly if its squares add up to nothing.
pub proof fn lemma_floor_means_silence(energy: nat, level: Loudness)
    requires
        is_level(energy, level),
    ensures
        level == Loudness::Silence <==> energy == 0,
{
}

/// However many silent blocks a fresh window takes in, it gathers no
/// energy: every window that they complete is at the floor.
pub proof fn lemma_silent_blocks_have_no_energy(blocks: Seq<Seq<i16>>, last: Seq<i16>)
    requires
        all_silent(blocks.push(last)),
    ensures
        fed(WindowState { energy: 0, blocks: 0 }, blocks).energy == 0,
        fed(WindowState { energy: 0, blocks: 0 }, blocks).wf(),
        fed(WindowState { energy: 0, blocks: 0 }, blocks).completed(last) matches Some(energy)
            ==> energy == 0,
    decreases blocks.len(),
{
    let all = blocks.push(last);
    assert forall|i: int| 0 <= i < last.len() implies last[i] == 0 by {
        assert(all[blocks.len() as int][i] == 0);
    }
    lemma_sum_squares_zero(last);
    if blocks.len() > 0 {
        let front = blocks.drop_last();
        assert forall|b: int, i: int|
            0 <= b < front.push(blocks.last()).len() && 0 <= i < front.push(
                blocks.last(),
            )[b].len() implies (#[trigger] front.push(blocks.last())[b][i]) == 0 by {
            assert(front.push(blocks.last())[b] == all[b]);
        }
        lemma_silent_blocks_have_no_energy(front, blocks.last());
        assert forall|i: int| 0 <= i < blocks.last().len() implies blocks.last()[i] == 0 by {
            assert(all[blocks.len() - 1][i] == 0);
        }
        lemma_sum_squares_zero(blocks.last());
    }
}

/// Takes in the microphone's blocks and gives the loudness of every
/// `WINDOW_SIZE` of them.
pub struct LoudnessWindow {
    energy: u64,
    blocks: usize,
}

impl View for LoudnessWindow {
    type V = WindowState;

    closed spec fn view(&self) -> WindowState {
        WindowState { energy: self.energy as nat, blocks: self.blocks as nat }
    }
}

impl LoudnessWindow {
    /// Whether the window is in a state that its own methods lead to.
    pub open spec fn wf(&self) -> bool {
        self@.wf()
    }

    /// A window that has taken in nothing.
    pub fn new() -> (w: LoudnessWindow)
        ensures
            w@ == (WindowState { energy: 0, blocks: 0 }),
            w.wf(),
    {
        LoudnessWindow { energy: 0, blocks: 0 }
    }

    /// Takes in one block. The block that completes a window gives the
    /// window's loudness: silence if every sample of it was zero, else the
    /// root mean square of its samples.
    pub fn push(&mut self, samples: &[i16; NUM_SAMPLES]) -> (done: Option<Loudness>)
        requires
            old(self).wf(),
        ensures
            final(self).wf(),
            final(self)@ == old(self)@.after(samples@),
            match old(self)@.completed(samples@) {
                Some(energy) => done matches Some(l) && is_level(energy, l),
                None => done is None,
            },
    {
        let total = self.energy + block_energy(samples);
        if self.blocks + 1 == WINDOW_SIZE {
            self.energy = 0;
            self.blocks = 0;
            Some(level(total))
        } else {
            self.energy = total;
            self.blocks = self.blocks + 1;
            None
        }
    }
}

} // verus!

use vstd::prelude::*;

use crate::color::RGB8;
use crate::matrix::{row_base, NUM_LEDS};

verus! {

/// First strip position of the first zone.
pub const START0: usize = 0;

/// The first zone takes the seven rows at the top of the board.
pub const SIZE0: usize = 8 + 9 + 10 + 11 + 15 + 16 + 17;

/// First strip position of the second zone.
pub const START1: usize = SIZE0;

/// The second zone takes the next four rows.
pub const SIZE1: usize = 17 + 17 + 17 + 17;

/// First strip position of the third zone.
pub const START2: usize = START1 + SIZE1;

/// The third zone takes the four rows after those.
pub const SIZE2: usize = 17 + 17 + 17 + 17;

/// First strip position of the fourth zone.
pub const START3: usize = START2 + SIZE2;

/// The fourth zone takes the six rows at the bottom of the board.
pub const SIZE3: usize = 16 + 15 + 11 + 10 + 9 + 8;

/// One past the last strip position of the fourth zone.
pub const END3: usize = START3 + SIZE3;

/// Number of supply zones.
pub const NUM_ZONES: usize = 4;

/// Where each zone begins on the strip; the last entry is where the last
/// zone ends.
pub const ZONE_BOUNDS: [usize; 5] = [START0, START1, START2, START3, END3];

/// Current that a zone draws with every LED dark.
pub const ZONE_OVERHEAD: u32 = 78;

/// Fixed-point denominator of the scale factor.
pub const MUL: u32 = 1000;

/// First strip position of zone `z`.
pub open spec fn zone_start(z: int) -> int {
    ZONE_BOUNDS@[z] as int
}

/// One past the last strip position of zone `z`.
pub open spec fn zone_end(z: int) -> int {
    ZONE_BOUNDS@[z + 1] as int
}

/// Whether strip position `i` belongs to zone `z`.
pub open spec fn in_zone(z: int, i: int) -> bool {
    0 <= z < NUM_ZONES && zone_start(z) <= i < zone_end(z)
}

/// The zone of strip position `i`.
pub open spec fn zone_of(i: int) -> int {
    if i < zone_start(1) {
        0
    } else if i < zone_start(2) {
        1
    } else if i < zone_start(3) {
        2
    } else {
        3
    }
}

/// The zones lie end to end from the first LED to the last.
pub proof fn lemma_zone_bounds()
    ensures
        zone_start(0) == 0,
        zone_end(NUM_ZONES - 1) == NUM_LEDS,
        forall|z: int| 0 <= z < NUM_ZONES ==> zone_start(z) < #[trigger] zone_end(z),
        forall|z: int| 0 <= z < NUM_ZONES - 1 ==> #[trigger] zone_end(z) == zone_start(z + 1),
        forall|z: int| 0 <= z < NUM_ZONES ==> #[trigger] zone_end(z) - zone_start(z) <= 86,
{
}

/// The zones cover the strip exactly once: every LED lies in one zone and in
/// no other, and no zone reaches beyond the strip.
pub proof fn lemma_zones_partition()
    ensures
        forall|i: int| 0 <= i < NUM_LEDS ==> in_zone(#[trigger] zone_of(i), i),
        forall|z: int, i: int| #[trigger] in_zone(z, i) ==> 0 <= i < NUM_LEDS && z == zone_of(i),
{
    lemma_zone_bounds();
}

/// Every zone is made of whole rows of the board: the first of the seven
/// at the top, the next two of four each, the last of the six at the bottom.
pub proof fn lemma_zones_are_whole_rows()
    ensures
        zone_start(0) == row_base(0),
        zone_start(1) == row_base(7),
        zone_start(2) == row_base(11),
        zone_start(3) == row_base(15),
        zone_end(3) == row_base(21),
{
    reveal_with_fuel(row_base, 22);
}

/// Current that one LED draws for colour `c`: the channels weighted by what
/// each costs, in the unit of the zone budgets.
pub open spec fn led_power(c: RGB8) -> nat {
    ((122 * c.r + 121 * c.g + 121 * c.b) / 2550) as nat
}

/// Current that the LEDs `leds` draw together.
pub open spec fn leds_power(leds: Seq<RGB8>) -> nat
    decreases leds.len(),
{
    if leds.len() == 0 {
        0
    } else {
        leds_power(leds.drop_last()) + led_power(leds.last())
    }
}

/// Estimated current of zone `z` showing `frame`: what its LEDs draw, and
/// the fixed overhead once.
pub open spec fn zone_current(frame: Seq<RGB8>, z: int) -> nat {
    ZONE_OVERHEAD as nat + leds_power(frame.subrange(zone_start(z), zone_end(z)))
}

/// One LED draws at most 36 units.
pub proof fn lemma_led_power_bound(c: RGB8)
    ensures
        led_power(c) <= 36,
{
}

/// `n` LEDs draw at most `36 * n` units.
pub proof fn lemma_leds_power_bound(leds: Seq<RGB8>)
    ensures
        leds_power(leds) <= 36 * leds.len(),
    decreases leds.len(),
{
    if leds.len() > 0 {
        lemma_leds_power_bound(leds.drop_last());
    }
}

/// A frame in which no channel is brighter draws no more.
pub proof fn lemma_leds_power_monotonic(a: Seq<RGB8>, b: Seq<RGB8>)
    requires
        a.len() == b.len(),
        forall|i: int|
            0 <= i < a.len() ==> a[i].r <= b[i].r && a[i].g <= b[i].g && a[i].b <= b[i].b,
    ensures
        leds_power(a) <= leds_power(b),
    decreases a.len(),
{
    if a.len() > 0 {
        lemma_leds_power_monotonic(a.drop_last(), b.drop_last());
    }
}

fn rgb8_to_power(c: &RGB8) -> (p: u32)
    ensures
        p == led_power(*c),
{
    let tmp: u32 = 122 * c.r as u32 + 121 * c.g as u32 + 121 * c.b as u32;
    tmp / 2550
}

/// Current drawn by the LEDs at strip positions `start` up to `end`.
fn estimate_current(data: &[RGB8; NUM_LEDS], start: usize, end: usize) -> (sum: u32)
    requires
        start <= end <= NUM_LEDS,
    ensures
        sum == leds_power(data@.subrange(start as int, end as int)),
        sum <= 36 * (end - start),
{
    let mut sum: u32 = 0;
    let mut i: usize = start;
    while i < end
        invariant
            start <= i <= end <= NUM_LEDS,
            sum == leds_power(data@.subrange(start as int, i as int)),
            sum <= 36 * (i - start),
        decreases end - i,
    {
        proof {
            let next = data@.subrange(start as int, i + 1);
            assert(next.drop_last() =~= data@.subrange(start as int, i as int));
            assert(next.last() == data@[i as int]);
            lemma_led_power_bound(data@[i as int]);
        }
        sum = sum + rgb8_to_power(&data[i]);
        i = i + 1;
    }
    sum
}

/// Estimated current of every zone for the frame `data`.
pub fn estimate_current_all(data: &[RGB8; NUM_LEDS]) -> (out: [u32; NUM_ZONES])
    ensures
        forall|z: int| 0 <= z < NUM_ZONES ==> #[trigger] out@[z] == zone_current(data@, z),
{
    let mut out: [u32; NUM_ZONES] = [0;NUM_ZONES];
    let mut z: usize = 0;
    while z < NUM_ZONES
        invariant
            z <= NUM_ZONES,
            forall|k: int| 0 <= k < z ==> #[trigger] out@[k] == zone_current(data@, k),
        decreases NUM_ZONES - z,
    {
        proof {
            lemma_zone_bounds();
        }
        let start = ZONE_BOUNDS[z];
        let end = ZONE_BOUNDS[z + 1];
        out[z] = ZONE_OVERHEAD + estimate_current(data, start, end);
        z = z + 1;
    }
    out
}

/// The factor, in thousandths, that brings a zone drawing `current` down to
/// `limit`.
pub open spec fn scale_factor(limit: u32, current: nat) -> nat {
    limit as nat * MUL as nat / current
}

/// `c` with every channel multiplied by `f` thousandths, rounded down.
pub open spec fn scaled(c: RGB8, f: nat) -> RGB8 {
    RGB8 {
        r: (c.r as nat * f / MUL as nat) as u8,
        g: (c.g as nat * f / MUL as nat) as u8,
        b: (c.b as nat * f / MUL as nat) as u8,
    }
}

/// The factor that limiting applies to zone `z` of `frame`: none while the
/// zone draws no more than its limit.
pub open spec fn applied_factor(frame: Seq<RGB8>, limit: Seq<u32>, z: int) -> Option<u32> {
    if zone_current(frame, z) <= limit[z] {
        None
    } else {
        Some(scale_factor(limit[z], zone_current(frame, z)) as u32)
    }
}

/// What limiting makes of the LED at strip position `i` of `frame`.
pub open spec fn limited_led(frame: Seq<RGB8>, limit: Seq<u32>, i: int) -> RGB8 {
    match applied_factor(frame, limit, zone_of(i)) {
        None => frame[i],
        Some(f) => scaled(frame[i], f as nat),
    }
}

/// `frame` with every zone brought down to its limit.
pub open spec fn limited_frame(frame: Seq<RGB8>, limit: Seq<u32>) -> Seq<RGB8> {
    Seq::new(frame.len(), |i: int| limited_led(frame, limit, i))
}

/// No channel is brighter than before.
pub open spec fn no_brighter(a: RGB8, b: RGB8) -> bool {
    a.r <= b.r && a.g <= b.g && a.b <= b.b
}

proof fn lemma_scale_channel(x: nat, f: nat)
    by (nonlinear_arith)
    requires
        x <= 255,
        f <= 1000,
    ensures
        x * f <= 255000,
        x * f / 1000 <= x,
{
}

/// A factor of at most one thousand thousandths never brightens.
pub proof fn lemma_scaled_no_brighter(c: RGB8, f: nat)
    requires
        f <= MUL,
    ensures
        no_brighter(scaled(c, f), c),
{
    lemma_scale_channel(c.r as nat, f);
    lemma_scale_channel(c.g as nat, f);
    lemma_scale_channel(c.b as nat, f);
}

/// The factor of a zone over its limit is below one.
pub proof fn lemma_scale_factor_bound(limit: u32, current: nat)
    by (nonlinear_arith)
    requires
        limit < current,
    ensures
        scale_factor(limit, current) < MUL,
        scale_factor(limit, current) * current <= limit * MUL,
{
}

/// Limiting never raises a channel of any LED.
pub proof fn lemma_limited_no_brighter(frame: Seq<RGB8>, limit: Seq<u32>, i: int)
    requires
        frame.len() == NUM_LEDS,
        limit.len() == NUM_ZONES,
        0 <= i < NUM_LEDS,
    ensures
        no_brighter(limited_led(frame, limit, i), frame[i]),
{
    let z = zone_of(i);
    if zone_current(frame, z) > limit[z] {
        lemma_scale_factor_bound(limit[z], zone_current(frame, z));
        lemma_scaled_no_brighter(frame[i], scale_factor(limit[z], zone_current(frame, z)));
    }
}

/// Limiting never raises the estimated current of a zone.
pub proof fn lemma_limited_draws_no_more(frame: Seq<RGB8>, limit: Seq<u32>, z: int)
    requires
        frame.len() == NUM_LEDS,
        limit.len() == NUM_ZONES,
        0 <= z < NUM_ZONES,
    ensures
        zone_current(limited_frame(frame, limit), z) <= zone_current(frame, z),
{
    lemma_zone_bounds();
    let after = limited_frame(frame, limit).subrange(zone_start(z), zone_end(z));
    let before = frame.subrange(zone_start(z), zone_end(z));
    assert forall|i: int| 0 <= i < after.len() implies no_brighter(after[i], before[i]) by {
        lemma_limited_no_brighter(frame, limit, zone_start(z) + i);
    }
    lemma_leds_power_monotonic(after, before);
}

/// Scales the LEDs at strip positions `start` up to `end` by `f` thousandths.
fn scale_leds(data: &mut [RGB8; NUM_LEDS], start: usize, end: usize, f: u32)
    requires
        start <= end <= NUM_LEDS,
        f <= MUL,
    ensures
        forall|i: int| start <= i < end ==> final(data)@[i] == scaled(old(data)@[i], f as nat),
        forall|i: int| 0 <= i < start || end <= i < NUM_LEDS ==> final(data)@[i] == old(data)@[i],
{
    let ghost before = data@;
    let mut j: usize = start;
    while j < end
        invariant
            start <= j <= end <= NUM_LEDS,
            f <= MUL,
            forall|i: int| start <= i < j ==> data@[i] == scaled(before[i], f as nat),
            forall|i: int| 0 <= i < start || j <= i < NUM_LEDS ==> data@[i] == before[i],
        decreases end - j,
    {
        let v = data[j];
        proof {
            lemma_scale_channel(v.r as nat, f as nat);
            lemma_scale_channel(v.g as nat, f as nat);
            lemma_scale_channel(v.b as nat, f as nat);
        }
        data[j] = RGB8 {
            r: ((v.r as u32) * f / MUL) as u8,
            g: ((v.g as u32) * f / MUL) as u8,
            b: ((v.b as u32) * f / MUL) as u8,
        };
        j = j + 1;
    }
}

/// Brings every zone of `data` that draws more than its limit down to it:
/// each channel of each LED of such a zone is multiplied by the zone's limit
/// over its estimated current, in thousandths. Zones within their limit stay
/// as they are. Returns the factor applied to each zone.
pub fn limit_current(data: &mut [RGB8; NUM_LEDS], limit: &[u32; NUM_ZONES]) -> (ret: [Option<u32>;
    NUM_ZONES])
    ensures
        final(data)@ == limited_frame(old(data)@, limit@),
        forall|z: int|
            0 <= z < NUM_ZONES ==> #[trigger] ret@[z] == applied_factor(old(data)@, limit@, z),
        forall|i: int| 0 <= i < NUM_LEDS ==> no_brighter(#[trigger] final(data)@[i], old(data)@[i]),
        forall|z: int|
            0 <= z < NUM_ZONES ==> #[trigger] zone_current(final(data)@, z) <= zone_current(
                old(data)@,
                z,
            ),
{
    let ghost before = data@;
    let mut ret: [Option<u32>; NUM_ZONES] = [None;NUM_ZONES];
    let mut z: usize = 0;
    while z < NUM_ZONES
        invariant
            z <= NUM_ZONES,
            before.len() == NUM_LEDS,
            forall|i: int|
                0 <= i < ZONE_BOUNDS@[z as int] ==> data@[i] == limited_led(before, limit@, i),
            forall|i: int| ZONE_BOUNDS@[z as int] <= i < NUM_LEDS ==> data@[i] == before[i],
            forall|k: int| 0 <= k < z ==> #[trigger] ret@[k] == applied_factor(before, limit@, k),
            forall|k: int| z <= k < NUM_ZONES ==> #[trigger] ret@[k] == None::<u32>,
        decreases NUM_ZONES - z,
    {
        proof {
            lemma_zone_bounds();
            lemma_zones_partition();
        }
        let start = ZONE_BOUNDS[z];
        let end = ZONE_BOUNDS[z + 1];
        let current = ZONE_OVERHEAD + estimate_current(data, start, end);
        proof {
            assert(data@.subrange(start as int, end as int) =~= before.subrange(
                start as int,
                end as int,
            ));
            assert(current == zone_current(before, z as int));
            assert forall|i: int| start <= i < end implies zone_of(i) == z by {
                assert(in_zone(z as int, i));
            }
        }
        if current > limit[z] {
            proof {
                lemma_scale_factor_bound(limit[z as int], current as nat);
            }
            let f = limit[z] * MUL / current;
            scale_leds(data, start, end, f);
            ret[z] = Some(f);
        }
        z = z + 1;
    }
    proof {
        lemma_zone_bounds();
        assert(data@ =~= limited_frame(before, limit@));
        assert forall|i: int| 0 <= i < NUM_LEDS implies no_brighter(
            #[trigger] data@[i],
            before[i],
        ) by {
            lemma_limited_no_brighter(before, limit@, i);
        }
        assert forall|k: int| 0 <= k < NUM_ZONES implies #[trigger] zone_current(data@, k)
            <= zone_current(before, k) by {
            lemma_limited_draws_no_more(before, limit@, k);
        }
    }
    ret
}

/// Largest current that a zone's supply can deliver for a moment.
pub const CURRENT_MAX: u32 = 1100;

/// Current that a zone's supply can deliver for good.
pub const CURRENT_RATED: u32 = 500;

/// Number of committed averages that the limiter looks back on.
pub const NUM_MEASUREMENTS: usize = 60;

/// What the history adds up to when a zone draws exactly its rated current.
pub const BUDGET: u64 = 30000;

/// The sum of the averages in `history`.
pub open spec fn energy(history: Seq<u32>) -> nat
    decreases history.len(),
{
    if history.len() == 0 {
        0
    } else {
        energy(history.drop_last()) + history.last() as nat
    }
}

/// The ceiling that follows `prev` once the history adds up to `energy`.
/// Within budget the ceiling stays. Beyond it the ceiling falls in a straight
/// line from the maximum, at the budget, to the rated current, at twice the
/// budget, and stays there.
pub open spec fn next_ceiling(prev: u32, energy: nat) -> u32 {
    if energy <= BUDGET {
        prev
    } else if energy >= 2 * BUDGET {
        CURRENT_RATED
    } else {
        (CURRENT_RATED + (CURRENT_MAX - CURRENT_RATED) * (2 * BUDGET - energy) / (
        BUDGET as int)) as u32
    }
}

/// The state of one zone's limiter.
pub struct LimitState {
    /// The last committed averages, in the order of their slots.
    pub history: Seq<u32>,
    /// One past the slot that was written last.
    pub cursor: nat,
    /// Sum of the measurements since the last commit.
    pub sum: nat,
    /// Number of the measurements since the last commit.
    pub count: nat,
    /// The current that the zone may draw at present.
    pub ceiling: u32,
}

impl LimitState {
    pub open spec fn wf(self) -> bool {
        &&& self.history.len() == NUM_MEASUREMENTS
        &&& self.cursor <= NUM_MEASUREMENTS
        &&& self.sum <= self.count * u32::MAX
        &&& CURRENT_RATED <= self.ceiling <= CURRENT_MAX
    }

    /// A limiter that has seen nothing yet: the ceiling is at the maximum.
    pub open spec fn initial() -> LimitState {
        LimitState {
            history: Seq::new(NUM_MEASUREMENTS as nat, |i: int| 0u32),
            cursor: 0,
            sum: 0,
            count: 0,
            ceiling: CURRENT_MAX,
        }
    }

    /// The state after one more measurement.
    pub open spec fn measured(self, current: u32) -> LimitState {
        LimitState { sum: self.sum + current as nat, count: self.count + 1, ..self }
    }

    /// The mean of the measurements since the last commit; zero if there was
    /// none.
    pub open spec fn average(self) -> nat {
        if self.count == 0 {
            0
        } else {
            self.sum / self.count
        }
    }

    /// The state after a commit: the average takes the oldest slot of the
    /// history, the window starts anew, and the ceiling follows the history.
    pub open spec fn committed(self) -> LimitState {
        let slot = self.cursor % (NUM_MEASUREMENTS as nat);
        let history = self.history.update(slot as int, self.average() as u32);
        LimitState {
            history,
            cursor: slot + 1,
            sum: 0,
            count: 0,
            ceiling: next_ceiling(self.ceiling, energy(history)),
        }
    }
}

/// One call on a limiter.
pub enum LimitOp {
    Measure(u32),
    Commit,
}

/// The state that the calls `ops`, in their order, make of `s`.
pub open spec fn run(s: LimitState, ops: Seq<LimitOp>) -> LimitState
    decreases ops.len(),
{
    if ops.len() == 0 {
        s
    } else {
        let before = run(s, ops.drop_last());
        match ops.last() {
            LimitOp::Measure(current) => before.measured(current),
            LimitOp::Commit => before.committed(),
        }
    }
}

/// The ceiling never leaves the span from rated to maximum current.
pub proof fn lemma_next_ceiling_in_range(prev: u32, energy: nat)
    requires
        CURRENT_RATED <= prev <= CURRENT_MAX,
    ensures
        CURRENT_RATED <= next_ceiling(prev, energy) <= CURRENT_MAX,
        energy <= BUDGET ==> next_ceiling(prev, energy) == prev,
        energy >= 2 * BUDGET ==> next_ceiling(prev, energy) == CURRENT_RATED,
{
}

/// Beyond the budget, a history that adds up to more gives no higher a
/// ceiling.
pub proof fn lemma_next_ceiling_falls(prev: u32, low: nat, high: nat)
    requires
        BUDGET < low <= high,
    ensures
        next_ceiling(prev, high) <= next_ceiling(prev, low),
{
}

proof fn lemma_average_fits(sum: nat, count: nat)
    by (nonlinear_arith)
    requires
        count > 0,
        sum <= count * u32::MAX,
    ensures
        sum / count <= u32::MAX,
{
}

/// A measurement and a commit each keep a limiter well formed.
pub proof fn lemma_steps_keep_wf(s: LimitState, current: u32)
    requires
        s.wf(),
    ensures
        s.measured(current).wf(),
        s.committed().wf(),
        LimitState::initial().wf(),
{
    assert(s.sum + current <= (s.count + 1) * u32::MAX) by (nonlinear_arith)
        requires
            s.sum <= s.count * u32::MAX,
            current <= u32::MAX,
    ;
    let slot = s.cursor % (NUM_MEASUREMENTS as nat);
    let history = s.history.update(slot as int, s.average() as u32);
    lemma_next_ceiling_in_range(s.ceiling, energy(history));
}

/// Whatever is measured and whenever it is committed, the ceiling stays
/// between the rated and the maximum current.
pub proof fn lemma_ceiling_always_in_range(s: LimitState, ops: Seq<LimitOp>)
    requires
        s.wf(),
    ensures
        run(s, ops).wf(),
        CURRENT_RATED <= run(s, ops).ceiling <= CURRENT_MAX,
    decreases ops.len(),
{
    if ops.len() > 0 {
        lemma_ceiling_always_in_range(s, ops.drop_last());
        let before = run(s, ops.drop_last());
        match ops.last() {
            LimitOp::Measure(current) => lemma_steps_keep_wf(before, current),
            LimitOp::Commit => lemma_steps_keep_wf(before, 0),
        }
    }
}

/// Replacing one entry changes the energy by the difference.
pub proof fn lemma_energy_update(history: Seq<u32>, k: int, v: u32)
    requires
        0 <= k < history.len(),
    ensures
        energy(history.update(k, v)) == energy(history) - history[k] + v,
    decreases history.len(),
{
    let updated = history.update(k, v);
    if k == history.len() - 1 {
        assert(updated.drop_last() =~= history.drop_last());
    } else {
        assert(updated.drop_last() =~= history.drop_last().update(k, v));
        lemma_energy_update(history.drop_last(), k, v);
    }
}

/// A history adds up to at least as many times `floor` as it has entries
/// that are all at least `floor`.
pub proof fn lemma_energy_at_least(history: Seq<u32>, floor: nat)
    requires
        forall|i: int| 0 <= i < history.len() ==> history[i] >= floor,
    ensures
        energy(history) >= history.len() * floor,
    decreases history.len(),
{
    if history.len() > 0 {
        lemma_energy_at_least(history.drop_last(), floor);
        assert(history.len() * floor == (history.len() - 1) * floor + floor)
            by (nonlinear_arith);
    }
}

/// Sustained overload brings the ceiling down to the rated current: a
/// commit that leaves no average below twice the rated current in the
/// history sets the ceiling there.
pub proof fn lemma_sustained_overload_reaches_rated(s: LimitState)
    requires
        s.wf(),
        forall|i: int|
            0 <= i < NUM_MEASUREMENTS ==> s.committed().history[i] >= 2 * CURRENT_RATED,
    ensures
        s.committed().ceiling == CURRENT_RATED,
{
    lemma_energy_at_least(s.committed().history, 2 * CURRENT_RATED as nat);
}

/// `n` commits in a row.
pub open spec fn commits(n: nat) -> Seq<LimitOp> {
    Seq::new(n, |i: int| LimitOp::Commit)
}

/// Commits with nothing measured in between do not move the ceiling while
/// the history is within budget: each of them only replaces an average by
/// zero.
pub proof fn lemma_idle_commits_keep_ceiling(s: LimitState, n: nat)
    requires
        s.wf(),
        s.count == 0,
        energy(s.history) <= BUDGET,
    ensures
        run(s, commits(n)).ceiling == s.ceiling,
        run(s, commits(n)).count == 0,
        run(s, commits(n)).wf(),
        energy(run(s, commits(n)).history) <= energy(s.history),
    decreases n,
{
    if n > 0 {
        let ops = commits(n);
        assert(ops.drop_last() =~= commits((n - 1) as nat));
        lemma_idle_commits_keep_ceiling(s, (n - 1) as nat);
        let before = run(s, commits((n - 1) as nat));
        let slot = before.cursor % (NUM_MEASUREMENTS as nat);
        lemma_energy_update(before.history, slot as int, 0);
        lemma_steps_keep_wf(before, 0);
    }
}

/// The adaptive current ceiling of one zone. Every tick adds a measurement;
/// every commit averages what was added, files the average in a ring of the
/// last `NUM_MEASUREMENTS` and lowers the ceiling where they add up to more
/// than the budget.
#[derive(Copy, Clone)]
pub struct DynamicLimit {
    measurements: [u32; NUM_MEASUREMENTS],
    i: usize,
    acc: u64,
    acc_count: u32,
    limit: u32,
}

impl View for DynamicLimit {
    type V = LimitState;

    closed spec fn view(&self) -> LimitState {
        LimitState {
            history: self.measurements@,
            cursor: self.i as nat,
            sum: self.acc as nat,
            count: self.acc_count as nat,
            ceiling: self.limit,
        }
    }
}

impl Default for DynamicLimit {
    fn default() -> (d: DynamicLimit)
        ensures
            d@ == LimitState::initial(),
            d.wf(),
    {
        let d = DynamicLimit {
            measurements: [0;NUM_MEASUREMENTS],
            i: 0,
            limit: CURRENT_MAX,
            acc: 0,
            acc_count: 0,
        };
        assert(d@.history =~= LimitState::initial().history);
        d
    }
}

/// Adds up `history`.
fn total(history: &[u32; NUM_MEASUREMENTS]) -> (sum: u64)
    ensures
        sum == energy(history@),
{
    let mut sum: u64 = 0;
    let mut k: usize = 0;
    while k < NUM_MEASUREMENTS
        invariant
            k <= NUM_MEASUREMENTS,
            sum == energy(history@.take(k as int)),
            sum <= k * u32::MAX,
        decreases NUM_MEASUREMENTS - k,
    {
        proof {
            let next = history@.take(k + 1);
            assert(next.drop_last() =~= history@.take(k as int));
        }
        sum = sum + history[k] as u64;
        k = k + 1;
    }
    assert(history@.take(NUM_MEASUREMENTS as int) =~= history@);
    sum
}

impl DynamicLimit {
    /// Whether the limiter is in a state that its own methods lead to.
    pub open spec fn wf(&self) -> bool {
        self@.wf()
    }

    /// Closes the averaging window: files the mean of what was measured
    /// since the last commit (zero if nothing was) in place of the oldest
    /// average, and sets the ceiling by what the history now adds up to.
    pub fn commit(&mut self)
        requires
            old(self).wf(),
        ensures
            final(self)@ == old(self)@.committed(),
            final(self).wf(),
    {
        proof {
            lemma_steps_keep_wf(self@, 0);
        }
        let current: u32 = if self.acc_count != 0 {
            proof {
                lemma_average_fits(self.acc as nat, self.acc_count as nat);
            }
            (self.acc / self.acc_count as u64) as u32
        } else {
            0
        };
        self.acc = 0;
        self.acc_count = 0;

        if self.i >= NUM_MEASUREMENTS {
            self.i %= NUM_MEASUREMENTS;
        }
        self.measurements[self.i] = current;
        self.i += 1;

        let energy = total(&self.measurements);
        if energy > BUDGET {
            if energy >= 2 * BUDGET {
                self.limit = CURRENT_RATED;
            } else {
                let headroom: u64 = (CURRENT_MAX - CURRENT_RATED) as u64 * (2 * BUDGET - energy)
                    / BUDGET;
                self.limit = CURRENT_RATED + headroom as u32;
            }
        }
    }

    /// Takes the zone's estimated current of this tick into the running
    /// window. The ceiling stays as it is.
    pub fn add_measurement(&mut self, current: u32)
        requires
            old(self).wf(),
            old(self)@.count < u32::MAX,
        ensures
            final(self)@ == old(self)@.measured(current),
            final(self).wf(),
    {
        proof {
            lemma_steps_keep_wf(self@, current);
            assert(self.acc + current <= u64::MAX) by (nonlinear_arith)
                requires
                    self.acc <= self.acc_count * u32::MAX,
                    self.acc_count <= u32::MAX,
                    current <= u32::MAX,
            ;
        }
        self.acc += current as u64;
        self.acc_count += 1;
    }

    /// The current that the zone may draw at present.
    pub fn get_limit(&self) -> (limit: u32)
        ensures
            limit == self@.ceiling,
    {
        self.limit
    }
}

} // verus!

use vstd::prelude::*;

use crate::app::hexlife2::{
    cell_at, generation, interpolate, lemma_scan_reaches_each_cell_once, lerp, next_generation,
    pattern, scan_index, seed, seeded, CENTRE, HUE_STEP, LERP_TIME, NUM_PATHS,
};
use crate::bitzet::{Bitzet, HALF, SIDE};
use crate::color::{wheel_color, Rainbow, RGB8};
use crate::math::Vec2;
use crate::matrix::{led_index, lemma_led_index_unique, set_matrix, NUM_LEDS};

verus! {

/// Number of ticks for which a generation stands still once it has faded in.
pub const PAUSE_TIME: i32 = 300;

/// Number of words that hold one bit per LED.
pub const KEEP_WORDS: usize = 10;

/// Whether the bit of LED `led` is set in `words`.
pub open spec fn marked(words: Seq<u32>, led: int) -> bool {
    words[led / 32] & (1u32 << ((led % 32) as u32)) != 0
}

/// `words` with the bit of LED `led` set.
pub open spec fn with_mark(words: Seq<u32>, led: int) -> Seq<u32> {
    words.update(led / 32, words[led / 32] | (1u32 << ((led % 32) as u32)))
}

/// Setting the bit of one LED marks it and no other.
pub proof fn lemma_with_mark(words: Seq<u32>, led: int, other: int)
    requires
        words.len() == KEEP_WORDS,
        0 <= led < KEEP_WORDS * 32,
        0 <= other < KEEP_WORDS * 32,
    ensures
        marked(with_mark(words, led), other) == (other == led || marked(words, other)),
{
    let w = words[led / 32];
    let k = (led % 32) as u32;
    let j = (other % 32) as u32;
    if other / 32 == led / 32 {
        assert(((w | (1u32 << k)) & (1u32 << j) != 0) == (j == k || w & (1u32 << j) != 0))
            by (bit_vector)
            requires
                k < 32,
                j < 32,
        ;
    }
}

/// Calls `bitset_core::BitSet::bit_set` on the words as a slice. For a slice
/// of 32-bit words that method or-s bit `bit % 32` into word `bit / 32` and
/// touches no other word; it indexes the slice, so the bit has to lie
/// within it.
#[verifier::external_body]
fn bit_set(words: &mut [u32; KEEP_WORDS], bit: usize)
    requires
        bit < KEEP_WORDS * 32,
    ensures
        final(words)@ == with_mark(old(words)@, bit as int),
{
    bitset_core::BitSet::bit_set(&mut words[..], bit);
}

/// The colours that the LEDs fade to, the LEDs that live cells stand on,
/// and the wheel position of the next live cell's colour.
pub struct Painting {
    pub next: Seq<RGB8>,
    pub keep_on: Seq<u32>,
    pub pos: u8,
}

/// `p` once the live cell `c` is painted: it takes the next colour of the
/// wheel, and if an LED stands on it, that LED fades to the colour and is
/// marked.
pub open spec fn painted_cell(p: Painting, c: (int, int)) -> Painting {
    let pos = ((p.pos + HUE_STEP) % 256) as u8;
    match led_index(c.0 + CENTRE, c.1 + CENTRE) {
        Some(a) => Painting {
            next: p.next.update(a as int, wheel_color(p.pos)),
            keep_on: with_mark(p.keep_on, a as int),
            pos,
        },
        None => Painting { pos, ..p },
    }
}

/// `p` once the live cells among the first `k` of the scan are painted.
pub open spec fn painted(cells: Set<(int, int)>, p: Painting, k: nat) -> Painting
    decreases k,
{
    if k == 0 {
        p
    } else {
        let q = painted(cells, p, (k - 1) as nat);
        let c = cell_at(k - 1);
        if cells.contains(c) {
            painted_cell(q, c)
        } else {
            q
        }
    }
}

/// The colour `f` parts in `LERP_TIME` of the way from `a` to `b`, channel
/// by channel.
pub open spec fn blend(a: RGB8, b: RGB8, f: int) -> RGB8 {
    RGB8 { r: lerp(a.r, b.r, f), g: lerp(a.g, b.g, f), b: lerp(a.b, b.b, f) }
}

/// The state of the automaton.
pub struct LifeState {
    /// The live cells.
    pub cells: Set<(int, int)>,
    /// What each LED fades from.
    pub last: Seq<RGB8>,
    /// What each LED fades to.
    pub next: Seq<RGB8>,
    /// One bit per LED: whether a live cell stands on it.
    pub keep_on: Seq<u32>,
    /// The wheel position of the next live cell's colour.
    pub pos: u8,
    /// Ticks since the generation came up.
    pub phase: int,
    /// Ticks since power-up; the count wraps round.
    pub ticks: usize,
}

impl LifeState {
    pub open spec fn wf(self) -> bool {
        &&& self.last.len() == NUM_LEDS
        &&& self.next.len() == NUM_LEDS
        &&& self.keep_on.len() == KEEP_WORDS
        &&& 0 <= self.phase <= LERP_TIME + PAUSE_TIME
    }

    /// Whether the next tick brings up a new generation.
    pub open spec fn due(self) -> bool {
        self.phase >= LERP_TIME + PAUSE_TIME
    }

    /// The painting of the new generation, begun on a dark frame with no
    /// LED marked.
    pub open spec fn repainted(self) -> Painting {
        painted(
            next_generation(self.cells),
            Painting {
                next: Seq::new(NUM_LEDS as nat, |a: int| RGB8 { r: 0, g: 0, b: 0 }),
                keep_on: Seq::new(KEEP_WORDS as nat, |w: int| 0u32),
                pos: self.pos,
            },
            (SIDE * SIDE) as nat,
        )
    }

    /// The state after one tick.
    pub open spec fn after(self) -> LifeState {
        let ticks = if self.ticks == usize::MAX {
            0usize
        } else {
            (self.ticks + 1) as usize
        };
        if self.due() {
            let p = self.repainted();
            LifeState {
                cells: next_generation(self.cells),
                last: self.next,
                next: p.next,
                keep_on: p.keep_on,
                pos: p.pos,
                phase: 1,
                ticks,
            }
        } else {
            LifeState { phase: self.phase + 1, ticks, ..self }
        }
    }

    /// The frame after one tick. A new generation shows what the LEDs fade
    /// from; for `LERP_TIME` ticks each LED then moves towards what it fades
    /// to; after that the frame stays.
    pub open spec fn shown(self, frame: Seq<RGB8>) -> Seq<RGB8> {
        if self.due() {
            self.next
        } else if self.phase <= LERP_TIME {
            Seq::new(NUM_LEDS as nat, |a: int| blend(self.last[a], self.next[a], self.phase))
        } else {
            frame
        }
    }
}

/// Painting keeps one colour per LED and one bit per LED.
pub proof fn lemma_painted_len(cells: Set<(int, int)>, p: Painting, k: nat)
    requires
        p.next.len() == NUM_LEDS,
        p.keep_on.len() == KEEP_WORDS,
    ensures
        painted(cells, p, k).next.len() == NUM_LEDS,
        painted(cells, p, k).keep_on.len() == KEEP_WORDS,
    decreases k,
{
    if k > 0 {
        lemma_painted_len(cells, p, (k - 1) as nat);
    }
}

/// What painting makes of one LED: it is marked once the scan has passed a
/// live cell on it, and until then keeps its colour and its mark.
proof fn lemma_painted_led(cells: Set<(int, int)>, p: Painting, k: nat, c: (int, int), a: usize)
    requires
        p.next.len() == NUM_LEDS,
        p.keep_on.len() == KEEP_WORDS,
        k <= SIDE * SIDE,
        led_index(c.0 + CENTRE, c.1 + CENTRE) == Some(a),
    ensures
        marked(painted(cells, p, k).keep_on, a as int) == (marked(p.keep_on, a as int) || (
        cells.contains(c) && scan_index(c) < k)),
        !(cells.contains(c) && scan_index(c) < k) ==> painted(cells, p, k).next[a as int]
            == p.next[a as int],
    decreases k,
{
    if k > 0 {
        lemma_painted_led(cells, p, (k - 1) as nat, c, a);
        lemma_painted_len(cells, p, (k - 1) as nat);
        let q = painted(cells, p, (k - 1) as nat);
        let d = cell_at(k - 1);
        lemma_scan_reaches_each_cell_once(c, k - 1);
        if cells.contains(d) {
            if let Some(b) = led_index(d.0 + CENTRE, d.1 + CENTRE) {
                lemma_with_mark(q.keep_on, b as int, a as int);
                if b == a {
                    lemma_led_index_unique(
                        d.0 + CENTRE,
                        d.1 + CENTRE,
                        c.0 + CENTRE,
                        c.1 + CENTRE,
                    );
                }
            }
        }
    }
}

/// When a generation comes up, exactly the LEDs under its live cells are
/// marked, and every other LED goes for dark.
pub proof fn lemma_repainted_leds(s: LifeState, c: (int, int), a: usize)
    requires
        s.wf(),
        led_index(c.0 + CENTRE, c.1 + CENTRE) == Some(a),
    ensures
        marked(s.repainted().keep_on, a as int) == next_generation(s.cells).contains(c),
        !next_generation(s.cells).contains(c) ==> s.repainted().next[a as int] == (RGB8 {
            r: 0,
            g: 0,
            b: 0,
        }),
{
    let start = Painting {
        next: Seq::new(NUM_LEDS as nat, |a: int| RGB8 { r: 0, g: 0, b: 0 }),
        keep_on: Seq::new(KEEP_WORDS as nat, |w: int| 0u32),
        pos: s.pos,
    };
    lemma_painted_led(next_generation(s.cells), start, (SIDE * SIDE) as nat, c, a);
    lemma_scan_reaches_each_cell_once(c, 0);
    let k = ((a as int) % 32) as u32;
    assert(0u32 & (1u32 << k) == 0) by (bit_vector);
}

/// The cellular automaton on the hexagonal grid, drawn in the colours of
/// the wheel.
pub struct Hexlife {
    black: Bitzet,
    i: usize,
    keep_on: [u32; KEEP_WORDS],
    rainbow: Rainbow,
    last: [RGB8; NUM_LEDS],
    next: [RGB8; NUM_LEDS],
    f: i32,
}

impl View for Hexlife {
    type V = LifeState;

    closed spec fn view(&self) -> LifeState {
        LifeState {
            cells: self.black@,
            last: self.last@,
            next: self.next@,
            keep_on: self.keep_on@,
            pos: self.rainbow.pos(),
            phase: self.f as int,
            ticks: self.i,
        }
    }
}

/// Paints the live cells of `black`, in the order of the scan.
fn paint(
    black: &Bitzet,
    next: &mut [RGB8; NUM_LEDS],
    keep_on: &mut [u32; KEEP_WORDS],
    rainbow: &mut Rainbow,
)
    requires
        old(rainbow).stride() == HUE_STEP,
    ensures
        final(rainbow).stride() == HUE_STEP,
        (Painting { next: final(next)@, keep_on: final(keep_on)@, pos: final(rainbow).pos() })
            == painted(
            black@,
            Painting { next: old(next)@, keep_on: old(keep_on)@, pos: old(rainbow).pos() },
            (SIDE * SIDE) as nat,
        ),
{
    let ghost start = Painting { next: next@, keep_on: keep_on@, pos: rainbow.pos() };
    let mut y: i32 = -HALF;
    while y < HALF
        invariant
            -HALF <= y <= HALF,
            rainbow.stride() == HUE_STEP,
            (Painting { next: next@, keep_on: keep_on@, pos: rainbow.pos() }) == painted(
                black@,
                start,
                ((y + HALF) * SIDE) as nat,
            ),
        decreases HALF - y,
    {
        let mut x: i32 = -HALF;
        while x < HALF
            invariant
                -HALF <= y < HALF,
                -HALF <= x <= HALF,
                rainbow.stride() == HUE_STEP,
                (Painting { next: next@, keep_on: keep_on@, pos: rainbow.pos() }) == painted(
                    black@,
                    start,
                    ((y + HALF) * SIDE + (x + HALF)) as nat,
                ),
            decreases HALF - x,
        {
            let v = Vec2::new(x, y);
            let ghost k = (y + HALF) * SIDE + (x + HALF);
            let ghost q = Painting { next: next@, keep_on: keep_on@, pos: rainbow.pos() };
            proof {
                assert(cell_at(k) == v.pos());
            }
            if black.contains(&v) {
                let color = match rainbow.next() {
                    Some(c) => c,
                    None => RGB8 { r: 0, g: 0, b: 0 },
                };
                if x >= -CENTRE && y >= -CENTRE {
                    match set_matrix((x + CENTRE) as usize, (y + CENTRE) as usize, color, next) {
                        Ok(addr) => {
                            bit_set(keep_on, addr as usize);
                        },
                        Err(_) => {},
                    }
                }
                proof {
                    assert((Painting { next: next@, keep_on: keep_on@, pos: rainbow.pos() })
                        == painted_cell(q, v.pos()));
                }
            }
            x = x + 1;
        }
        y = y + 1;
    }
}

impl Hexlife {
    /// Whether the automaton is in a state that its own methods lead to.
    pub closed spec fn wf(&self) -> bool {
        self@.wf() && self.rainbow.stride() == HUE_STEP
    }

    /// The automaton before its first tick: the first generation is laid
    /// out and every LED is dark.
    pub fn new() -> (h: Hexlife)
        ensures
            h.wf(),
            h@ == (LifeState {
                cells: seeded(pattern(), NUM_PATHS as nat),
                last: Seq::new(NUM_LEDS as nat, |a: int| RGB8 { r: 0, g: 0, b: 0 }),
                next: Seq::new(NUM_LEDS as nat, |a: int| RGB8 { r: 0, g: 0, b: 0 }),
                keep_on: Seq::new(KEEP_WORDS as nat, |w: int| 0u32),
                pos: 0,
                phase: LERP_TIME as int,
                ticks: 0,
            }),
    {
        let h = Hexlife {
            black: seed(),
            i: 0,
            keep_on: [0u32;KEEP_WORDS],
            rainbow: Rainbow::step(HUE_STEP),
            next: [RGB8 { r: 0, g: 0, b: 0 };NUM_LEDS],
            last: [RGB8 { r: 0, g: 0, b: 0 };NUM_LEDS],
            f: LERP_TIME,
        };
        assert(h@.last =~= Seq::new(NUM_LEDS as nat, |a: int| RGB8 { r: 0, g: 0, b: 0 }));
        assert(h@.next =~= Seq::new(NUM_LEDS as nat, |a: int| RGB8 { r: 0, g: 0, b: 0 }));
        assert(h@.keep_on =~= Seq::new(KEEP_WORDS as nat, |w: int| 0u32));
        h
    }

    /// Whether a live cell of the present generation stands on LED `led`.
    pub fn kept_on(&self, led: usize) -> (kept: bool)
        requires
            led < NUM_LEDS,
        ensures
            kept == marked(self@.keep_on, led as int),
    {
        self.keep_on[led / 32] & (1u32 << ((led % 32) as u32)) != 0
    }

    /// One tick: moves the automaton on and draws it into `led_data`.
    pub fn tick(&mut self, led_data: &mut [RGB8; NUM_LEDS])
        requires
            old(self).wf(),
        ensures
            final(self).wf(),
            final(self)@ == old(self)@.after(),
            final(led_data)@ == old(self)@.shown(old(led_data)@),
    {
        if self.f >= LERP_TIME + PAUSE_TIME {
            let black_new = generation(&self.black);
            self.black = black_new;
            self.last = self.next;
            self.next = [RGB8 { r: 0, g: 0, b: 0 };NUM_LEDS];
            self.keep_on = [0u32;KEEP_WORDS];
            proof {
                assert(self.next@ =~= Seq::new(NUM_LEDS as nat, |a: int| RGB8 { r: 0, g: 0, b: 0 }));
                assert(self.keep_on@ =~= Seq::new(KEEP_WORDS as nat, |w: int| 0u32));
                lemma_painted_len(
                    self.black@,
                    Painting { next: self.next@, keep_on: self.keep_on@, pos: self.rainbow.pos() },
                    (SIDE * SIDE) as nat,
                );
            }
            paint(&self.black, &mut self.next, &mut self.keep_on, &mut self.rainbow);
            self.f = 0;
            *led_data = self.last;
        } else if self.f <= LERP_TIME {
            let mut a: usize = 0;
            while a < NUM_LEDS
                invariant
                    a <= NUM_LEDS,
                    0 <= self.f <= LERP_TIME,
                    forall|j: int|
                        0 <= j < a ==> #[trigger] led_data@[j] == blend(
                            self.last@[j],
                            self.next@[j],
                            self.f as int,
                        ),
                decreases NUM_LEDS - a,
            {
                let from = self.last[a];
                let to = self.next[a];
                led_data[a] = RGB8 {
                    r: interpolate(from.r, to.r, self.f),
                    g: interpolate(from.g, to.g, self.f),
                    b: interpolate(from.b, to.b, self.f),
                };
                a = a + 1;
            }
            assert(led_data@ =~= old(self)@.shown(old(led_data)@));
        }
        self.i = self.i.wrapping_add(1);
        self.f = self.f + 1;
    }
}

} // verus!

use vstd::prelude::*;

use crate::bitzet::{in_region, Bitzet, HALF, SIDE};
use crate::color::{hv_color, hv_to_rgb, RGB8};
use crate::math::Vec2;
use crate::matrix::{adjacent, led_index, lemma_led_index_unique, neighbours, NUM_LEDS};

pub use crate::color::HV8;
pub use crate::matrix::{led_addr, set_matrix_hv};

verus! {

/// Cells are born only where both coordinates are nearer to the origin than
/// this.
pub const BIRTH_RADIUS: i32 = 15;

/// One if the cell `c` is among `cells`, else zero.
pub open spec fn one_if_live(cells: Set<(int, int)>, c: (int, int)) -> nat {
    if cells.contains(c) {
        1
    } else {
        0
    }
}

/// How many of the first `k` neighbours of the cell `c` are among `cells`.
pub open spec fn live_among(cells: Set<(int, int)>, c: (int, int), k: nat) -> nat
    decreases k,
{
    if k == 0 {
        0
    } else {
        live_among(cells, c, (k - 1) as nat) + one_if_live(cells, neighbours(c.0, c.1)[k - 1])
    }
}

/// How many of the six neighbours of the cell `c` are among `cells`.
pub open spec fn live_neighbours(cells: Set<(int, int)>, c: (int, int)) -> nat {
    live_among(cells, c, 6)
}

/// Whether the cell `c` is live in the generation that follows `cells`. A
/// live cell stays so with one or two live neighbours. A dead cell comes to
/// life with exactly two, if it lies within the birth radius.
pub open spec fn alive_next(cells: Set<(int, int)>, c: (int, int)) -> bool {
    let n = live_neighbours(cells, c);
    if cells.contains(c) {
        n == 1 || n == 2
    } else {
        n == 2 && -BIRTH_RADIUS < c.0 < BIRTH_RADIUS && -BIRTH_RADIUS < c.1 < BIRTH_RADIUS
    }
}

/// The generation that follows `cells`.
pub open spec fn next_generation(cells: Set<(int, int)>) -> Set<(int, int)> {
    Set::new(|c: (int, int)| alive_next(cells, c))
}

/// A generation never reaches beyond the region that holds its parents.
pub proof fn lemma_next_generation_in_region(cells: Set<(int, int)>)
    requires
        forall|c: (int, int)| cells.contains(c) ==> in_region(c),
    ensures
        forall|c: (int, int)| next_generation(cells).contains(c) ==> in_region(c),
{
}

/// A lone cell dies, and nothing is born of nothing.
pub proof fn lemma_empty_stays_empty()
    ensures
        next_generation(Set::<(int, int)>::empty()) == Set::<(int, int)>::empty(),
{
    let none = Set::<(int, int)>::empty();
    assert forall|c: (int, int)| !alive_next(none, c) by {
        reveal_with_fuel(live_among, 7);
    }
    assert(next_generation(none) =~= none);
}

/// Counts the live neighbours of `v`.
pub fn count_neighbours(black: &Bitzet, v: Vec2) -> (n: usize)
    requires
        i32::MIN < v.x < i32::MAX,
        i32::MIN < v.y < i32::MAX,
    ensures
        n == live_neighbours(black@, v.pos()),
{
    let around = adjacent(v);
    let mut n: usize = 0;
    let mut k: usize = 0;
    while k < 6
        invariant
            k <= 6,
            n == live_among(black@, v.pos(), k as nat),
            n <= k,
            forall|i: int|
                0 <= i < 6 ==> (#[trigger] around@[i]).pos() == neighbours(
                    v.x as int,
                    v.y as int,
                )[i],
        decreases 6 - k,
    {
        if black.contains(&around[k]) {
            n = n + 1;
        }
        k = k + 1;
    }
    n
}

/// Whether a scan of the region, row by row, has passed the cell `c` when it
/// stands before column `x` of row `y`.
spec fn scanned(c: (int, int), x: int, y: int) -> bool {
    in_region(c) && (c.1 < y || (c.1 == y && c.0 < x))
}

/// Works out the generation that follows `black`.
pub fn generation(black: &Bitzet) -> (next: Bitzet)
    ensures
        next@ == next_generation(black@),
{
    let mut next = Bitzet::new();
    let mut y: i32 = -HALF;
    while y < HALF
        invariant
            -HALF <= y <= HALF,
            forall|c: (int, int)| #[trigger]
                next@.contains(c) <==> scanned(c, -HALF as int, y as int) && alive_next(black@, c),
        decreases HALF - y,
    {
        let mut x: i32 = -HALF;
        while x < HALF
            invariant
                -HALF <= y < HALF,
                -HALF <= x <= HALF,
                forall|c: (int, int)| #[trigger]
                    next@.contains(c) <==> scanned(c, x as int, y as int) && alive_next(black@, c),
            decreases HALF - x,
        {
            let v = Vec2::new(x, y);
            let n = count_neighbours(black, v);
            let alive = if black.contains(&v) {
                n == 1 || n == 2
            } else {
                n == 2 && -BIRTH_RADIUS < x && x < BIRTH_RADIUS && -BIRTH_RADIUS < y && y
                    < BIRTH_RADIUS
            };
            let ghost before = next@;
            if alive {
                next.insert(v);
            }
            proof {
                assert(v.pos() == (x as int, y as int));
                assert(alive == alive_next(black@, v.pos()));
                assert forall|c: (int, int)| #[trigger]
                    next@.contains(c) <==> scanned(c, x + 1, y as int) && alive_next(
                        black@,
                        c,
                    ) by {
                    if c == v.pos() {
                        assert(scanned(c, x + 1, y as int));
                        assert(!scanned(c, x as int, y as int));
                    } else {
                        assert(next@.contains(c) == before.contains(c));
                        assert(scanned(c, x + 1, y as int) == scanned(c, x as int, y as int));
                    }
                }
            }
            x = x + 1;
        }
        proof {
            assert forall|c: (int, int)|
                scanned(c, HALF as int, y as int) == scanned(c, -HALF as int, y + 1) by {}
        }
        y = y + 1;
    }
    proof {
        black.lemma_within_region();
        lemma_next_generation_in_region(black@);
        assert forall|c: (int, int)| next@.contains(c) == next_generation(black@).contains(c) by {
            if in_region(c) {
                assert(scanned(c, -HALF as int, HALF as int));
            }
        }
        assert(next@ =~= next_generation(black@));
    }
    next
}

/// Number of paths that the first generation is laid out by.
pub const NUM_PATHS: usize = 34;

/// One if the row `y` sits half a cell to the right, else zero.
pub open spec fn parity(y: int) -> int {
    if y % 2 == 0 {
        0
    } else {
        1
    }
}

/// Where the steps of `path` from index `k` on lead from the cell `(x, y)`.
/// A step is `e` or `w`, or `s` or `n` followed by `e` or `w`; the walk ends
/// where the path does, or before anything else.
pub open spec fn walk_from(path: Seq<char>, k: int, x: int, y: int) -> (int, int)
    decreases path.len() - k,
{
    if k < 0 || k >= path.len() {
        (x, y)
    } else if path[k] == 'e' {
        walk_from(path, k + 1, x + 1, y)
    } else if path[k] == 'w' {
        walk_from(path, k + 1, x - 1, y)
    } else if k + 1 >= path.len() {
        (x, y)
    } else if path[k] == 's' && path[k + 1] == 'e' {
        walk_from(path, k + 2, x + parity(y), y + 1)
    } else if path[k] == 's' && path[k + 1] == 'w' {
        walk_from(path, k + 2, x - parity(y + 1), y + 1)
    } else if path[k] == 'n' && path[k + 1] == 'e' {
        walk_from(path, k + 2, x + parity(y), y - 1)
    } else if path[k] == 'n' && path[k + 1] == 'w' {
        walk_from(path, k + 2, x - parity(y - 1), y - 1)
    } else {
        (x, y)
    }
}

/// The cell that `path` leads to from the origin.
pub open spec fn walk(path: Seq<char>) -> (int, int) {
    walk_from(path, 0, 0, 0)
}

/// `cells` with the cell `c` flipped: taken out if it was in, put in if it
/// was out and lies in the region that a set has room for.
pub open spec fn toggled(cells: Set<(int, int)>, c: (int, int)) -> Set<(int, int)> {
    if cells.contains(c) {
        cells.remove(c)
    } else if in_region(c) {
        cells.insert(c)
    } else {
        cells
    }
}

/// The cells that are live once the first `k` of `paths` have each flipped
/// the cell that they lead to.
pub open spec fn seeded(paths: Seq<Seq<char>>, k: nat) -> Set<(int, int)>
    decreases k,
{
    if k == 0 {
        Set::empty()
    } else {
        toggled(seeded(paths, (k - 1) as nat), walk(paths[k - 1]))
    }
}

/// The paths that lay out the first generation.
pub open spec fn pattern() -> Seq<Seq<char>> {
    seq![
        "eeeee"@,
        "wwwwwwswsw"@,
        "neneeseswswswee"@,
        "w"@,
        "wwwwwwswswee"@,
        "wnwnwwswswsese"@,
        "wwwwwwnenwwsw"@,
        "wnwnwwswsw"@,
        "eeeeene"@,
        "eeeeese"@,
        "wnwnw"@,
        "wnwnww"@,
        "neneesesw"@,
        "wwwwwwnenww"@,
        "ne"@,
        "wnwnwwswswse"@,
        "wnwnww"@,
        "neneeseswswswe"@,
        "wwwwww"@,
        "eeeeesesw"@,
        "nene"@,
        "wwwwwwswswe"@,
        "neneeseswsw"@,
        "wwwwwwne"@,
        "eeeeenenw"@,
        "wnwnwwsw"@,
        "neneese"@,
        "wnwnwwswswsesee"@,
        "wnwnwwswswseseene"@,
        "wnw"@,
        "wwwwwwnenw"@,
        "wwwwwwsw"@,
        "nenee"@,
        "neneeseswswsw"@,
    ]
}

/// Number of characters of the longest path of the pattern.
pub const LONGEST_PATH: usize = 17;

/// No path of the pattern is longer than `LONGEST_PATH`.
pub proof fn lemma_pattern_lengths()
    ensures
        pattern().len() == NUM_PATHS,
        forall|i: int| 0 <= i < NUM_PATHS ==> (#[trigger] pattern()[i]).len() <= LONGEST_PATH,
{
    reveal_strlit("eeeee");
    reveal_strlit("wwwwwwswsw");
    reveal_strlit("neneeseswswswee");
    reveal_strlit("w");
    reveal_strlit("wwwwwwswswee");
    reveal_strlit("wnwnwwswswsese");
    reveal_strlit("wwwwwwnenwwsw");
    reveal_strlit("wnwnwwswsw");
    reveal_strlit("eeeeene");
    reveal_strlit("eeeeese");
    reveal_strlit("wnwnw");
    reveal_strlit("wnwnww");
    reveal_strlit("neneesesw");
    reveal_strlit("wwwwwwnenww");
    reveal_strlit("ne");
    reveal_strlit("wnwnwwswswse");
    reveal_strlit("neneeseswswswe");
    reveal_strlit("wwwwww");
    reveal_strlit("eeeeesesw");
    reveal_strlit("nene");
    reveal_strlit("wwwwwwswswe");
    reveal_strlit("neneeseswsw");
    reveal_strlit("wwwwwwne");
    reveal_strlit("eeeeenenw");
    reveal_strlit("wnwnwwsw");
    reveal_strlit("neneese");
    reveal_strlit("wnwnwwswswsesee");
    reveal_strlit("wnwnwwswswseseene");
    reveal_strlit("wnw");
    reveal_strlit("wwwwwwnenw");
    reveal_strlit("wwwwwwsw");
    reveal_strlit("nenee");
    reveal_strlit("neneeseswswsw");
}

/// The paths that lay out the first generation.
pub fn input() -> (paths: [&'static str; NUM_PATHS])
    ensures
        forall|i: int| 0 <= i < NUM_PATHS ==> (#[trigger] paths@[i])@ == pattern()[i],
{
    [
        "eeeee",
        "wwwwwwswsw",
        "neneeseswswswee",
        "w",
        "wwwwwwswswee",
        "wnwnwwswswsese",
        "wwwwwwnenwwsw",
        "wnwnwwswsw",
        "eeeeene",
        "eeeeese",
        "wnwnw",
        "wnwnww",
        "neneesesw",
        "wwwwwwnenww",
        "ne",
        "wnwnwwswswse",
        "wnwnww",
        "neneeseswswswe",
        "wwwwww",
        "eeeeesesw",
        "nene",
        "wwwwwwswswe",
        "neneeseswsw",
        "wwwwwwne",
        "eeeeenenw",
        "wnwnwwsw",
        "neneese",
        "wnwnwwswswsesee",
        "wnwnwwswswseseene",
        "wnw",
        "wwwwwwnenw",
        "wwwwwwsw",
        "nenee",
        "neneeseswswsw",
    ]
}

/// Follows `path` from the origin.
pub fn follow(path: &str) -> (v: Vec2)
    requires
        path@.len() <= i32::MAX,
    ensures
        v.pos() == walk(path@),
{
    let len = path.unicode_len();
    let mut x: i32 = 0;
    let mut y: i32 = 0;
    let mut k: usize = 0;
    let mut done = false;
    while !done
        invariant
            len == path@.len(),
            len <= i32::MAX,
            k <= len,
            -(k as int) <= x <= k,
            -(k as int) <= y <= k,
            !done ==> walk_from(path@, k as int, x as int, y as int) == walk(path@),
            done ==> (x as int, y as int) == walk(path@),
        decreases len - k, if done { 0int } else { 1int },
    {
        if k >= len {
            done = true;
        } else {
            let c = path.get_char(k);
            if c == 'e' {
                x = x + 1;
                k = k + 1;
            } else if c == 'w' {
                x = x - 1;
                k = k + 1;
            } else if k + 1 >= len {
                done = true;
            } else {
                let d = path.get_char(k + 1);
                let shift: i32 = if y % 2 == 0 {
                    0
                } else {
                    1
                };
                if c == 's' && d == 'e' {
                    x = x + shift;
                    y = y + 1;
                    k = k + 2;
                } else if c == 's' && d == 'w' {
                    x = x - (1 - shift);
                    y = y + 1;
                    k = k + 2;
                } else if c == 'n' && d == 'e' {
                    x = x + shift;
                    y = y - 1;
                    k = k + 2;
                } else if c == 'n' && d == 'w' {
                    x = x - (1 - shift);
                    y = y - 1;
                    k = k + 2;
                } else {
                    done = true;
                }
            }
        }
    }
    Vec2::new(x, y)
}

/// Lays out the first generation.
pub fn seed() -> (black: Bitzet)
    ensures
        black@ == seeded(pattern(), NUM_PATHS as nat),
{
    let paths = input();
    let mut black = Bitzet::new();
    let mut k: usize = 0;
    while k < NUM_PATHS
        invariant
            k <= NUM_PATHS,
            black@ == seeded(pattern(), k as nat),
            forall|i: int| 0 <= i < NUM_PATHS ==> (#[trigger] paths@[i])@ == pattern()[i],
        decreases NUM_PATHS - k,
    {
        let path = paths[k];
        proof {
            lemma_pattern_lengths();
        }
        let v = follow(path);
        if black.contains(&v) {
            black.remove(&v);
        } else {
            black.insert(v);
        }
        k = k + 1;
    }
    black
}

/// Number of ticks over which one generation fades into the next.
pub const LERP_TIME: i32 = 300;

/// Number of ticks for which a generation then stands still.
pub const PAUSE_TIME: i32 = 600;

/// Distance on the colour wheel from one live cell's hue to the next one's.
pub const HUE_STEP: u8 = 7;

/// Where the origin of the cells lies on the board, in both directions.
pub const CENTRE: i32 = 10;

/// The value `f` parts in `LERP_TIME` of the way from `a` to `b`, rounded
/// towards `a`.
pub open spec fn lerp(a: u8, b: u8, f: int) -> u8 {
    if b >= a {
        (a + (b - a) * f / (LERP_TIME as int)) as u8
    } else {
        (a - (a - b) * f / (LERP_TIME as int)) as u8
    }
}

/// The colour `f` parts in `LERP_TIME` of the way from `a` to `b`.
pub open spec fn blend(a: HV8, b: HV8, f: int) -> HV8 {
    HV8 { h: lerp(a.h, b.h, f), v: lerp(a.v, b.v, f) }
}

proof fn lemma_lerp_step(d: int, f: int)
    by (nonlinear_arith)
    requires
        0 <= d <= 255,
        0 <= f <= LERP_TIME,
    ensures
        0 <= d * f <= 255 * LERP_TIME,
        0 <= d * f / (LERP_TIME as int) <= d,
        f == 0 ==> d * f / (LERP_TIME as int) == 0,
        f == LERP_TIME ==> d * f / (LERP_TIME as int) == d,
{
}

/// A fade starts at the one colour and ends at the other.
pub proof fn lemma_blend_ends(a: HV8, b: HV8)
    ensures
        blend(a, b, 0) == a,
        blend(a, b, LERP_TIME as int) == b,
{
    lemma_lerp_ends(a.h, b.h);
    lemma_lerp_ends(a.v, b.v);
}

proof fn lemma_lerp_ends(a: u8, b: u8)
    ensures
        lerp(a, b, 0) == a,
        lerp(a, b, LERP_TIME as int) == b,
{
    if b >= a {
        lemma_lerp_step(b - a, 0);
        lemma_lerp_step(b - a, LERP_TIME as int);
    } else {
        lemma_lerp_step(a - b, 0);
        lemma_lerp_step(a - b, LERP_TIME as int);
    }
}

/// Moves `f` parts in `LERP_TIME` of the way from `a` to `b`.
pub fn interpolate(a: u8, b: u8, f: i32) -> (r: u8)
    requires
        0 <= f <= LERP_TIME,
    ensures
        r == lerp(a, b, f as int),
{
    if b >= a {
        proof {
            lemma_lerp_step(b - a, f as int);
        }
        (a as i32 + (b as i32 - a as i32) * f / LERP_TIME) as u8
    } else {
        proof {
            lemma_lerp_step(a - b, f as int);
        }
        (a as i32 - (a as i32 - b as i32) * f / LERP_TIME) as u8
    }
}

/// The colours that the LEDs fade from and to, and the hue that the next
/// live cell gets.
pub struct Palette {
    pub last: Seq<HV8>,
    pub next: Seq<HV8>,
    pub hue: u8,
}

/// The cell that a scan of the region, row by row, reaches at step `k`.
pub open spec fn cell_at(k: int) -> (int, int) {
    (k % (SIDE as int) - HALF, k / (SIDE as int) - HALF)
}

/// `p` once the live cell `c` is painted. If an LED stands on `c` it fades
/// to full brightness in the next hue; if the cell was dead before, it fades
/// in that hue from the start. The hue then moves on, round the wheel.
pub open spec fn painted_cell(p: Palette, c: (int, int), newborn: bool) -> Palette {
    match led_index(c.0 + CENTRE, c.1 + CENTRE) {
        Some(a) => Palette {
            next: p.next.update(a as int, HV8 { h: p.hue, v: 255 }),
            last: if newborn {
                p.last.update(a as int, HV8 { h: p.hue, v: p.last[a as int].v })
            } else {
                p.last
            },
            hue: ((p.hue + HUE_STEP) % 256) as u8,
        },
        None => p,
    }
}

/// `p` once the live cells among the first `k` of the scan are painted;
/// `parents` are the cells that were live before.
pub open spec fn painted(
    cells: Set<(int, int)>,
    parents: Set<(int, int)>,
    p: Palette,
    k: nat,
) -> Palette
    decreases k,
{
    if k == 0 {
        p
    } else {
        let q = painted(cells, parents, p, (k - 1) as nat);
        let c = cell_at(k - 1);
        if cells.contains(c) {
            painted_cell(q, c, !parents.contains(c))
        } else {
            q
        }
    }
}

/// The colours `next` with the brightness of each at zero.
pub open spec fn darkened(next: Seq<HV8>) -> Seq<HV8> {
    Seq::new(next.len(), |i: int| HV8 { h: next[i].h, v: 0 })
}

/// The state of the automaton.
pub struct LifeState {
    /// The live cells.
    pub cells: Set<(int, int)>,
    /// What each LED fades from.
    pub last: Seq<HV8>,
    /// What each LED fades to.
    pub next: Seq<HV8>,
    /// The hue that the next live cell gets.
    pub hue: u8,
    /// Ticks since the generation came up.
    pub phase: int,
    /// Ticks since power-up; the count wraps round.
    pub ticks: usize,
}

impl LifeState {
    pub open spec fn wf(self) -> bool {
        &&& self.last.len() == NUM_LEDS
        &&& self.next.len() == NUM_LEDS
        &&& 0 <= self.phase <= LERP_TIME + PAUSE_TIME
    }

    /// Whether the next tick brings up a new generation.
    pub open spec fn due(self) -> bool {
        self.phase >= LERP_TIME + PAUSE_TIME
    }

    /// The palette once the new generation is painted: every LED starts
    /// from where it was fading to, and fades to dark unless a live cell
    /// stands on it.
    pub open spec fn repainted(self) -> Palette {
        painted(
            next_generation(self.cells),
            self.cells,
            Palette { last: self.next, next: darkened(self.next), hue: self.hue },
            (SIDE * SIDE) as nat,
        )
    }

    /// The state after one tick.
    pub open spec fn after(self) -> LifeState {
        let ticks = if self.ticks == usize::MAX {
            0usize
        } else {
            (self.ticks + 1) as usize
        };
        if self.due() {
            let p = self.repainted();
            LifeState {
                cells: next_generation(self.cells),
                last: p.last,
                next: p.next,
                hue: p.hue,
                phase: 1,
                ticks,
            }
        } else {
            LifeState { phase: self.phase + 1, ticks, ..self }
        }
    }

    /// The frame after one tick. A new generation shows what the LEDs fade
    /// from; for `LERP_TIME` ticks each LED then moves towards what it fades
    /// to; after that the frame stays.
    pub open spec fn shown(self, frame: Seq<RGB8>) -> Seq<RGB8> {
        if self.due() {
            Seq::new(NUM_LEDS as nat, |a: int| hv_color(self.repainted().last[a]))
        } else if self.phase <= LERP_TIME {
            Seq::new(
                NUM_LEDS as nat,
                |a: int| hv_color(blend(self.last[a], self.next[a], self.phase)),
            )
        } else {
            frame
        }
    }
}

/// Painting keeps one colour per LED.
pub proof fn lemma_painted_len(
    cells: Set<(int, int)>,
    parents: Set<(int, int)>,
    p: Palette,
    k: nat,
)
    requires
        p.last.len() == NUM_LEDS,
        p.next.len() == NUM_LEDS,
    ensures
        painted(cells, parents, p, k).last.len() == NUM_LEDS,
        painted(cells, parents, p, k).next.len() == NUM_LEDS,
    decreases k,
{
    if k > 0 {
        lemma_painted_len(cells, parents, p, (k - 1) as nat);
    }
}

/// The step at which a scan of the region, row by row, reaches the cell `c`.
pub open spec fn scan_index(c: (int, int)) -> int {
    (c.1 + HALF) * SIDE + (c.0 + HALF)
}

/// The scan reaches every cell of the region once.
pub proof fn lemma_scan_reaches_each_cell_once(c: (int, int), k: int)
    ensures
        in_region(c) ==> 0 <= scan_index(c) < SIDE * SIDE && cell_at(scan_index(c)) == c,
        0 <= k < SIDE * SIDE ==> in_region(cell_at(k)) && scan_index(cell_at(k)) == k,
{
}

/// What painting makes of one LED's target: full brightness once the scan
/// has passed a live cell on it, else what it was.
proof fn lemma_painted_target(
    cells: Set<(int, int)>,
    parents: Set<(int, int)>,
    p: Palette,
    k: nat,
    c: (int, int),
    a: usize,
)
    requires
        p.last.len() == NUM_LEDS,
        p.next.len() == NUM_LEDS,
        k <= SIDE * SIDE,
        led_index(c.0 + CENTRE, c.1 + CENTRE) == Some(a),
    ensures
        painted(cells, parents, p, k).next[a as int].v == if cells.contains(c) && scan_index(c)
            < k {
            255u8
        } else {
            p.next[a as int].v
        },
    decreases k,
{
    if k > 0 {
        lemma_painted_target(cells, parents, p, (k - 1) as nat, c, a);
        lemma_painted_len(cells, parents, p, (k - 1) as nat);
        let d = cell_at(k - 1);
        lemma_scan_reaches_each_cell_once(c, k - 1);
        if cells.contains(d) {
            if let Some(b) = led_index(d.0 + CENTRE, d.1 + CENTRE) {
                if b == a {
                    lemma_led_index_unique(
                        d.0 + CENTRE,
                        d.1 + CENTRE,
                        c.0 + CENTRE,
                        c.1 + CENTRE,
                    );
                }
            }
        }
    }
}

/// When a generation comes up, the LEDs under its live cells go for full
/// brightness and all others for dark.
pub proof fn lemma_repainted_targets(s: LifeState, c: (int, int), a: usize)
    requires
        s.wf(),
        led_index(c.0 + CENTRE, c.1 + CENTRE) == Some(a),
    ensures
        s.repainted().next[a as int].v == if next_generation(s.cells).contains(c) {
            255u8
        } else {
            0u8
        },
{
    lemma_painted_target(
        next_generation(s.cells),
        s.cells,
        Palette { last: s.next, next: darkened(s.next), hue: s.hue },
        (SIDE * SIDE) as nat,
        c,
        a,
    );
    lemma_scan_reaches_each_cell_once(c, 0);
}

/// A tick keeps the state well formed.
pub proof fn lemma_after_keeps_wf(s: LifeState)
    requires
        s.wf(),
    ensures
        s.after().wf(),
{
    lemma_painted_len(
        next_generation(s.cells),
        s.cells,
        Palette { last: s.next, next: darkened(s.next), hue: s.hue },
        (SIDE * SIDE) as nat,
    );
}

/// The cellular automaton on the hexagonal grid. A generation fades in
/// over `LERP_TIME` ticks, stands for `PAUSE_TIME` more and then gives way
/// to the next.
pub struct Hexlife2 {
    black: Bitzet,
    i: usize,
    rainbow: u8,
    last: [HV8; NUM_LEDS],
    next: [HV8; NUM_LEDS],
    f: i32,
}

impl View for Hexlife2 {
    type V = LifeState;

    closed spec fn view(&self) -> LifeState {
        LifeState {
            cells: self.black@,
            last: self.last@,
            next: self.next@,
            hue: self.rainbow,
            phase: self.f as int,
            ticks: self.i,
        }
    }
}

/// Paints the live cells of `black`, in the order of the scan.
fn paint(
    black: &Bitzet,
    parents: &Bitzet,
    last: &mut [HV8; NUM_LEDS],
    next: &mut [HV8; NUM_LEDS],
    rainbow: &mut u8,
)
    ensures
        (Palette { last: final(last)@, next: final(next)@, hue: *final(rainbow) }) == painted(
            black@,
            parents@,
            Palette { last: old(last)@, next: old(next)@, hue: *old(rainbow) },
            (SIDE * SIDE) as nat,
        ),
{
    let ghost start = Palette { last: last@, next: next@, hue: *rainbow };
    let mut y: i32 = -HALF;
    while y < HALF
        invariant
            -HALF <= y <= HALF,
            (Palette { last: last@, next: next@, hue: *rainbow }) == painted(
                black@,
                parents@,
                start,
                ((y + HALF) * SIDE) as nat,
            ),
        decreases HALF - y,
    {
        let mut x: i32 = -HALF;
        while x < HALF
            invariant
                -HALF <= y < HALF,
                -HALF <= x <= HALF,
                (Palette { last: last@, next: next@, hue: *rainbow }) == painted(
                    black@,
                    parents@,
                    start,
                    ((y + HALF) * SIDE + (x + HALF)) as nat,
                ),
            decreases HALF - x,
        {
            let v = Vec2::new(x, y);
            let ghost k = (y + HALF) * SIDE + (x + HALF);
            let ghost q = Palette { last: last@, next: next@, hue: *rainbow };
            proof {
                assert(cell_at(k) == v.pos());
            }
            if black.contains(&v) {
                if x >= -CENTRE && y >= -CENTRE {
                    match led_addr((x + CENTRE) as usize, (y + CENTRE) as usize) {
                        Ok(addr) => {
                            let hue = *rainbow;
                            next[addr] = HV8 { h: hue, v: 255 };
                            *rainbow = hue.wrapping_add(HUE_STEP);
                            if !parents.contains(&v) {
                                let v_last = last[addr].v;
                                last[addr] = HV8 { h: hue, v: v_last };
                            }
                        },
                        Err(_) => {},
                    }
                }
                proof {
                    assert((Palette { last: last@, next: next@, hue: *rainbow }) == painted_cell(
                        q,
                        v.pos(),
                        !parents@.contains(v.pos()),
                    ));
                }
            }
            x = x + 1;
        }
        y = y + 1;
    }
}

impl Hexlife2 {
    /// Whether the automaton is in a state that its own methods lead to.
    pub open spec fn wf(&self) -> bool {
        self@.wf()
    }

    /// One tick: moves the automaton on and draws it into `led_data`.
    pub fn tick(&mut self, led_data: &mut [RGB8; NUM_LEDS])
        requires
            old(self).wf(),
        ensures
            final(self).wf(),
            final(self)@ == old(self)@.after(),
            final(led_data)@ == old(self)@.shown(old(led_data)@),
    {
        proof {
            lemma_after_keeps_wf(self@);
        }
        if self.f >= LERP_TIME + PAUSE_TIME {
            let black_new = generation(&self.black);
            self.last = self.next;
            let mut k: usize = 0;
            while k < NUM_LEDS
                invariant
                    k <= NUM_LEDS,
                    forall|j: int|
                        0 <= j < k ==> #[trigger] self.next@[j] == (HV8 {
                            h: old(self).next@[j].h,
                            v: 0,
                        }),
                    forall|j: int| k <= j < NUM_LEDS ==> self.next@[j] == old(self).next@[j],
                    self.last == old(self).next,
                    self.rainbow == old(self).rainbow,
                    self.i == old(self).i,
                    self.black == old(self).black,
                decreases NUM_LEDS - k,
            {
                let hv = self.next[k];
                self.next[k] = HV8 { h: hv.h, v: 0 };
                k = k + 1;
            }
            assert(self.next@ =~= darkened(old(self).next@));
            paint(&black_new, &self.black, &mut self.last, &mut self.next, &mut self.rainbow);
            self.black = black_new;
            self.f = 0;
            let mut a: usize = 0;
            while a < NUM_LEDS
                invariant
                    a <= NUM_LEDS,
                    forall|j: int| 0 <= j < a ==> #[trigger] led_data@[j] == hv_color(self.last@[j]),
                decreases NUM_LEDS - a,
            {
                led_data[a] = hv_to_rgb(self.last[a]);
                a = a + 1;
            }
            assert(led_data@ =~= old(self)@.shown(old(led_data)@));
        } else if self.f <= LERP_TIME {
            let mut a: usize = 0;
            while a < NUM_LEDS
                invariant
                    a <= NUM_LEDS,
                    0 <= self.f <= LERP_TIME,
                    forall|j: int|
                        0 <= j < a ==> #[trigger] led_data@[j] == hv_color(
                            blend(self.last@[j], self.next@[j], self.f as int),
                        ),
                decreases NUM_LEDS - a,
            {
                let from = self.last[a];
                let to = self.next[a];
                let hv = HV8 {
                    h: interpolate(from.h, to.h, self.f),
                    v: interpolate(from.v, to.v, self.f),
                };
                led_data[a] = hv_to_rgb(hv);
                a = a + 1;
            }
            assert(led_data@ =~= old(self)@.shown(old(led_data)@));
        }
        self.i = self.i.wrapping_add(1);
        self.f = self.f + 1;
    }
}

/// The automaton before its first tick: the first generation is laid out
/// and every LED is dark.
pub fn new() -> (h: Hexlife2)
    ensures
        h.wf(),
        h@ == (LifeState {
            cells: seeded(pattern(), NUM_PATHS as nat),
            last: Seq::new(NUM_LEDS as nat, |a: int| HV8 { h: 0, v: 0 }),
            next: Seq::new(NUM_LEDS as nat, |a: int| HV8 { h: 0, v: 0 }),
            hue: 0,
            phase: LERP_TIME as int,
            ticks: 0,
        }),
{
    let h = Hexlife2 {
        black: seed(),
        i: 0,
        rainbow: 0,
        next: [HV8 { h: 0, v: 0 };NUM_LEDS],
        last: [HV8 { h: 0, v: 0 };NUM_LEDS],
        f: LERP_TIME,
    };
    assert(h@.last =~= Seq::new(NUM_LEDS as nat, |a: int| HV8 { h: 0, v: 0 }));
    assert(h@.next =~= Seq::new(NUM_LEDS as nat, |a: int| HV8 { h: 0, v: 0 }));
    h
}

} // verus!

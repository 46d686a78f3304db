use vstd::prelude::*;

use crate::color::{HV8, RGB8};
use crate::math::Vec2;

verus! {

/// Number of physical LEDs on the strip.
pub const NUM_LEDS: usize = 291;

/// Number of columns of the grid.
pub const MATRIX_WIDTH: usize = 19;

/// Number of rows of the grid.
pub const MATRIX_HEIGHT: usize = 21;

/// Number of cells of the grid.
pub const MATRIX_CELLS: usize = 399;

/// Strip position of every grid cell, row by row. A cell without an LED
/// holds `NUM_LEDS`.
pub const MATRIX_MAP: [i16; MATRIX_CELLS] = [
    291, 291, 291, 291, 291, 291, 291, 291, 0, 1, 2, 3, 4, 5, 6, 7, 291, 291, 291, 291, 291, 291,
    291, 291, 291, 291, 16, 15, 14, 13, 12, 11, 10, 9, 8, 291, 291, 291, 291, 291, 291, 291, 291,
    291, 291, 17, 18, 19, 20, 21, 22, 23, 24, 25, 26, 291, 291, 291, 291, 291, 291, 291, 291, 37,
    36, 35, 34, 33, 32, 31, 30, 29, 28, 27, 291, 291, 291, 291, 291, 38, 39, 40, 41, 42, 43, 44,
    45, 46, 47, 48, 49, 50, 51, 52, 291, 291, 291, 68, 67, 66, 65, 64, 63, 62, 61, 60, 59, 58, 57,
    56, 55, 54, 53, 291, 291, 291, 69, 70, 71, 72, 73, 74, 75, 76, 77, 78, 79, 80, 81, 82, 83, 84,
    85, 291, 102, 101, 100, 99, 98, 97, 96, 95, 94, 93, 92, 91, 90, 89, 88, 87, 86, 291, 291, 103,
    104, 105, 106, 107, 108, 109, 110, 111, 112, 113, 114, 115, 116, 117, 118, 119, 291, 136, 135,
    134, 133, 132, 131, 130, 129, 128, 127, 126, 125, 124, 123, 122, 121, 120, 291, 291, 137, 138,
    139, 140, 141, 142, 143, 144, 145, 146, 147, 148, 149, 150, 151, 152, 153, 291, 291, 170, 169,
    168, 167, 166, 165, 164, 163, 162, 161, 160, 159, 158, 157, 156, 155, 154, 291, 291, 291, 171,
    172, 173, 174, 175, 176, 177, 178, 179, 180, 181, 182, 183, 184, 185, 186, 187, 291, 291, 204,
    203, 202, 201, 200, 199, 198, 197, 196, 195, 194, 193, 192, 191, 190, 189, 188, 291, 291, 291,
    205, 206, 207, 208, 209, 210, 211, 212, 213, 214, 215, 216, 217, 218, 219, 220, 221, 291, 291,
    237, 236, 235, 234, 233, 232, 231, 230, 229, 228, 227, 226, 225, 224, 223, 222, 291, 291, 291,
    291, 238, 239, 240, 241, 242, 243, 244, 245, 246, 247, 248, 249, 250, 251, 252, 291, 291, 291,
    291, 291, 291, 291, 263, 262, 261, 260, 259, 258, 257, 256, 255, 254, 253, 291, 291, 291, 291,
    291, 291, 291, 291, 291, 264, 265, 266, 267, 268, 269, 270, 271, 272, 273, 291, 291, 291, 291,
    291, 291, 291, 291, 291, 282, 281, 280, 279, 278, 277, 276, 275, 274, 291, 291, 291, 291, 291,
    291, 291, 291, 291, 291, 291, 283, 284, 285, 286, 287, 288, 289, 290, 291, 291, 291,
];

/// Why a cell could not be read or written.
#[derive(Debug, Clone, Copy, PartialEq, Eq, Structural)]
pub enum Error {
    /// The cell lies outside the grid, or no LED is wired to it.
    OutOfBounds,
}

/// Column of the first LED in row `y`.
pub open spec fn row_first(y: int) -> int {
    if y == 0 || y == 20 {
        8
    } else if y == 1 || y == 2 || y == 18 || y == 19 {
        7
    } else if y == 3 || y == 17 {
        6
    } else if y == 4 || y == 16 {
        3
    } else if y == 5 || y == 6 || y == 14 || y == 15 {
        2
    } else if y == 7 || y == 8 || y == 12 || y == 13 {
        1
    } else {
        0
    }
}

/// Number of LEDs in row `y`.
pub open spec fn row_len(y: int) -> int {
    if y == 0 || y == 20 {
        8
    } else if y == 1 || y == 19 {
        9
    } else if y == 2 || y == 18 {
        10
    } else if y == 3 || y == 17 {
        11
    } else if y == 4 || y == 16 {
        15
    } else if y == 5 || y == 15 {
        16
    } else {
        17
    }
}

/// Number of LEDs in the rows above row `y`.
pub open spec fn row_base(y: int) -> int
    decreases y,
{
    if y <= 0 {
        0
    } else {
        row_base(y - 1) + row_len(y - 1)
    }
}

/// The strip runs through the board as a serpentine: even rows left to
/// right, odd rows right to left. This is the strip position of cell
/// `(x, y)`, or `NUM_LEDS` where the row has no LED in column `x`.
pub open spec fn wiring(x: int, y: int) -> int {
    let k = x - row_first(y);
    if 0 <= k < row_len(y) {
        if y % 2 == 0 {
            row_base(y) + k
        } else {
            row_base(y) + row_len(y) - 1 - k
        }
    } else {
        NUM_LEDS as int
    }
}

/// Whether `(x, y)` names a cell of the grid.
pub open spec fn in_grid(x: int, y: int) -> bool {
    0 <= x < MATRIX_WIDTH && 0 <= y < MATRIX_HEIGHT
}

/// The strip position of the LED at cell `(x, y)`: `None` outside the grid
/// and on cells without an LED.
pub open spec fn led_index(x: int, y: int) -> Option<usize> {
    if in_grid(x, y) && 0 <= MATRIX_MAP@[x + y * MATRIX_WIDTH] < NUM_LEDS {
        Some(MATRIX_MAP@[x + y * MATRIX_WIDTH] as usize)
    } else {
        None
    }
}

/// The table is the serpentine wiring, cell by cell.
pub proof fn lemma_map_is_serpentine()
    ensures
        forall|x: int, y: int|
            in_grid(x, y) ==> MATRIX_MAP@[x + y * MATRIX_WIDTH] == #[trigger] wiring(x, y),
{
    lemma_map_cells();
}

proof fn lemma_map_cells()
    ensures
        forall|x: int, y: int|
            0 <= x < 19 && 0 <= y < 21 ==> MATRIX_MAP@[x + y * 19] == #[trigger] wiring(x, y),
{
    reveal_with_fuel(row_base, 22);
}

/// The rows take up the strip one after the other, and together all of it.
pub proof fn lemma_row_base_monotonic(a: int, b: int)
    requires
        0 <= a <= b,
    ensures
        row_base(a) <= row_base(b),
        row_base(MATRIX_HEIGHT as int) == NUM_LEDS,
    decreases b,
{
    if a < b {
        lemma_row_base_monotonic(a, b - 1);
    }
    assert(row_base(21) == 291) by {
        reveal_with_fuel(row_base, 22);
    }
}

/// Every strip position that the map hands out lies on the strip.
pub proof fn lemma_led_index_in_range(x: int, y: int)
    ensures
        led_index(x, y) matches Some(i) ==> i < NUM_LEDS,
{
}

/// An LED of row `y` lies in that row's stretch of the strip.
proof fn lemma_wiring_in_row(x: int, y: int)
    requires
        in_grid(x, y),
        wiring(x, y) != NUM_LEDS,
    ensures
        row_base(y) <= wiring(x, y) < row_base(y + 1),
        row_base(y + 1) == row_base(y) + row_len(y),
{
}

/// No two cells share an LED.
pub proof fn lemma_led_index_unique(x1: int, y1: int, x2: int, y2: int)
    requires
        led_index(x1, y1) is Some,
        led_index(x1, y1) == led_index(x2, y2),
    ensures
        x1 == x2,
        y1 == y2,
{
    lemma_map_is_serpentine();
    assert(MATRIX_MAP@[x1 + y1 * MATRIX_WIDTH] == wiring(x1, y1));
    assert(MATRIX_MAP@[x2 + y2 * MATRIX_WIDTH] == wiring(x2, y2));
    lemma_wiring_in_row(x1, y1);
    lemma_wiring_in_row(x2, y2);
    if y1 < y2 {
        lemma_row_base_monotonic(y1 + 1, y2);
    }
    if y2 < y1 {
        lemma_row_base_monotonic(y2 + 1, y1);
    }
}

/// Finds, from row `y` down, the row whose LEDs include strip position `i`.
proof fn lemma_row_of_led(i: int, y: int) -> (r: int)
    requires
        0 <= y < MATRIX_HEIGHT,
        row_base(y) <= i < NUM_LEDS,
    ensures
        0 <= r < MATRIX_HEIGHT,
        row_base(r) <= i < row_base(r + 1),
    decreases MATRIX_HEIGHT - y,
{
    if i < row_base(y + 1) {
        y
    } else {
        lemma_row_base_monotonic(y + 1, y + 1);
        lemma_row_of_led(i, y + 1)
    }
}

/// Every LED of the strip sits on some cell of the grid.
pub proof fn lemma_every_led_has_a_cell(i: usize)
    requires
        i < NUM_LEDS,
    ensures
        exists|x: int, y: int| led_index(x, y) == Some(i),
{
    lemma_map_is_serpentine();
    let y = lemma_row_of_led(i as int, 0);
    let k = if y % 2 == 0 { i - row_base(y) } else { row_base(y) + row_len(y) - 1 - i };
    let x = row_first(y) + k;
    assert(wiring(x, y) == i);
    assert(led_index(x, y) == Some(i));
}

/// The place of cell `(x, y)` in a buffer that holds one value per cell of
/// the grid, row by row: `None` outside the grid.
pub open spec fn cell_position(x: int, y: int) -> Option<usize> {
    if in_grid(x, y) {
        Some((MATRIX_WIDTH * y + x) as usize)
    } else {
        None
    }
}

/// The place of the cell `v` in a buffer of one value per cell.
pub fn cell_index(v: Vec2) -> (r: Option<usize>)
    ensures
        r == cell_position(v.x as int, v.y as int),
        r matches Some(i) ==> i < MATRIX_CELLS,
{
    if v.x < 0 || v.x as usize >= MATRIX_WIDTH || v.y < 0 || v.y as usize >= MATRIX_HEIGHT {
        return None;
    }
    Some(MATRIX_WIDTH * v.y as usize + v.x as usize)
}

/// Looks the cell up in the table.
fn cell_led(x: usize, y: usize) -> (r: Result<usize, Error>)
    ensures
        r == match led_index(x as int, y as int) {
            Some(i) => Ok::<usize, Error>(i),
            None => Err(Error::OutOfBounds),
        },
{
    if x >= MATRIX_WIDTH || y >= MATRIX_HEIGHT {
        return Err(Error::OutOfBounds);
    }
    let addr = x + y * MATRIX_WIDTH;
    let led: i16 = MATRIX_MAP[addr];
    if led >= 0 && (led as usize) < NUM_LEDS {
        Ok(led as usize)
    } else {
        Err(Error::OutOfBounds)
    }
}

/// Strip position of the LED at cell `(x, y)`.
pub fn led_addr(x: usize, y: usize) -> (r: Result<usize, Error>)
    ensures
        r == match led_index(x as int, y as int) {
            Some(i) => Ok::<usize, Error>(i),
            None => Err(Error::OutOfBounds),
        },
{
    cell_led(x, y)
}

/// Paints the LED at cell `(x, y)` and returns its strip position. Where
/// the cell has no LED the frame stays as it was.
pub fn set_matrix(x: usize, y: usize, color: RGB8, data: &mut [RGB8; NUM_LEDS]) -> (r: Result<
    i16,
    Error,
>)
    ensures
        match led_index(x as int, y as int) {
            Some(i) => r == Ok::<i16, Error>(i as i16) && final(data)@ == old(data)@.update(
                i as int,
                color,
            ),
            None => r == Err::<i16, Error>(Error::OutOfBounds) && final(data)@ == old(data)@,
        },
{
    match cell_led(x, y) {
        Ok(led) => {
            data[led] = color;
            Ok(led as i16)
        },
        Err(e) => Err(e),
    }
}

/// Reads the LED at cell `(x, y)`: its strip position and its colour.
pub fn get_matrix(x: usize, y: usize, data: &mut [RGB8; NUM_LEDS]) -> (r: Result<(i16, RGB8), Error>)
    ensures
        final(data)@ == old(data)@,
        r == match led_index(x as int, y as int) {
            Some(i) => Ok::<(i16, RGB8), Error>((i as i16, old(data)@[i as int])),
            None => Err(Error::OutOfBounds),
        },
{
    match cell_led(x, y) {
        Ok(led) => Ok((led as i16, data[led])),
        Err(e) => Err(e),
    }
}

/// Paints the cell that lies `v` away from the centre of the board, in
/// offset coordinates. A position off the board paints nothing.
pub fn set_matrix_oddr(v: Vec2, color: RGB8, data: &mut [RGB8; NUM_LEDS])
    ensures
        final(data)@ == match led_index(v.x + 10, v.y + 10) {
            Some(i) => old(data)@.update(i as int, color),
            None => old(data)@,
        },
{
    if v.x < -10 || v.y < -10 || v.x > 8 || v.y > 10 {
        return ;
    }
    let _ = set_matrix((v.x + 10) as usize, (v.y + 10) as usize, color, data);
}

/// Stores `hv` for the LED at cell `(x, y)` and returns its strip position.
/// Where the cell has no LED the buffer stays as it was.
pub fn set_matrix_hv(x: usize, y: usize, hv: &HV8, data: &mut [HV8; NUM_LEDS]) -> (r: Result<
    i16,
    Error,
>)
    ensures
        match led_index(x as int, y as int) {
            Some(i) => r == Ok::<i16, Error>(i as i16) && final(data)@ == old(data)@.update(
                i as int,
                *hv,
            ),
            None => r == Err::<i16, Error>(Error::OutOfBounds) && final(data)@ == old(data)@,
        },
{
    match cell_led(x, y) {
        Ok(led) => {
            data[led] = *hv;
            Ok(led as i16)
        },
        Err(e) => Err(e),
    }
}

/// The six cells around the cell `(x, y)`: east, west, then the two below
/// and the two above. Odd rows sit half a cell to the right of even rows, so
/// the diagonal neighbours depend on the parity of the row.
pub open spec fn neighbours(x: int, y: int) -> Seq<(int, int)> {
    let shift: int = if y % 2 == 0 {
        0
    } else {
        1
    };
    seq![
        (x + 1, y),
        (x - 1, y),
        (x - 1 + shift, y + 1),
        (x + shift, y + 1),
        (x - 1 + shift, y - 1),
        (x + shift, y - 1),
    ]
}

/// A cell is a neighbour of each of its neighbours.
pub proof fn lemma_neighbours_symmetric(x: int, y: int, i: int)
    requires
        0 <= i < 6,
    ensures
        ({
            let n = neighbours(x, y)[i];
            neighbours(n.0, n.1).contains((x, y))
        }),
{
    let n = neighbours(x, y)[i];
    let back = neighbours(n.0, n.1);
    let j: int = if i == 0 {
        1
    } else if i == 1 {
        0
    } else if i == 2 {
        5
    } else if i == 3 {
        4
    } else if i == 4 {
        3
    } else {
        2
    };
    assert(back[j] == (x, y));
}

/// The six cells around `v`: east, west, then the two below and the two
/// above.
pub fn adjacent(v: Vec2) -> (d: [Vec2; 6])
    requires
        i32::MIN < v.x < i32::MAX,
        i32::MIN < v.y < i32::MAX,
    ensures
        forall|i: int| 0 <= i < 6 ==> (#[trigger] d@[i]).pos() == neighbours(v.x as int, v.y as int)[i],
{
    let xshift: i32 = if v.y % 2 == 0 {
        0
    } else {
        1
    };
    [
        Vec2::new(v.x + 1, v.y),
        Vec2::new(v.x - 1, v.y),
        Vec2::new(v.x - 1 + xshift, v.y + 1),
        Vec2::new(v.x + xshift, v.y + 1),
        Vec2::new(v.x - 1 + xshift, v.y - 1),
        Vec2::new(v.x + xshift, v.y - 1),
    ]
}

} // verus!

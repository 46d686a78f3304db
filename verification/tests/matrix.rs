use mocca_matrix::color::{HV8, RGB8};
use mocca_matrix::math::Vec2;
use mocca_matrix::matrix::{
    adjacent, cell_index, get_matrix, led_addr, set_matrix, set_matrix_hv, set_matrix_oddr, Error,
    MATRIX_HEIGHT, MATRIX_MAP, MATRIX_WIDTH, NUM_LEDS,
};

/// First column and number of LEDs of every row of the board.
const ROWS: [(usize, usize); 21] = [
    (8, 8),
    (7, 9),
    (7, 10),
    (6, 11),
    (3, 15),
    (2, 16),
    (2, 17),
    (1, 17),
    (1, 17),
    (0, 17),
    (0, 17),
    (0, 17),
    (1, 17),
    (1, 17),
    (2, 17),
    (2, 16),
    (3, 15),
    (6, 11),
    (7, 10),
    (7, 9),
    (8, 8),
];

fn serpentine(x: usize, y: usize) -> Option<usize> {
    let (first, len) = ROWS[y];
    if x < first || x >= first + len {
        return None;
    }
    let base: usize = ROWS[..y].iter().map(|r| r.1).sum();
    let k = x - first;
    Some(if y % 2 == 0 { base + k } else { base + len - 1 - k })
}

fn dark() -> [RGB8; NUM_LEDS] {
    [RGB8::new(0, 0, 0); NUM_LEDS]
}

#[test]
fn led_addr_first_and_last_led() {
    assert_eq!(led_addr(8, 0).unwrap(), 0);
    assert_eq!(led_addr(15, 0).unwrap(), 7);
    assert_eq!(led_addr(7, 1).unwrap(), 16);
    assert_eq!(led_addr(15, 1).unwrap(), 8);
    assert_eq!(led_addr(0, 10).unwrap(), 137);
    assert_eq!(led_addr(15, 20).unwrap(), NUM_LEDS - 1);
}

#[test]
fn led_addr_rejects_cells_off_the_grid() {
    assert!(matches!(led_addr(MATRIX_WIDTH, 0), Err(Error::OutOfBounds)));
    assert!(matches!(led_addr(0, MATRIX_HEIGHT), Err(Error::OutOfBounds)));
    assert!(matches!(led_addr(usize::MAX, usize::MAX), Err(Error::OutOfBounds)));
}

#[test]
fn led_addr_rejects_cells_without_led() {
    assert!(matches!(led_addr(0, 0), Err(Error::OutOfBounds)));
    assert!(matches!(led_addr(7, 0), Err(Error::OutOfBounds)));
    assert!(matches!(led_addr(16, 0), Err(Error::OutOfBounds)));
    assert!(matches!(led_addr(18, 20), Err(Error::OutOfBounds)));
}

#[test]
fn led_addr_follows_the_serpentine_on_every_cell() {
    for y in 0..MATRIX_HEIGHT {
        for x in 0..MATRIX_WIDTH {
            assert_eq!(led_addr(x, y).ok(), serpentine(x, y), "cell ({x}, {y})");
        }
    }
}

#[test]
fn led_addr_is_stable() {
    for y in 0..MATRIX_HEIGHT {
        for x in 0..MATRIX_WIDTH {
            assert_eq!(led_addr(x, y).ok(), led_addr(x, y).ok());
        }
    }
}

#[test]
fn led_addr_gives_every_led_exactly_once() {
    let mut seen = [0usize; NUM_LEDS];
    for y in 0..MATRIX_HEIGHT {
        for x in 0..MATRIX_WIDTH {
            if let Ok(led) = led_addr(x, y) {
                assert!(led < NUM_LEDS);
                seen[led] += 1;
            }
        }
    }
    assert!(seen.iter().all(|&n| n == 1));
}

#[test]
fn map_marks_cells_without_led_by_the_led_count() {
    assert_eq!(MATRIX_MAP.len(), MATRIX_WIDTH * MATRIX_HEIGHT);
    let absent = MATRIX_MAP.iter().filter(|&&v| v as usize == NUM_LEDS).count();
    assert_eq!(absent, MATRIX_WIDTH * MATRIX_HEIGHT - NUM_LEDS);
}

#[test]
fn set_matrix_paints_one_led() {
    let mut data = dark();
    let red = RGB8::new(255, 0, 0);
    assert_eq!(set_matrix(9, 0, red, &mut data).unwrap(), 1);
    for (i, c) in data.iter().enumerate() {
        assert_eq!(*c, if i == 1 { red } else { RGB8::new(0, 0, 0) });
    }
}

#[test]
fn set_matrix_leaves_the_frame_alone_when_out_of_bounds() {
    let mut data = [RGB8::new(1, 2, 3); NUM_LEDS];
    let white = RGB8::new(255, 255, 255);
    assert_eq!(set_matrix(0, 0, white, &mut data), Err(Error::OutOfBounds));
    assert_eq!(set_matrix(19, 3, white, &mut data), Err(Error::OutOfBounds));
    assert_eq!(set_matrix(3, 21, white, &mut data), Err(Error::OutOfBounds));
    assert!(data.iter().all(|c| *c == RGB8::new(1, 2, 3)));
}

#[test]
fn get_matrix_reads_back_what_set_matrix_wrote() {
    let mut data = dark();
    let c = RGB8::new(10, 20, 30);
    let led = set_matrix(5, 10, c, &mut data).unwrap();
    assert_eq!(led, 142);
    assert_eq!(get_matrix(5, 10, &mut data).unwrap(), (142, c));
    assert_eq!(get_matrix(6, 10, &mut data).unwrap(), (143, RGB8::new(0, 0, 0)));
    assert_eq!(get_matrix(18, 10, &mut data), Err(Error::OutOfBounds));
    assert_eq!(get_matrix(0, 21, &mut data), Err(Error::OutOfBounds));
}

#[test]
fn set_matrix_oddr_is_centred_on_the_board() {
    let mut data = dark();
    let c = RGB8::new(0, 0, 255);
    set_matrix_oddr(Vec2::new(0, 0), c, &mut data);
    assert_eq!(data[led_addr(10, 10).unwrap()], c);
    set_matrix_oddr(Vec2::new(-10, 0), c, &mut data);
    assert_eq!(data[137], c);
    assert_eq!(data.iter().filter(|p| **p == c).count(), 2);
}

#[test]
fn set_matrix_oddr_skips_what_is_off_the_board() {
    let mut data = dark();
    let c = RGB8::new(9, 9, 9);
    for v in [
        Vec2::new(-11, 0),
        Vec2::new(0, -11),
        Vec2::new(9, 0),
        Vec2::new(0, 11),
        Vec2::new(7, 0),
        Vec2::new(i32::MAX, i32::MAX),
        Vec2::new(i32::MIN, i32::MIN),
    ] {
        set_matrix_oddr(v, c, &mut data);
    }
    assert!(data.iter().all(|p| *p == RGB8::new(0, 0, 0)));
}

#[test]
fn set_matrix_hv_stores_hue_and_value() {
    let mut data = [HV8::zero(); NUM_LEDS];
    let hv = HV8 { h: 77, v: 200 };
    assert_eq!(set_matrix_hv(8, 0, &hv, &mut data).unwrap(), 0);
    assert_eq!(data[0], hv);
    assert_eq!(set_matrix_hv(0, 0, &hv, &mut data), Err(Error::OutOfBounds));
    assert_eq!(data.iter().filter(|p| **p == hv).count(), 1);
}

#[test]
fn adjacent_of_a_cell_in_an_even_row() {
    let d = adjacent(Vec2::new(3, 4));
    let expect = [(4, 4), (2, 4), (2, 5), (3, 5), (2, 3), (3, 3)];
    for (got, want) in d.iter().zip(expect) {
        assert_eq!((got.x, got.y), want);
    }
}

#[test]
fn adjacent_of_a_cell_in_an_odd_row() {
    let d = adjacent(Vec2::new(3, 5));
    let expect = [(4, 5), (2, 5), (3, 6), (4, 6), (3, 4), (4, 4)];
    for (got, want) in d.iter().zip(expect) {
        assert_eq!((got.x, got.y), want);
    }
    let d = adjacent(Vec2::new(0, -1));
    let expect = [(1, -1), (-1, -1), (0, 0), (1, 0), (0, -2), (1, -2)];
    for (got, want) in d.iter().zip(expect) {
        assert_eq!((got.x, got.y), want);
    }
}

#[test]
fn adjacent_is_symmetric() {
    for y in -4..4 {
        for x in -4..4 {
            let v = Vec2::new(x, y);
            for n in adjacent(v) {
                assert!(adjacent(n).contains(&v), "({x}, {y})");
            }
        }
    }
}

#[test]
fn cell_index_counts_row_by_row() {
    assert_eq!(cell_index(Vec2::new(0, 0)), Some(0));
    assert_eq!(cell_index(Vec2::new(18, 0)), Some(18));
    assert_eq!(cell_index(Vec2::new(10, 10)), Some(200));
    assert_eq!(cell_index(Vec2::new(18, 20)), Some(398));
    assert_eq!(cell_index(Vec2::new(-1, 0)), None);
    assert_eq!(cell_index(Vec2::new(0, -1)), None);
    assert_eq!(cell_index(Vec2::new(19, 0)), None);
    assert_eq!(cell_index(Vec2::new(0, 21)), None);
}

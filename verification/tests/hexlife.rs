use mocca_matrix::app::hexlife::{self, Hexlife};
use mocca_matrix::app::hexlife2::{
    self, count_neighbours, follow, generation, input, interpolate, seed, HV8,
};
use mocca_matrix::bitzet::Bitzet;
use mocca_matrix::color::{hv_to_rgb, wheel, RGB8};
use mocca_matrix::math::Vec2;
use mocca_matrix::matrix::NUM_LEDS;

const DARK: RGB8 = RGB8 { r: 0, g: 0, b: 0 };

/// The live cells of the first generation, row by row.
const SEED: [(i32, i32); 32] = [
    (-7, -2),
    (-6, -2),
    (-2, -2),
    (1, -2),
    (2, -2),
    (5, -2),
    (-8, -1),
    (-6, -1),
    (-4, -1),
    (-2, -1),
    (0, -1),
    (2, -1),
    (5, -1),
    (-6, 0),
    (-4, 0),
    (-1, 0),
    (2, 0),
    (5, 0),
    (-7, 1),
    (-4, 1),
    (-2, 1),
    (1, 1),
    (5, 1),
    (-7, 2),
    (-6, 2),
    (-5, 2),
    (-3, 2),
    (-2, 2),
    (1, 2),
    (2, 2),
    (3, 2),
    (5, 2),
];

/// The LEDs of the second generation in the order in which they are painted,
/// each with the wheel position of its colour.
const SECOND: [(usize, u8); 50] = [
    (100, 0),
    (92, 7),
    (104, 14),
    (105, 21),
    (106, 28),
    (107, 35),
    (109, 42),
    (110, 49),
    (111, 56),
    (112, 63),
    (113, 70),
    (114, 77),
    (115, 84),
    (117, 91),
    (118, 98),
    (134, 105),
    (132, 112),
    (130, 119),
    (128, 126),
    (126, 133),
    (124, 140),
    (121, 147),
    (141, 154),
    (143, 161),
    (146, 168),
    (147, 175),
    (149, 182),
    (150, 189),
    (152, 196),
    (168, 203),
    (164, 210),
    (162, 217),
    (161, 224),
    (160, 231),
    (155, 238),
    (173, 245),
    (175, 252),
    (177, 3),
    (178, 10),
    (179, 17),
    (181, 24),
    (183, 31),
    (184, 38),
    (185, 45),
    (186, 52),
    (202, 59),
    (201, 66),
    (198, 73),
    (194, 80),
    (193, 87),
];

fn set_of(cells: &[(i32, i32)]) -> Bitzet {
    let mut s = Bitzet::new();
    for &(x, y) in cells {
        s.insert(Vec2::new(x, y));
    }
    s
}

fn cells_of(s: &Bitzet) -> Vec<(i32, i32)> {
    let mut cells = Vec::new();
    for y in -70..70 {
        for x in -70..70 {
            if s.contains(&Vec2::new(x, y)) {
                cells.push((x, y));
            }
        }
    }
    cells
}

#[test]
fn bitzet_holds_what_was_inserted() {
    let mut s = Bitzet::new();
    assert!(cells_of(&s).is_empty());
    s.insert(Vec2::new(0, 0));
    s.insert(Vec2::new(-64, -64));
    s.insert(Vec2::new(63, 63));
    s.insert(Vec2::new(5, -7));
    s.insert(Vec2::new(5, -7));
    assert_eq!(cells_of(&s), vec![(-64, -64), (5, -7), (0, 0), (63, 63)]);
    s.remove(&Vec2::new(5, -7));
    s.remove(&Vec2::new(1, 1));
    assert_eq!(cells_of(&s), vec![(-64, -64), (0, 0), (63, 63)]);
}

#[test]
fn bitzet_leaves_out_what_it_has_no_room_for() {
    let mut s = Bitzet::new();
    for v in [
        Vec2::new(64, 0),
        Vec2::new(0, 64),
        Vec2::new(-65, 0),
        Vec2::new(0, -65),
        Vec2::new(i32::MAX, i32::MIN),
    ] {
        s.insert(v);
        assert!(!s.contains(&v));
        s.remove(&v);
    }
    assert!(cells_of(&s).is_empty());
}

#[test]
fn bitzet_keeps_neighbouring_bits_apart() {
    let mut s = Bitzet::new();
    for x in -64..64 {
        if x % 2 == 0 {
            s.insert(Vec2::new(x, 3));
        }
    }
    for x in -64..64 {
        assert_eq!(s.contains(&Vec2::new(x, 3)), x % 2 == 0);
        assert!(!s.contains(&Vec2::new(x, 2)));
        assert!(!s.contains(&Vec2::new(x, 4)));
    }
}

#[test]
fn follow_walks_the_six_directions() {
    assert_eq!(follow(""), Vec2::new(0, 0));
    assert_eq!(follow("e"), Vec2::new(1, 0));
    assert_eq!(follow("w"), Vec2::new(-1, 0));
    assert_eq!(follow("se"), Vec2::new(0, 1));
    assert_eq!(follow("sw"), Vec2::new(-1, 1));
    assert_eq!(follow("ne"), Vec2::new(0, -1));
    assert_eq!(follow("nw"), Vec2::new(-1, -1));
    // from an odd row the diagonals lean the other way
    assert_eq!(follow("sese"), Vec2::new(1, 2));
    assert_eq!(follow("sesw"), Vec2::new(0, 2));
    assert_eq!(follow("nene"), Vec2::new(1, -2));
    assert_eq!(follow("nenw"), Vec2::new(0, -2));
}

#[test]
fn follow_comes_back_round_a_hexagon() {
    assert_eq!(follow("eseswwnwne"), Vec2::new(0, 0));
    assert_eq!(follow("ew"), Vec2::new(0, 0));
    assert_eq!(follow("nwwswee"), Vec2::new(0, 0));
}

#[test]
fn follow_stops_at_what_is_no_step() {
    assert_eq!(follow("eex"), Vec2::new(2, 0));
    assert_eq!(follow("exe"), Vec2::new(1, 0));
    assert_eq!(follow("es"), Vec2::new(1, 0));
    assert_eq!(follow("esxe"), Vec2::new(1, 0));
    assert_eq!(follow("n"), Vec2::new(0, 0));
}

#[test]
fn follow_each_path_of_the_pattern() {
    let paths = input();
    assert_eq!(paths.len(), 34);
    assert_eq!(follow(paths[0]), Vec2::new(5, 0));
    assert_eq!(follow(paths[1]), Vec2::new(-7, 2));
    assert_eq!(follow(paths[3]), Vec2::new(-1, 0));
    assert_eq!(follow(paths[14]), Vec2::new(0, -1));
}

#[test]
fn seed_lays_out_the_first_generation() {
    assert_eq!(cells_of(&seed()), SEED.to_vec());
}

#[test]
fn count_neighbours_counts_the_live_cells_around() {
    let s = set_of(&[(0, 0), (1, 0), (0, 1), (5, 5)]);
    assert_eq!(count_neighbours(&s, Vec2::new(0, 0)), 2);
    assert_eq!(count_neighbours(&s, Vec2::new(1, 0)), 2);
    assert_eq!(count_neighbours(&s, Vec2::new(-1, 0)), 1);
    assert_eq!(count_neighbours(&s, Vec2::new(5, 5)), 0);
    assert_eq!(count_neighbours(&s, Vec2::new(20, 20)), 0);
    let ring = set_of(&[(1, 0), (-1, 0), (-1, 1), (0, 1), (-1, -1), (0, -1)]);
    assert_eq!(count_neighbours(&ring, Vec2::new(0, 0)), 6);
}

#[test]
fn a_lone_cell_dies() {
    assert!(cells_of(&generation(&set_of(&[(0, 0)]))).is_empty());
    assert!(cells_of(&generation(&Bitzet::new())).is_empty());
}

#[test]
fn a_pair_lives_and_breeds() {
    let next = generation(&set_of(&[(0, 0), (1, 0)]));
    assert_eq!(cells_of(&next), vec![(0, -1), (0, 0), (1, 0), (0, 1)]);
}

#[test]
fn a_row_of_three_lives_and_breeds() {
    let next = generation(&set_of(&[(0, 0), (1, 0), (2, 0)]));
    assert_eq!(cells_of(&next), vec![(0, -1), (1, -1), (0, 0), (1, 0), (2, 0), (0, 1), (1, 1)]);
}

#[test]
fn two_cells_apart_die_and_leave_one_between() {
    assert_eq!(cells_of(&generation(&set_of(&[(0, 0), (2, 0)]))), vec![(1, 0)]);
}

#[test]
fn a_cell_with_three_live_neighbours_dies() {
    let next = generation(&set_of(&[(0, 0), (1, 0), (-1, 0), (0, 1)]));
    assert!(!next.contains(&Vec2::new(0, 0)));
}

#[test]
fn nothing_is_born_beyond_the_birth_radius() {
    assert!(cells_of(&generation(&set_of(&[(14, 0), (16, 0)]))).is_empty());
    assert_eq!(cells_of(&generation(&set_of(&[(13, 0), (15, 0)]))), vec![(14, 0)]);
    assert!(cells_of(&generation(&set_of(&[(-16, 3), (-14, 3)]))).is_empty());
}

#[test]
fn the_second_generation_has_fifty_cells() {
    let second = generation(&seed());
    assert_eq!(cells_of(&second).len(), 50);
    let third = generation(&second);
    assert_eq!(cells_of(&third).len(), 48);
}

#[test]
fn interpolate_moves_from_one_end_to_the_other() {
    assert_eq!(interpolate(10, 250, 0), 10);
    assert_eq!(interpolate(10, 250, 300), 250);
    assert_eq!(interpolate(250, 10, 0), 250);
    assert_eq!(interpolate(250, 10, 300), 10);
    // 240 * 100 / 300 = 80, 240 * 1 / 300 = 0
    assert_eq!(interpolate(10, 250, 100), 90);
    assert_eq!(interpolate(250, 10, 100), 170);
    assert_eq!(interpolate(10, 250, 1), 10);
    assert_eq!(interpolate(250, 10, 1), 250);
    assert_eq!(interpolate(0, 255, 150), 127);
    assert_eq!(interpolate(255, 0, 150), 128);
}

#[test]
fn hexlife2_is_dark_until_the_second_generation_comes_up() {
    let mut h = hexlife2::new();
    let mut frame = [RGB8::new(9, 9, 9); NUM_LEDS];
    for tick in 0..601 {
        h.tick(&mut frame);
        assert!(frame.iter().all(|c| *c == DARK), "tick {tick}");
    }
}

#[test]
fn hexlife2_leaves_the_frame_alone_while_a_generation_stands() {
    let mut h = hexlife2::new();
    let mut frame = [DARK; NUM_LEDS];
    h.tick(&mut frame);
    for _ in 0..599 {
        frame = [RGB8::new(4, 5, 6); NUM_LEDS];
        h.tick(&mut frame);
        assert!(frame.iter().all(|c| *c == RGB8::new(4, 5, 6)));
    }
    h.tick(&mut frame);
    assert!(frame.iter().all(|c| *c == DARK));
}

#[test]
fn hexlife2_fades_the_second_generation_in() {
    let mut h = hexlife2::new();
    let mut frame = [DARK; NUM_LEDS];
    for _ in 0..601 {
        h.tick(&mut frame);
    }
    for _ in 0..150 {
        h.tick(&mut frame);
    }
    // LED 100 stands on a cell that was just born: it fades in in its own hue
    assert_eq!(frame[100], hv_to_rgb(HV8 { h: 0, v: 127 }));
    // LED 105 stands on a cell that lived before: its hue moves from the old one
    assert_eq!(frame[105], hv_to_rgb(HV8 { h: 10, v: 127 }));
    for _ in 0..150 {
        h.tick(&mut frame);
    }
    let mut want = [DARK; NUM_LEDS];
    for (led, hue) in SECOND {
        want[led] = wheel(hue);
    }
    assert_eq!(frame, want);
}

#[test]
fn hexlife2_runs_for_many_generations() {
    let mut h = hexlife2::new();
    let mut frame = [DARK; NUM_LEDS];
    for _ in 0..601 + 5 * 900 {
        h.tick(&mut frame);
    }
    assert!(frame.iter().any(|c| *c != DARK));
}

#[test]
fn hexlife_fades_the_second_generation_in() {
    let mut h = Hexlife::new();
    let mut frame = [RGB8::new(9, 9, 9); NUM_LEDS];
    for tick in 0..301 {
        h.tick(&mut frame);
        if tick == 0 || tick == 300 {
            assert!(frame.iter().all(|c| *c == DARK), "tick {tick}");
        }
    }
    for _ in 0..300 {
        h.tick(&mut frame);
    }
    let mut want = [DARK; NUM_LEDS];
    for (led, hue) in SECOND {
        want[led] = wheel(hue);
    }
    assert_eq!(frame, want);
}

#[test]
fn hexlife_blends_channel_by_channel() {
    let mut h = Hexlife::new();
    let mut frame = [DARK; NUM_LEDS];
    for _ in 0..301 + 100 {
        h.tick(&mut frame);
    }
    // a third of the way from dark to the wheel's colour at 7, which is (234, 21, 0)
    assert_eq!(wheel(7), RGB8::new(234, 21, 0));
    assert_eq!(frame[92], RGB8::new(78, 7, 0));
    assert_eq!(frame[0], DARK);
}

#[test]
fn hexlife_marks_the_leds_of_the_live_cells() {
    let mut h = Hexlife::new();
    let mut frame = [DARK; NUM_LEDS];
    for led in 0..NUM_LEDS {
        assert!(!h.kept_on(led));
    }
    for _ in 0..301 {
        h.tick(&mut frame);
    }
    for led in 0..NUM_LEDS {
        assert_eq!(h.kept_on(led), SECOND.iter().any(|&(l, _)| l == led), "led {led}");
    }
}

#[test]
fn hexlife_and_hexlife2_share_the_pause_constants() {
    assert_eq!(hexlife2::LERP_TIME, 300);
    assert_eq!(hexlife2::PAUSE_TIME, 600);
    assert_eq!(hexlife::PAUSE_TIME, 300);
}

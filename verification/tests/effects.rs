use mocca_matrix::app::drawing::{self, Stroke};
use mocca_matrix::app::power;
use mocca_matrix::canvas::{clear, fill};
use mocca_matrix::color::{wheel, RGB8};
use mocca_matrix::matrix::NUM_LEDS;

const WHITE: RGB8 = RGB8 { r: 255, g: 255, b: 255 };
const DARK: RGB8 = RGB8 { r: 0, g: 0, b: 0 };

fn dim(c: RGB8, level: u16) -> RGB8 {
    RGB8::new(
        (c.r as u16 * (level + 1) / 256) as u8,
        (c.g as u16 * (level + 1) / 256) as u8,
        (c.b as u16 * (level + 1) / 256) as u8,
    )
}

#[test]
fn fill_paints_every_led() {
    let mut frame = [DARK; NUM_LEDS];
    fill(&mut frame, RGB8::new(5, 6, 7));
    assert!(frame.iter().all(|c| *c == RGB8::new(5, 6, 7)));
}

#[test]
fn clear_turns_every_led_off() {
    let mut frame = [WHITE; NUM_LEDS];
    clear(&mut frame);
    assert!(frame.iter().all(|c| *c == DARK));
}

#[test]
fn drawing_fades_the_frame() {
    let mut d = drawing::new();
    let mut frame = [DARK; NUM_LEDS];
    for (i, c) in frame.iter_mut().enumerate() {
        *c = RGB8::new((i % 256) as u8, 255, 100);
    }
    let before = frame;
    d.tick(&mut frame);
    assert_ne!(frame, before);
    // 255 * 211 / 256 = 210, 100 * 211 / 256 = 82
    assert_eq!(frame[255], RGB8::new(210, 210, 82));
    assert_eq!(frame[1], RGB8::new(0, 210, 82));
    for (a, b) in frame.iter().zip(before.iter()) {
        assert_eq!(*a, dim(*b, 210));
    }
}

#[test]
fn drawing_fades_to_dark_in_the_end() {
    let mut d = drawing::new();
    let mut frame = [WHITE; NUM_LEDS];
    for _ in 0..100 {
        d.tick(&mut frame);
    }
    assert!(frame.iter().all(|c| *c == DARK));
}

#[test]
fn drawing_turns_by_six_degrees_through_the_wheel() {
    let mut d = drawing::new();
    let mut frame = [DARK; NUM_LEDS];
    for turn in 0..3u32 {
        for step in 0..60u32 {
            let stroke = d.tick(&mut frame);
            let n = turn * 60 + step;
            let want = Stroke { degrees: step * 6, color: dim(wheel((3 * n % 256) as u8), 32) };
            assert_eq!(stroke, want, "turn {turn} step {step}");
        }
    }
}

#[test]
fn drawing_draws_its_first_line_in_dim_red() {
    let mut d = drawing::new();
    let mut frame = [DARK; NUM_LEDS];
    // 255 * 33 / 256 = 32
    assert_eq!(d.tick(&mut frame), Stroke { degrees: 0, color: RGB8::new(32, 0, 0) });
    // the wheel at 3 is (246, 9, 0): 246 * 33 / 256 = 31, 9 * 33 / 256 = 1
    assert_eq!(d.tick(&mut frame), Stroke { degrees: 6, color: RGB8::new(31, 1, 0) });
}

#[test]
fn power_lights_one_led_per_tick() {
    let mut p = power::new();
    let mut frame = [DARK; NUM_LEDS];
    for tick in 0..NUM_LEDS {
        p.tick(&mut frame);
        for (led, c) in frame.iter().enumerate() {
            assert_eq!(*c, if led <= tick { WHITE } else { DARK });
        }
    }
}

#[test]
fn power_switches_off_on_the_second_round() {
    let mut p = power::new();
    let mut frame = [DARK; NUM_LEDS];
    for _ in 0..NUM_LEDS {
        p.tick(&mut frame);
    }
    for tick in 0..NUM_LEDS {
        p.tick(&mut frame);
        for (led, c) in frame.iter().enumerate() {
            assert_eq!(*c, if led <= tick { DARK } else { WHITE });
        }
    }
    p.tick(&mut frame);
    assert_eq!(frame[0], WHITE);
}

#[test]
fn power_touches_only_the_led_whose_turn_it_is() {
    let mut p = power::new();
    let mut frame = [RGB8::new(1, 2, 3); NUM_LEDS];
    p.tick(&mut frame);
    p.tick(&mut frame);
    assert_eq!(frame[0], WHITE);
    assert_eq!(frame[1], WHITE);
    assert!(frame[2..].iter().all(|c| *c == RGB8::new(1, 2, 3)));
}

#[test]
fn drawing_fades_as_the_brightness_adapter_does() {
    let mut d = drawing::new();
    let mut frame = [DARK; NUM_LEDS];
    for (i, c) in frame.iter_mut().enumerate() {
        *c = RGB8::new((i * 3 % 256) as u8, (255 - i % 256) as u8, (i * 11 % 256) as u8);
    }
    let pixels = frame.map(|c| smart_leds::RGB8 { r: c.r, g: c.g, b: c.b });
    d.tick(&mut frame);
    let faded = smart_leds::brightness(pixels.iter().cloned(), 210);
    for (got, want) in frame.iter().zip(faded) {
        assert_eq!((got.r, got.g, got.b), (want.r, want.g, want.b));
    }
}

#[test]
fn drawing_takes_its_colours_as_the_brightness_adapter_gives_them() {
    let mut d = drawing::new();
    let mut frame = [DARK; NUM_LEDS];
    for n in 0..200u32 {
        let stroke = d.tick(&mut frame);
        let w = wheel((3 * n % 256) as u8);
        let pixel = smart_leds::RGB8 { r: w.r, g: w.g, b: w.b };
        let want = smart_leds::brightness(core::iter::once(pixel), 32).next().unwrap();
        assert_eq!((stroke.color.r, stroke.color.g, stroke.color.b), (want.r, want.g, want.b));
    }
}

use mocca_matrix::color::{
    black, blue, cyan, green, hv_to_rgb, magenta, red, wheel, white, yellow, Rainbow, GAMMA8, HV8,
    RGB8,
};

#[test]
fn wheel_at_the_thirds() {
    assert_eq!(wheel(255), RGB8::new(255, 0, 0));
    assert_eq!(wheel(171), RGB8::new(3, 0, 252));
    assert_eq!(wheel(170), RGB8::new(0, 0, 255));
    assert_eq!(wheel(86), RGB8::new(0, 252, 3));
    assert_eq!(wheel(85), RGB8::new(0, 255, 0));
    assert_eq!(wheel(1), RGB8::new(252, 3, 0));
    assert_eq!(wheel(0), RGB8::new(255, 0, 0));
}

#[test]
fn wheel_keeps_one_channel_dark_and_the_sum_at_full_scale() {
    for pos in 0..=255u8 {
        let c = wheel(pos);
        assert_eq!(c.r as u32 + c.g as u32 + c.b as u32, 255, "pos {pos}");
        assert!(c.r == 0 || c.g == 0 || c.b == 0);
    }
}

#[test]
fn rainbow_walks_the_wheel_by_its_step() {
    let mut r = Rainbow::step(3);
    assert_eq!(r.next(), Some(wheel(0)));
    assert_eq!(r.next(), Some(wheel(3)));
    assert_eq!(r.next(), Some(wheel(6)));
}

#[test]
fn rainbow_starts_at_its_phase_and_wraps() {
    let mut r = Rainbow::step_phase(7, 250);
    assert_eq!(r.next(), Some(wheel(250)));
    assert_eq!(r.next(), Some(wheel(1)));
    assert_eq!(r.next(), Some(wheel(8)));
}

#[test]
fn rainbow_default_steps_by_one() {
    let mut r = Rainbow::default();
    assert_eq!(r.next(), Some(wheel(0)));
    assert_eq!(r.next(), Some(wheel(1)));
}

#[test]
fn named_colours() {
    assert_eq!(black(), RGB8::new(0, 0, 0));
    assert_eq!(red(), RGB8::new(255, 0, 0));
    assert_eq!(green(), RGB8::new(0, 255, 0));
    assert_eq!(blue(), RGB8::new(0, 0, 255));
    assert_eq!(cyan(), RGB8::new(0, 255, 255));
    assert_eq!(magenta(), RGB8::new(255, 0, 255));
    assert_eq!(yellow(), RGB8::new(255, 255, 0));
    assert_eq!(white(), RGB8::new(255, 255, 255));
    assert_eq!(RGB8::default(), black());
}

#[test]
fn hv_zero_is_dark() {
    assert_eq!(HV8::zero(), HV8 { h: 0, v: 0 });
    assert_eq!(hv_to_rgb(HV8::zero()), black());
}

#[test]
fn hv_at_full_brightness_is_the_wheel_colour() {
    for h in [0u8, 1, 84, 85, 100, 170, 200, 255] {
        assert_eq!(hv_to_rgb(HV8 { h, v: 255 }), wheel(h));
        assert_eq!(RGB8::from(HV8 { h, v: 255 }), wheel(h));
    }
}

#[test]
fn hv_scales_by_the_gamma_table() {
    assert_eq!(GAMMA8[128], 37);
    assert_eq!(hv_to_rgb(HV8 { h: 0, v: 128 }), RGB8::new(37, 0, 0));
    assert_eq!(GAMMA8[200], 129);
    // wheel(100) is (0, 210, 45)
    assert_eq!(wheel(100), RGB8::new(0, 210, 45));
    assert_eq!(hv_to_rgb(HV8 { h: 100, v: 200 }), RGB8::new(0, 106, 22));
    let into: RGB8 = HV8 { h: 100, v: 200 }.into();
    assert_eq!(into, RGB8::new(0, 106, 22));
}

#[test]
fn gamma_rises_from_dark_to_full() {
    assert_eq!(GAMMA8[0], 0);
    assert_eq!(GAMMA8[255], 255);
    assert!(GAMMA8.windows(2).all(|w| w[0] <= w[1]));
}

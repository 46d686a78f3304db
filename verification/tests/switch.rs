use mocca_matrix::switch::{DebouncedSwitch, DEBOUNCE_COUNT};

fn feed(s: &mut DebouncedSwitch, samples: &[bool]) -> usize {
    let mut presses = 0;
    for &down in samples {
        s.update(down);
        if s.just_pressed {
            presses += 1;
        }
    }
    presses
}

#[test]
fn a_new_switch_is_armed_and_silent() {
    let s = DebouncedSwitch::default();
    assert!(s.armed);
    assert!(!s.just_pressed);
    assert_eq!(s.count, DEBOUNCE_COUNT);
    assert_eq!(DEBOUNCE_COUNT, 10);
}

#[test]
fn a_single_glitch_never_fires() {
    let mut s = DebouncedSwitch::default();
    assert_eq!(feed(&mut s, &[false, true, false, false, false]), 0);
    assert!(s.armed);
}

#[test]
fn a_press_shorter_than_the_countdown_never_fires() {
    for n in 0..=DEBOUNCE_COUNT {
        let mut s = DebouncedSwitch::default();
        assert_eq!(feed(&mut s, &vec![true; n]), 0, "{n} samples");
        assert_eq!(feed(&mut s, &vec![false; 50]), 0);
        assert!(s.armed);
    }
}

#[test]
fn a_held_press_fires_on_the_sample_after_the_countdown() {
    let mut s = DebouncedSwitch::default();
    for _ in 0..DEBOUNCE_COUNT {
        s.update(true);
        assert!(!s.just_pressed);
    }
    s.update(true);
    assert!(s.just_pressed);
    assert!(!s.armed);
    s.update(true);
    assert!(!s.just_pressed);
}

#[test]
fn a_held_press_fires_exactly_once() {
    for n in DEBOUNCE_COUNT + 1..DEBOUNCE_COUNT + 200 {
        let mut s = DebouncedSwitch::default();
        assert_eq!(feed(&mut s, &vec![true; n]), 1, "{n} samples");
    }
}

#[test]
fn the_switch_rearms_only_after_a_held_release() {
    let mut s = DebouncedSwitch::default();
    assert_eq!(feed(&mut s, &vec![true; 11]), 1);
    // a short release does not re-arm
    assert_eq!(feed(&mut s, &vec![false; 10]), 0);
    assert!(!s.armed);
    assert_eq!(feed(&mut s, &vec![true; 100]), 0);
    // the eleventh inactive sample does
    assert_eq!(feed(&mut s, &[false]), 0);
    assert!(s.armed);
    assert_eq!(feed(&mut s, &vec![true; 10]), 0);
    assert_eq!(feed(&mut s, &[true]), 1);
}

#[test]
fn a_release_is_never_reported_as_a_press() {
    let mut s = DebouncedSwitch::default();
    feed(&mut s, &vec![true; 11]);
    assert_eq!(feed(&mut s, &vec![false; 500]), 0);
}

#[test]
fn active_samples_count_down_across_pauses() {
    let mut s = DebouncedSwitch::default();
    let mut samples = Vec::new();
    for _ in 0..10 {
        samples.push(true);
        samples.push(false);
    }
    assert_eq!(feed(&mut s, &samples), 0);
    assert_eq!(s.count, 0);
    assert_eq!(feed(&mut s, &[false, false, true]), 1);
}

#[test]
fn two_presses_are_two_events() {
    let mut s = DebouncedSwitch::default();
    let mut samples = vec![true; 20];
    samples.extend(vec![false; 20]);
    samples.extend(vec![true; 20]);
    samples.extend(vec![false; 20]);
    assert_eq!(feed(&mut s, &samples), 2);
}

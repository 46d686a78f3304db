use mocca_matrix::i2s::{decode_block, sample_from_word, sample_to_le_bytes, NUM_SAMPLES};
use mocca_matrix::loudness::{block_energy, Loudness, LoudnessWindow, WINDOW_SIZE};

fn window_of(mut sample: impl FnMut(usize) -> i16) -> Loudness {
    let mut w = LoudnessWindow::new();
    let mut n = 0;
    for block in 0..WINDOW_SIZE {
        let mut samples = [0i16; NUM_SAMPLES];
        for s in samples.iter_mut() {
            *s = sample(n);
            n += 1;
        }
        match w.push(&samples) {
            Some(level) => {
                assert_eq!(block, WINDOW_SIZE - 1);
                return level;
            },
            None => assert!(block < WINDOW_SIZE - 1),
        }
    }
    panic!("the window gave no level");
}

fn rms_of(level: Loudness) -> f64 {
    match level {
        Loudness::Rms(q) => q as f64 / 256.0,
        Loudness::Silence => 0.0,
    }
}

#[test]
fn block_energy_is_the_sum_of_squares() {
    assert_eq!(block_energy(&[0; NUM_SAMPLES]), 0);
    assert_eq!(block_energy(&[3; NUM_SAMPLES]), 9 * 32);
    assert_eq!(block_energy(&[-3; NUM_SAMPLES]), 9 * 32);
    let mut samples = [0i16; NUM_SAMPLES];
    samples[0] = 1;
    samples[1] = -2;
    samples[31] = 100;
    assert_eq!(block_energy(&samples), 1 + 4 + 10000);
}

#[test]
fn block_energy_of_the_extremes() {
    assert_eq!(block_energy(&[i16::MIN; NUM_SAMPLES]), 32 * 32768 * 32768);
    assert_eq!(block_energy(&[i16::MAX; NUM_SAMPLES]), 32 * 32767 * 32767);
}

#[test]
fn a_window_takes_one_hundred_and_twenty_eight_blocks() {
    assert_eq!(WINDOW_SIZE, 128);
    let mut w = LoudnessWindow::new();
    for round in 0..3 {
        for block in 0..WINDOW_SIZE {
            let done = w.push(&[1; NUM_SAMPLES]);
            assert_eq!(done.is_some(), block == WINDOW_SIZE - 1, "round {round} block {block}");
        }
    }
}

#[test]
fn a_silent_window_is_the_floor() {
    assert_eq!(window_of(|_| 0), Loudness::Silence);
}

#[test]
fn silence_repeated_stays_the_floor() {
    let mut w = LoudnessWindow::new();
    let mut levels = 0;
    for _ in 0..10 * WINDOW_SIZE {
        if let Some(level) = w.push(&[0; NUM_SAMPLES]) {
            assert_eq!(level, Loudness::Silence);
            levels += 1;
        }
    }
    assert_eq!(levels, 10);
}

#[test]
fn one_nonzero_sample_is_not_silence() {
    // energy 1 over the window: the root of 16 is 4, in 256ths
    assert_eq!(window_of(|n| if n == 1000 { 1 } else { 0 }), Loudness::Rms(4));
    assert_eq!(window_of(|n| if n == 0 { -1 } else { 0 }), Loudness::Rms(4));
}

#[test]
fn a_constant_signal_has_its_own_level_as_rms() {
    assert_eq!(window_of(|_| 1), Loudness::Rms(256));
    assert_eq!(window_of(|_| -100), Loudness::Rms(25600));
    assert_eq!(window_of(|_| i16::MAX), Loudness::Rms(32767 * 256));
    assert_eq!(window_of(|_| i16::MIN), Loudness::Rms(32768 * 256));
}

#[test]
fn rms_is_rounded_down() {
    // energy 2: the root of 32 is 5.65
    assert_eq!(window_of(|n| if n < 2 { 1 } else { 0 }), Loudness::Rms(5));
    // energy 9 + 4091 + 4 * 4 = 4116: the root of 65856 is 256.6
    let level = window_of(|n| if n == 0 { 3 } else if n < 4092 { 1 } else { 2 });
    assert_eq!(level, Loudness::Rms(256));
}

#[test]
fn a_window_starts_from_nothing_after_the_last() {
    let mut w = LoudnessWindow::new();
    for _ in 0..WINDOW_SIZE - 1 {
        assert_eq!(w.push(&[1000; NUM_SAMPLES]), None);
    }
    assert_eq!(w.push(&[1000; NUM_SAMPLES]), Some(Loudness::Rms(256000)));
    for _ in 0..WINDOW_SIZE - 1 {
        assert_eq!(w.push(&[0; NUM_SAMPLES]), None);
    }
    assert_eq!(w.push(&[0; NUM_SAMPLES]), Some(Loudness::Silence));
}

#[test]
fn a_sinusoid_has_an_rms_of_its_amplitude_over_root_two() {
    for amplitude in [100.0f64, 1000.0, 10000.0, 32000.0] {
        // 64 samples per period: the window of 4096 samples holds 64 whole periods
        let level = window_of(|n| {
            (amplitude * (2.0 * std::f64::consts::PI * n as f64 / 64.0).sin()).round() as i16
        });
        let want = amplitude / 2.0f64.sqrt();
        let got = rms_of(level);
        assert!((got - want).abs() <= want * 0.005 + 0.5, "amplitude {amplitude}: {got} vs {want}");
    }
}

#[test]
fn a_sample_is_the_sixteen_bits_below_the_top_bit() {
    assert_eq!(sample_from_word(0), 0);
    assert_eq!(sample_from_word(1 << 15), 1);
    assert_eq!(sample_from_word(0x7fff), 0);
    assert_eq!(sample_from_word(0x3fff_8000), 32767);
    assert_eq!(sample_from_word(0x4000_0000), -32768);
    assert_eq!(sample_from_word(0x7fff_8000), -1);
    // the top bit does not count
    assert_eq!(sample_from_word(0x8000_0000), 0);
    assert_eq!(sample_from_word(0xffff_ffff), -1);
    assert_eq!(sample_from_word(0x8000_8000), 1);
}

#[test]
fn a_sample_is_what_shifting_the_word_gives() {
    let mut w: u32 = 1;
    for _ in 0..10000 {
        w = w.wrapping_mul(1664525).wrapping_add(1013904223);
        assert_eq!(sample_from_word(w) as i32, ((w << 1) as i32) >> 16);
    }
}

#[test]
fn decode_block_decodes_word_by_word() {
    let mut words = [0u32; NUM_SAMPLES];
    for (i, w) in words.iter_mut().enumerate() {
        *w = (i as u32) << 15;
    }
    words[31] = 0x7fff_8000;
    let samples = decode_block(&words);
    for i in 0..31 {
        assert_eq!(samples[i], i as i16);
    }
    assert_eq!(samples[31], -1);
}

#[test]
fn sample_bytes_are_low_byte_first() {
    assert_eq!(sample_to_le_bytes(0), [0, 0]);
    assert_eq!(sample_to_le_bytes(1), [1, 0]);
    assert_eq!(sample_to_le_bytes(0x1234), [0x34, 0x12]);
    assert_eq!(sample_to_le_bytes(-1), [0xff, 0xff]);
    assert_eq!(sample_to_le_bytes(-2), [0xfe, 0xff]);
    assert_eq!(sample_to_le_bytes(i16::MIN), [0x00, 0x80]);
    assert_eq!(sample_to_le_bytes(i16::MAX), [0xff, 0x7f]);
    for s in [-300i16, -129, -128, 127, 128, 255, 256, 12345] {
        assert_eq!(sample_to_le_bytes(s), s.to_le_bytes());
    }
}

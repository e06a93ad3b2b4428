use maia_httpd::double::Double;
use maia_httpd::tuning::{in_capture_window, tuning_word};

fn double(x: f64) -> Double {
    Double::from_bits(x.to_bits())
}

/// The window check in hardware floating point.
fn float_window(f: f64, center_hz: u64, samp_rate: u32) -> bool {
    let half = f64::from(samp_rate) / 2.0;
    let offset = f - center_hz as f64;
    (-half..half).contains(&offset)
}

/// The tuning word in hardware floating point.
fn float_word(f: f64, center_hz: u64, samp_rate: u32) -> Option<u32> {
    let offset = (f - center_hz as f64) / samp_rate as f64;
    if !(-0.5..0.5).contains(&offset) {
        return None;
    }
    Some(((offset * (1u64 << 24) as f64).round() as i64 as u32) & 0xff_ffff)
}

fn agree(f: f64, center_hz: u64, samp_rate: u32) {
    let d = double(f);
    assert_eq!(
        in_capture_window(d, center_hz, samp_rate),
        float_window(f, center_hz, samp_rate),
        "window of {f:e} at {center_hz}, {samp_rate}"
    );
    assert_eq!(
        tuning_word(d, center_hz, samp_rate),
        float_word(f, center_hz, samp_rate),
        "word of {f:e} at {center_hz}, {samp_rate}"
    );
}

/// A xorshift generator.
struct Random(u64);

impl Random {
    fn next(&mut self) -> u64 {
        self.0 ^= self.0 << 13;
        self.0 ^= self.0 >> 7;
        self.0 ^= self.0 << 17;
        self.0
    }
}

#[test]
fn fallback_channel_word() {
    let f = double(118_050_000.0);
    assert!(in_capture_window(f, 123_438_000, 16_000_000));
    assert_eq!(tuning_word(f, 123_438_000, 16_000_000), Some(0xa9_cac1));
}

#[test]
fn center_channel_has_word_zero() {
    assert_eq!(tuning_word(double(123_438_000.0), 123_438_000, 16_000_000), Some(0));
    assert_eq!(tuning_word(double(-0.0), 0, 1), Some(0));
}

#[test]
fn quarter_rate_words() {
    assert_eq!(tuning_word(double(104_000_000.0), 100_000_000, 16_000_000), Some(0x40_0000));
    assert_eq!(tuning_word(double(96_000_000.0), 100_000_000, 16_000_000), Some(0xc0_0000));
}

#[test]
fn window_edges() {
    let (center, rate) = (100_000_000, 16_000_000);
    assert!(in_capture_window(double(92_000_000.0), center, rate));
    assert!(!in_capture_window(double(108_000_000.0), center, rate));
    assert!(in_capture_window(double(107_999_999.0), center, rate));
    assert!(!in_capture_window(double(91_999_999.0), center, rate));
    assert_eq!(tuning_word(double(92_000_000.0), center, rate), Some(0x80_0000));
    assert_eq!(tuning_word(double(108_000_000.0), center, rate), None);
}

#[test]
fn rounding_onto_an_edge() {
    // The exact offset is below minus half the rate, its rounding is on it.
    let f = double(-1e-300);
    assert!(in_capture_window(f, 8_000_000, 16_000_000));
    assert_eq!(tuning_word(f, 8_000_000, 16_000_000), Some(0x80_0000));
    agree(-1e-300, 8_000_000, 16_000_000);
}

#[test]
fn not_a_number_is_refused() {
    for x in [f64::NAN, f64::INFINITY, f64::NEG_INFINITY] {
        assert!(!in_capture_window(double(x), 100_000_000, 16_000_000));
        assert_eq!(tuning_word(double(x), 100_000_000, 16_000_000), None);
    }
}

#[test]
fn zero_rate_has_no_window() {
    assert!(!in_capture_window(double(5.0), 5, 0));
    assert_eq!(tuning_word(double(5.0), 5, 0), None);
}

#[test]
fn half_steps_round_away_from_zero() {
    // With this rate one step of the word is half a hertz.
    let rate = 1u32 << 23;
    assert_eq!(tuning_word(double(1000.25), 1000, rate), Some(1));
    assert_eq!(tuning_word(double(999.75), 1000, rate), Some(0xff_ffff));
    assert_eq!(tuning_word(double(1000.24), 1000, rate), Some(0));
}

#[test]
fn near_window_agrees_with_hardware() {
    let mut r = Random(0x9e37_79b9_7f4a_7c15);
    for _ in 0..40_000 {
        let center = r.next() % 6_000_000_000;
        let rate = match r.next() % 3 {
            0 => 16_000_000,
            1 => (r.next() % 61_440_000) as u32,
            _ => (r.next() >> 32) as u32,
        };
        let span = f64::from(rate);
        let part = (r.next() >> 11) as f64 / (1u64 << 53) as f64;
        agree(center as f64 + (part - 0.5) * 1.2 * span, center, rate);
        agree(center as f64 + (part - 0.5).round() * 0.5 * span, center, rate);
    }
}

#[test]
fn neighbours_of_the_edges_agree_with_hardware() {
    let mut r = Random(0x2545_f491_4f6c_dd1d);
    for _ in 0..20_000 {
        let center = r.next() >> (r.next() % 64);
        let rate = (r.next() >> 32 >> (r.next() % 32)) as u32;
        for edge in [
            center as f64 - f64::from(rate) / 2.0,
            center as f64 + f64::from(rate) / 2.0,
            center as f64,
        ] {
            for step in 0..3u64 {
                agree(f64::from_bits(edge.to_bits().wrapping_add(step)), center, rate);
                agree(f64::from_bits(edge.to_bits().wrapping_sub(step)), center, rate);
            }
        }
    }
}

#[test]
fn small_frequencies_agree_with_hardware() {
    let mut r = Random(0x1234_5678_9abc_def1);
    for _ in 0..40_000 {
        let bits = (r.next() % (0x3ff + 40) << 52) | (r.next() >> 12) | (r.next() << 63);
        let rate = (r.next() >> 32 >> (r.next() % 32)) as u32;
        let center = match r.next() % 4 {
            0 => 0,
            1 => u64::from(rate) / 2,
            2 => u64::from(rate) / 2 + 1,
            _ => r.next() % (u64::from(rate) + 1),
        };
        agree(f64::from_bits(bits), center, rate);
    }
}

#[test]
fn any_bits_agree_with_hardware() {
    let mut r = Random(0xdead_beef_cafe_f00d);
    for _ in 0..40_000 {
        agree(f64::from_bits(r.next()), r.next() >> (r.next() % 64), (r.next() >> 32) as u32);
    }
}

#[test]
fn checks_agree_on_every_channel() {
    let mut r = Random(0x0bad_5eed_0bad_5eed);
    for _ in 0..20_000 {
        let f = double(f64::from_bits(r.next()));
        let (center, rate) = (r.next() >> (r.next() % 64), (r.next() >> 32) as u32);
        assert_eq!(in_capture_window(f, center, rate), tuning_word(f, center, rate).is_some());
    }
}

use maia_httpd::double::Double;

fn double(x: f64) -> Double {
    Double::from_bits(x.to_bits())
}

#[test]
fn bits_are_kept() {
    assert_eq!(double(118_050_000.0).to_bits(), 0x419c_2533_4000_0000);
}

#[test]
fn within_zero_and_limit() {
    assert!(double(0.0).within(77));
    assert!(double(-0.0).within(77));
    assert!(double(77.0).within(77));
    assert!(double(5e-324).within(77));
    assert!(double(76.999).within(77));
    assert!(!double(77.00000000000001).within(77));
    assert!(!double(-5e-324).within(77));
    assert!(!double(1e300).within(77));
    assert!(!double(f64::NAN).within(77));
    assert!(!double(f64::INFINITY).within(77));
    assert!(double(0.0).within(0));
    assert!(!double(5e-324).within(0));
}

#[test]
fn equality_is_that_of_numbers() {
    let xs = [
        0.0,
        -0.0,
        1.0,
        -1.0,
        5e-324,
        2.2250738585072014e-308,
        1e308,
        f64::INFINITY,
        f64::NEG_INFINITY,
        f64::NAN,
    ];
    for a in xs {
        for b in xs {
            assert_eq!(double(a).equals(double(b)), a == b, "{a:e} and {b:e}");
        }
    }
}

#[test]
fn finite_values() {
    assert!(double(1e308).finite());
    assert!(!double(f64::INFINITY).finite());
    assert!(!double(f64::NAN).finite());
}
